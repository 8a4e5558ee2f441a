use rshell::sig::should_reap_in_handler;
use rshell::sig::SigError;

const CHILD_SIGNAL: i32 = 17;

#[test]
fn test_handler_reaps_background_exit() {
    // another group's child, delivered as the child signal: reaped
    assert!(should_reap_in_handler(CHILD_SIGNAL, CHILD_SIGNAL, 4321, 1000));
}

#[test]
fn test_handler_ignores_other_signals() {
    assert!(!should_reap_in_handler(10, CHILD_SIGNAL, 4321, 1000));
}

#[test]
fn test_handler_leaves_foreground_group_alone() {
    // the pid belongs to the shell's own group: the foreground wait owns it
    assert!(!should_reap_in_handler(CHILD_SIGNAL, CHILD_SIGNAL, 1000, 1000));
}

#[test]
fn test_handler_leaves_unknown_group_alone() {
    assert!(!should_reap_in_handler(CHILD_SIGNAL, CHILD_SIGNAL, -1, 1000));
}

#[test]
fn test_sig_error_carries_error_code() {
    let e = SigError::Syscall(4);
    assert_eq!(e, SigError::Syscall(4));
    assert_ne!(e, SigError::Syscall(5));
}
