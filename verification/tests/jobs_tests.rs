use rshell::jobs::JobTable;

#[test]
fn test_foreground_job_reaped_and_removed() {
    let mut table = JobTable::new();
    table.register(100, vec![100, 101], true);
    assert!(table.contains_pgid(100));
    assert!(table.foreground_present());
    assert_eq!(table.len(), 1);

    // the shell blocks on each member in turn
    assert_eq!(table.next_foreground_pid(), Some(100));
    table.reap(100);
    assert_eq!(table.next_foreground_pid(), Some(101));
    table.reap(101);

    // every member has exited: nothing is left to wait for
    assert_eq!(table.next_foreground_pid(), None);
    assert_eq!(table.pgid_of(100), None);
    assert_eq!(table.pgid_of(101), None);

    // tidying drops the drained job: it is absent from the table
    table.remove_finished();
    assert_eq!(table.len(), 0);
    assert!(!table.contains_pgid(100));
    assert!(!table.foreground_present());
}

#[test]
fn test_background_job_tracked_until_reaped() {
    let mut table = JobTable::new();
    table.register(200, vec![200], false);
    assert!(!table.foreground_present());

    // a background job never blocks the foreground path
    assert_eq!(table.next_foreground_pid(), None);

    // its later termination is reflected in the table
    assert_eq!(table.pgid_of(200), Some(200));
    table.reap(200);
    assert_eq!(table.pgid_of(200), None);
    table.remove_finished();
    assert!(!table.contains_pgid(200));
}

#[test]
fn test_note_exits_reflects_background_terminations() {
    let mut table = JobTable::new();
    table.register(600, vec![600, 601], false);

    // the handler marked these pids; the main loop hands them in together
    table.note_exits(&vec![601, 999]);
    assert_eq!(table.pgid_of(601), None);
    assert_eq!(table.pgid_of(600), Some(600));

    table.note_exits(&vec![600]);
    table.remove_finished();
    assert!(!table.contains_pgid(600));
    assert_eq!(table.len(), 0);
}

#[test]
fn test_reaping_unknown_pid_changes_nothing() {
    let mut table = JobTable::new();
    table.register(300, vec![300, 301], false);
    table.reap(999);
    assert_eq!(table.len(), 1);
    assert_eq!(table.pgid_of(300), Some(300));
    assert_eq!(table.pgid_of(301), Some(300));
}

#[test]
fn test_several_jobs_reaped_independently() {
    let mut table = JobTable::new();
    table.register(400, vec![400, 401], false);
    table.register(500, vec![500], true);
    assert_eq!(table.len(), 2);

    table.reap(400);
    // the other jobs keep their members
    assert_eq!(table.pgid_of(401), Some(400));
    assert_eq!(table.pgid_of(500), Some(500));

    table.reap(500);
    table.remove_finished();
    // the drained job is gone, the half-reaped one stays
    assert_eq!(table.len(), 1);
    assert!(table.contains_pgid(400));
    assert!(!table.contains_pgid(500));
}
