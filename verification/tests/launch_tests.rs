use rshell::launch::input_open_action;
use rshell::launch::output_open_action;
use rshell::launch::stage_plan;
use rshell::launch::ExecutionError;
use rshell::launch::IoError;
use rshell::launch::LaunchAction;
use rshell::launch::Launcher;
use rshell::launch::OpenMode;
use rshell::launch::PipelineError;
use rshell::parser::parse;
use rshell::parser::parse_command;
use rshell::parser::Command;

#[test]
fn test_empty_pipeline_is_precondition_error() {
    let pipeline: Vec<Command> = Vec::new();
    match Launcher::start(&pipeline) {
        Err(e) => assert_eq!(e, ExecutionError::Precondition),
        Ok(_) => panic!("an empty pipeline must be rejected"),
    }
}

#[test]
fn test_foreground_launch_sequence() {
    let pipeline = parse("cmd a b").unwrap();
    let mut launcher = Launcher::start(&pipeline).unwrap();

    assert_eq!(launcher.next_action(), LaunchAction::BlockChildSignal);
    launcher.child_signal_blocked();

    assert_eq!(launcher.next_action(), LaunchAction::ForkStage { stage: 0 });
    launcher.stage_forked(700);

    // the job goes into the table before the child signal is unblocked
    assert_eq!(launcher.next_action(), LaunchAction::RegisterJob);
    assert_eq!(launcher.pids(), &vec![700]);
    launcher.job_registered();

    assert_eq!(launcher.next_action(), LaunchAction::UnblockChildSignal);
    launcher.child_signal_unblocked();

    // a foreground pipeline blocks until every member has exited
    assert_eq!(launcher.next_action(), LaunchAction::WaitForeground);
    launcher.foreground_exited();

    assert_eq!(launcher.next_action(), LaunchAction::Report);
    assert_eq!(launcher.outcome(), Ok(()));
}

#[test]
fn test_background_launch_returns_immediately() {
    let pipeline = parse("cmd &").unwrap();
    let mut launcher = Launcher::start(&pipeline).unwrap();

    launcher.child_signal_blocked();
    launcher.stage_forked(710);
    launcher.job_registered();
    launcher.child_signal_unblocked();

    // no waiting phase: control returns to the caller at once
    assert_eq!(launcher.next_action(), LaunchAction::Report);
    assert_eq!(launcher.outcome(), Ok(()));
}

#[test]
fn test_fork_failure_cleans_up_every_forked_stage() {
    // a hand-built two-stage pipeline: the grammar in scope emits single
    // stages, but the launcher must not assume length one
    let mut first = parse_command("producer").unwrap();
    first.pipe = true;
    let second = parse_command("consumer").unwrap();
    let pipeline = vec![first, second];

    let mut launcher = Launcher::start(&pipeline).unwrap();
    launcher.child_signal_blocked();

    assert_eq!(launcher.next_action(), LaunchAction::ForkStage { stage: 0 });
    launcher.stage_forked(720);

    assert_eq!(launcher.next_action(), LaunchAction::ForkStage { stage: 1 });
    launcher.fork_failed(11);

    // the clean-up names exactly the children already forked
    assert_eq!(launcher.next_action(), LaunchAction::CleanupForked);
    assert_eq!(launcher.pids(), &vec![720]);
    launcher.forked_cleaned();

    assert_eq!(launcher.next_action(), LaunchAction::Report);
    assert_eq!(
        launcher.outcome(),
        Err(PipelineError::Exec(ExecutionError::Syscall(11)))
    );
}

#[test]
fn test_open_failure_aborts_launch() {
    // a redirection file that cannot be opened aborts the pipeline with an
    // open error before its stage is forked
    let pipeline = parse("abc < missing").unwrap();
    let mut launcher = Launcher::start(&pipeline).unwrap();
    launcher.child_signal_blocked();

    assert_eq!(launcher.next_action(), LaunchAction::ForkStage { stage: 0 });
    launcher.io_failed(IoError::Open(2));

    assert_eq!(launcher.next_action(), LaunchAction::CleanupForked);
    assert!(launcher.pids().is_empty());
    launcher.forked_cleaned();

    assert_eq!(
        launcher.outcome(),
        Err(PipelineError::Io(IoError::Open(2)))
    );
}

#[test]
fn test_register_collision_fails_loudly() {
    let pipeline = parse("cmd").unwrap();
    let mut launcher = Launcher::start(&pipeline).unwrap();
    launcher.child_signal_blocked();
    launcher.stage_forked(730);

    // the job table refused the registration: the launch is abandoned and
    // the forked stage is cleaned up, not silently left behind
    assert_eq!(launcher.next_action(), LaunchAction::RegisterJob);
    launcher.register_failed();

    assert_eq!(launcher.next_action(), LaunchAction::CleanupForked);
    assert_eq!(launcher.pids(), &vec![730]);
    launcher.forked_cleaned();

    assert_eq!(
        launcher.outcome(),
        Err(PipelineError::Exec(ExecutionError::Precondition))
    );
}

#[test]
fn test_wait_failure_reports_error_code() {
    let pipeline = parse("cmd").unwrap();
    let mut launcher = Launcher::start(&pipeline).unwrap();
    launcher.child_signal_blocked();
    launcher.stage_forked(740);
    launcher.job_registered();
    launcher.child_signal_unblocked();

    assert_eq!(launcher.next_action(), LaunchAction::WaitForeground);
    launcher.wait_failed(10);

    assert_eq!(launcher.next_action(), LaunchAction::Report);
    assert_eq!(
        launcher.outcome(),
        Err(PipelineError::Exec(ExecutionError::Syscall(10)))
    );
}

#[test]
fn test_stage_plan_wires_pipes_and_argv() {
    let mut first = parse_command("producer x").unwrap();
    first.pipe = true;
    let second = parse_command("consumer").unwrap();
    let pipeline = vec![first, second];

    let plan0 = stage_plan(&pipeline, 0);
    assert_eq!(
        plan0.argv,
        vec!["producer".to_string(), "x".to_string()]
    );
    assert!(!plan0.reads_pipe);
    assert!(plan0.writes_pipe);

    let plan1 = stage_plan(&pipeline, 1);
    assert_eq!(plan1.argv, vec!["consumer".to_string()]);
    assert!(plan1.reads_pipe);
    assert!(!plan1.writes_pipe);
}

#[test]
fn test_open_actions_follow_redirections() {
    let cmd = parse_command("abc < input > output").unwrap();
    let input = input_open_action(&cmd).unwrap();
    assert_eq!(input.filename, "input".to_string());
    assert_eq!(input.mode, OpenMode::ReadOnly);
    assert_eq!(input.target_fd, 0);

    let output = output_open_action(&cmd).unwrap();
    assert_eq!(output.filename, "output".to_string());
    assert_eq!(output.mode, OpenMode::Truncate);
    assert_eq!(output.target_fd, 1);

    // `>>` appends instead of truncating, so prior contents are preserved
    let appending = parse_command("abc >> log").unwrap();
    let output = output_open_action(&appending).unwrap();
    assert_eq!(output.mode, OpenMode::Append);
    assert_eq!(output.target_fd, 1);

    // `2>` redirects the error stream
    let err_redirect = parse_command("abc 2> log").unwrap();
    let output = output_open_action(&err_redirect).unwrap();
    assert_eq!(output.mode, OpenMode::Truncate);
    assert_eq!(output.target_fd, 2);

    let plain = parse_command("abc").unwrap();
    assert!(input_open_action(&plain).is_none());
    assert!(output_open_action(&plain).is_none());
}

#[test]
fn test_stage_plan_applies_redirection_after_pipe() {
    let cmd = parse_command("abc < input &").unwrap();
    let pipeline = vec![cmd];
    let plan = stage_plan(&pipeline, 0);
    assert_eq!(plan.input.unwrap().filename, "input".to_string());
    assert!(plan.output.is_none());
    assert!(plan.join_group);
}
