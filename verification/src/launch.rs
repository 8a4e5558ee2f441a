//! Launch planning and sequencing.
//!
//! Everything the shell decides when it runs a pipeline is computed and
//! verified here: what each stage's argument vector is, which stages read
//! and write inter-stage pipes, how redirection files are opened, and in
//! which order the unverified binary must block the child signal, fork,
//! register the job and unblock again.  The binary performs one syscall per
//! step and reports what happened; the machine in this module decides what
//! comes next, so that a fork failure always cleans up every child already
//! forked, and a background pipeline is never waited on.

use crate::parser::Command;
use crate::parser::InputRedirect;
use crate::parser::OutputRedirect;
use crate::parser::views_of;
use vstd::prelude::*;

verus! {

/// Why a pipeline could not be run: a failed system call carrying the
/// originating error code, or an empty pipeline handed in by the caller.
#[derive(Debug, PartialEq, Eq, Structural, Clone, Copy)]
pub enum ExecutionError {
    Syscall(i32),
    Precondition,
}

/// A descriptor operation that failed, with the originating error code: a
/// redirection file that could not be opened, a descriptor that could not
/// be closed, or one that could not be duplicated onto its slot.
#[derive(Debug, PartialEq, Eq, Structural, Clone, Copy)]
pub enum IoError {
    Open(i32),
    Close(i32),
    Dup(i32),
}

/// What ended a launch early: a descriptor failure on the launch path, or
/// a process-control failure.
#[derive(Debug, PartialEq, Eq, Structural, Clone, Copy)]
pub enum PipelineError {
    Io(IoError),
    Exec(ExecutionError),
}

/// How a redirection file is opened: the input file read-only; an output
/// file created when missing with owner-only permission bits, truncated
/// unless the redirection appends.
#[derive(Debug, PartialEq, Eq, Structural, Clone, Copy)]
pub enum OpenMode {
    ReadOnly,
    Truncate,
    Append,
}

/// One file to open before a stage runs, and the standard-stream slot the
/// opened descriptor is installed on in the child (0 for input, 1 or 2 for
/// output).  The opened descriptor is closed in the child after it is
/// duplicated onto the slot, and closed in the parent once the child has
/// inherited it, on the success and the failure path alike.
#[derive(Debug)]
pub struct OpenAction {
    pub filename: String,
    pub mode: OpenMode,
    pub target_fd: u8,
}

/// The plan to open a command's input redirection, if it has one.
pub fn input_open_action(cmd: &Command) -> (r: Option<OpenAction>)
    ensures
        match (r, cmd@.input_file) {
            (Some(a), Some(m)) => a.filename@ == m.filename && a.mode is ReadOnly && a.target_fd
                == m.file_descriptor,
            (None, None) => true,
            _ => false,
        },
{
    match &cmd.input_file {
        Some(r) => Some(
            OpenAction {
                filename: r.filename.clone(),
                mode: OpenMode::ReadOnly,
                target_fd: r.file_descriptor,
            },
        ),
        None => None,
    }
}

/// The plan to open a command's output redirection, if it has one: append
/// mode exactly when the redirection was spelled `>>`, truncation otherwise.
pub fn output_open_action(cmd: &Command) -> (r: Option<OpenAction>)
    ensures
        match (r, cmd@.output_file) {
            (Some(a), Some(m)) => a.filename@ == m.filename && a.mode == (if m.append {
                OpenMode::Append
            } else {
                OpenMode::Truncate
            }) && a.target_fd == m.file_descriptor,
            (None, None) => true,
            _ => false,
        },
{
    match &cmd.output_file {
        Some(r) => Some(
            OpenAction {
                filename: r.filename.clone(),
                mode: if r.append {
                    OpenMode::Append
                } else {
                    OpenMode::Truncate
                },
                target_fd: r.file_descriptor,
            },
        ),
        None => None,
    }
}

/// The wiring plan of one stage of a pipeline, computed before any fork.
#[derive(Debug)]
pub struct StagePlan {
    /// The argument vector the stage execs: the command name first, then
    /// the parameters in their order.
    pub argv: Vec<String>,
    /// The stage's standard input comes from the previous stage's pipe.
    pub reads_pipe: bool,
    /// The stage's standard output feeds the next stage's pipe.
    pub writes_pipe: bool,
    /// Applied in the child after pipe wiring, so an explicit file
    /// redirection overrides the pipe.
    pub input: Option<InputRedirect>,
    pub output: Option<OutputRedirect>,
    /// The child is moved into the pipeline's own process group: the first
    /// stage establishes the group, later stages join it.
    pub join_group: bool,
}

/// The plan of stage `i` of a pipeline.
pub fn stage_plan(pipeline: &Vec<Command>, i: usize) -> (p: StagePlan)
    requires
        i < pipeline@.len(),
    ensures
        views_of(p.argv@) == seq![pipeline@[i as int]@.name] + pipeline@[i as int]@.parameters,
        p.reads_pipe == (i > 0),
        p.writes_pipe == (i + 1 < pipeline@.len()),
        (match p.input {
            Some(r) => Some(r@),
            None => None,
        }) == pipeline@[i as int]@.input_file,
        (match p.output {
            Some(r) => Some(r@),
            None => None,
        }) == pipeline@[i as int]@.output_file,
        p.join_group == pipeline@[i as int].background,
{
    let n = pipeline.len();
    let cmd = &pipeline[i];
    let mut argv: Vec<String> = Vec::new();
    argv.push(cmd.name.clone());
    let mut k: usize = 0;
    while k < cmd.parameters.len()
        invariant
            k <= cmd.parameters@.len(),
            argv@.len() == 1 + k,
            argv@[0] == cmd.name,
            forall|w: int| 0 <= w < k ==> argv@[w + 1] == cmd.parameters@[w],
        decreases cmd.parameters@.len() - k,
    {
        argv.push(cmd.parameters[k].clone());
        k = k + 1;
    }
    proof {
        assert(views_of(argv@) =~= seq![pipeline@[i as int]@.name]
            + pipeline@[i as int]@.parameters);
    }
    let input = match &cmd.input_file {
        Some(r) => Some(InputRedirect { filename: r.filename.clone(), file_descriptor: r.file_descriptor }),
        None => None,
    };
    let output = match &cmd.output_file {
        Some(r) => Some(
            OutputRedirect {
                filename: r.filename.clone(),
                append: r.append,
                file_descriptor: r.file_descriptor,
            },
        ),
        None => None,
    };
    StagePlan {
        argv,
        reads_pipe: i > 0,
        writes_pipe: i + 1 < n,
        input,
        output,
        join_group: cmd.background,
    }
}

/// The phase a launch is in.
#[derive(Debug, PartialEq, Eq, Structural, Clone, Copy)]
pub enum LaunchPhase {
    /// The child signal must be blocked before the first fork, so that no
    /// child is reaped before the job is registered.
    Blocking,
    /// The next stage is forked.
    Forking,
    /// Every stage is forked: the job is registered in the job table.
    Registering,
    /// The job is registered: the child signal may be delivered again.
    Unblocking,
    /// A foreground pipeline: the shell blocks until every member exits.
    Waiting,
    /// The pipeline was launched; a foreground one has been waited for.
    Finished,
    /// A fork failed: the stages already forked are terminated and reaped.
    CleaningUp,
    /// The launch failed and the error is ready to report.
    Failed,
}

/// What the unverified binary must do next.
#[derive(Debug, PartialEq, Eq, Structural, Clone, Copy)]
pub enum LaunchAction {
    /// Block the child signal for the whole process.
    BlockChildSignal,
    /// Fork stage `stage` according to its plan.
    ForkStage { stage: usize },
    /// Put the forked pids into the job table as one job.
    RegisterJob,
    /// Unblock the child signal.
    UnblockChildSignal,
    /// Block on each member of the foreground job until all have exited.
    WaitForeground,
    /// Terminate and reap every pid forked so far.
    CleanupForked,
    /// The launch is over: ask `outcome` for the result.
    Report,
}

/// The launch sequencer: decides, step by step, what the binary does to run
/// one pipeline.
#[derive(Debug)]
pub struct Launcher {
    pub n_stages: usize,
    pub background: bool,
    pub phase: LaunchPhase,
    /// The pids forked so far, in stage order; the first is the leader of
    /// the pipeline's process group.
    pub forked: Vec<i32>,
    /// What ended the launch, once something has.
    pub error: Option<PipelineError>,
}

impl Launcher {
    /// Well-formed: the phase and the number of forked stages agree, and a
    /// background launch never reaches the waiting phase.
    pub open spec fn wf(self) -> bool {
        &&& self.n_stages >= 1
        &&& self.forked@.len() <= self.n_stages
        &&& (self.phase is Blocking ==> self.forked@.len() == 0)
        &&& (self.phase is Forking ==> self.forked@.len() < self.n_stages)
        &&& ((self.phase is Registering || self.phase is Unblocking || self.phase is Waiting
            || self.phase is Finished) ==> self.forked@.len() == self.n_stages)
        &&& (self.phase is Waiting ==> !self.background)
        &&& ((self.phase is CleaningUp || self.phase is Failed) ==> self.error is Some)
    }

    /// The action the current phase calls for.
    pub open spec fn next_action_spec(self) -> LaunchAction {
        match self.phase {
            LaunchPhase::Blocking => LaunchAction::BlockChildSignal,
            LaunchPhase::Forking => LaunchAction::ForkStage { stage: self.forked@.len() as usize },
            LaunchPhase::Registering => LaunchAction::RegisterJob,
            LaunchPhase::Unblocking => LaunchAction::UnblockChildSignal,
            LaunchPhase::Waiting => LaunchAction::WaitForeground,
            LaunchPhase::CleaningUp => LaunchAction::CleanupForked,
            LaunchPhase::Finished => LaunchAction::Report,
            LaunchPhase::Failed => LaunchAction::Report,
        }
    }

    /// Begin launching a pipeline.  An empty pipeline is the caller's
    /// contract violation and is rejected before anything is forked.
    pub fn start(pipeline: &Vec<Command>) -> (r: Result<Launcher, ExecutionError>)
        ensures
            match r {
                Ok(l) => pipeline@.len() > 0 && l.wf() && l.n_stages == pipeline@.len()
                    && l.background == pipeline@[0].background && l.phase is Blocking
                    && l.forked@.len() == 0 && l.error is None,
                Err(e) => pipeline@.len() == 0 && e == ExecutionError::Precondition,
            },
    {
        if pipeline.len() == 0 {
            return Err(ExecutionError::Precondition);
        }
        Ok(
            Launcher {
                n_stages: pipeline.len(),
                background: pipeline[0].background,
                phase: LaunchPhase::Blocking,
                forked: Vec::new(),
                error: None,
            },
        )
    }

    /// What the binary must do next.
    pub fn next_action(&self) -> (a: LaunchAction)
        ensures
            a == self.next_action_spec(),
    {
        match self.phase {
            LaunchPhase::Blocking => LaunchAction::BlockChildSignal,
            LaunchPhase::Forking => LaunchAction::ForkStage { stage: self.forked.len() },
            LaunchPhase::Registering => LaunchAction::RegisterJob,
            LaunchPhase::Unblocking => LaunchAction::UnblockChildSignal,
            LaunchPhase::Waiting => LaunchAction::WaitForeground,
            LaunchPhase::CleaningUp => LaunchAction::CleanupForked,
            LaunchPhase::Finished => LaunchAction::Report,
            LaunchPhase::Failed => LaunchAction::Report,
        }
    }

    /// The pids forked so far, in stage order.
    pub fn pids(&self) -> (r: &Vec<i32>)
        ensures
            r@ == self.forked@,
    {
        &self.forked
    }

    /// The child signal is blocked: forking may begin.
    pub fn child_signal_blocked(&mut self)
        requires
            old(self).wf(),
            old(self).phase is Blocking,
        ensures
            final(self).wf(),
            final(self).phase is Forking,
            final(self).n_stages == old(self).n_stages,
            final(self).background == old(self).background,
            final(self).forked@ == old(self).forked@,
            final(self).error == old(self).error,
    {
        self.phase = LaunchPhase::Forking;
    }

    /// One stage was forked: record its pid; once every stage is forked the
    /// job is registered.
    pub fn stage_forked(&mut self, pid: i32)
        requires
            old(self).wf(),
            old(self).phase is Forking,
        ensures
            final(self).wf(),
            final(self).forked@ == old(self).forked@.push(pid),
            final(self).n_stages == old(self).n_stages,
            final(self).background == old(self).background,
            final(self).error == old(self).error,
            final(self).phase == (if old(self).forked@.len() + 1 == old(self).n_stages {
                LaunchPhase::Registering
            } else {
                LaunchPhase::Forking
            }),
    {
        self.forked.push(pid);
        if self.forked.len() == self.n_stages {
            self.phase = LaunchPhase::Registering;
        }
    }

    /// A fork failed.  Every pid forked so far is kept, so that the
    /// clean-up action covers all of them and no child is orphaned; the
    /// originating error code is kept for the report.
    pub fn fork_failed(&mut self, errno: i32)
        requires
            old(self).wf(),
            old(self).phase is Forking,
        ensures
            final(self).wf(),
            final(self).phase is CleaningUp,
            final(self).forked@ == old(self).forked@,
            final(self).n_stages == old(self).n_stages,
            final(self).background == old(self).background,
            final(self).error == Some(PipelineError::Exec(ExecutionError::Syscall(errno))),
            final(self).next_action_spec() == LaunchAction::CleanupForked,
    {
        self.error = Some(PipelineError::Exec(ExecutionError::Syscall(errno)));
        self.phase = LaunchPhase::CleaningUp;
    }

    /// A descriptor operation on the launch path failed — most often a
    /// redirection file that could not be opened before its stage's fork.
    /// The launch is abandoned the same way as after a failed fork: the
    /// stages already forked are terminated and reaped, and the descriptor
    /// error is reported.
    pub fn io_failed(&mut self, e: IoError)
        requires
            old(self).wf(),
            old(self).phase is Forking || old(self).phase is Registering,
        ensures
            final(self).wf(),
            final(self).phase is CleaningUp,
            final(self).forked@ == old(self).forked@,
            final(self).n_stages == old(self).n_stages,
            final(self).background == old(self).background,
            final(self).error == Some(PipelineError::Io(e)),
            final(self).next_action_spec() == LaunchAction::CleanupForked,
    {
        self.error = Some(PipelineError::Io(e));
        self.phase = LaunchPhase::CleaningUp;
    }

    /// The job could not be registered — its process group or a member pid
    /// collides with an entry the table still holds.  That is a caller's
    /// contract violation, and it is reported loudly: the forked stages are
    /// terminated and reaped, and the launch fails, rather than leaving a
    /// pipeline behind that nothing would ever wait for.
    pub fn register_failed(&mut self)
        requires
            old(self).wf(),
            old(self).phase is Registering,
        ensures
            final(self).wf(),
            final(self).phase is CleaningUp,
            final(self).forked@ == old(self).forked@,
            final(self).n_stages == old(self).n_stages,
            final(self).background == old(self).background,
            final(self).error == Some(PipelineError::Exec(ExecutionError::Precondition)),
            final(self).next_action_spec() == LaunchAction::CleanupForked,
    {
        self.error = Some(PipelineError::Exec(ExecutionError::Precondition));
        self.phase = LaunchPhase::CleaningUp;
    }

    /// Every already-forked stage has been terminated and reaped: the
    /// launch reports the failure and nothing stays registered.
    pub fn forked_cleaned(&mut self)
        requires
            old(self).wf(),
            old(self).phase is CleaningUp,
        ensures
            final(self).wf(),
            final(self).phase is Failed,
            final(self).error == old(self).error,
            final(self).n_stages == old(self).n_stages,
            final(self).background == old(self).background,
    {
        self.phase = LaunchPhase::Failed;
    }

    /// The job is in the table; only now may the child signal be unblocked,
    /// so the reaper never observes a pid the table does not know.
    pub fn job_registered(&mut self)
        requires
            old(self).wf(),
            old(self).phase is Registering,
        ensures
            final(self).wf(),
            final(self).phase is Unblocking,
            final(self).forked@ == old(self).forked@,
            final(self).n_stages == old(self).n_stages,
            final(self).background == old(self).background,
            final(self).error == old(self).error,
    {
        self.phase = LaunchPhase::Unblocking;
    }

    /// The child signal is delivered again.  A background pipeline is done:
    /// control returns to the caller at once.  Only a foreground pipeline
    /// enters the waiting phase.
    pub fn child_signal_unblocked(&mut self)
        requires
            old(self).wf(),
            old(self).phase is Unblocking,
        ensures
            final(self).wf(),
            final(self).phase == (if old(self).background {
                LaunchPhase::Finished
            } else {
                LaunchPhase::Waiting
            }),
            final(self).forked@ == old(self).forked@,
            final(self).n_stages == old(self).n_stages,
            final(self).background == old(self).background,
            final(self).error == old(self).error,
    {
        if self.background {
            self.phase = LaunchPhase::Finished;
        } else {
            self.phase = LaunchPhase::Waiting;
        }
    }

    /// Every member of the foreground job has exited and been reaped.
    pub fn foreground_exited(&mut self)
        requires
            old(self).wf(),
            old(self).phase is Waiting,
        ensures
            final(self).wf(),
            final(self).phase is Finished,
            final(self).forked@ == old(self).forked@,
            final(self).n_stages == old(self).n_stages,
            final(self).background == old(self).background,
            final(self).error == old(self).error,
    {
        self.phase = LaunchPhase::Finished;
    }

    /// The blocking wait on a foreground member failed.  As in the rest of
    /// the shell, a wait failure does not terminate the pipeline's other
    /// members: the launch only reports the system call's error code.
    pub fn wait_failed(&mut self, errno: i32)
        requires
            old(self).wf(),
            old(self).phase is Waiting,
        ensures
            final(self).wf(),
            final(self).phase is Failed,
            final(self).forked@ == old(self).forked@,
            final(self).n_stages == old(self).n_stages,
            final(self).background == old(self).background,
            final(self).error == Some(PipelineError::Exec(ExecutionError::Syscall(errno))),
    {
        self.error = Some(PipelineError::Exec(ExecutionError::Syscall(errno)));
        self.phase = LaunchPhase::Failed;
    }

    /// The result of the launch: success, or what ended it.
    pub fn outcome(&self) -> (r: Result<(), PipelineError>)
        requires
            self.wf(),
            self.phase is Finished || self.phase is Failed,
        ensures
            self.phase is Finished ==> r == Ok::<(), PipelineError>(()),
            self.phase is Failed ==> r == Err::<(), PipelineError>(self.error.unwrap()),
    {
        match self.phase {
            LaunchPhase::Finished => Ok(()),
            _ => match self.error {
                Some(e) => Err(e),
                None => Err(PipelineError::Exec(ExecutionError::Precondition)),
            },
        }
    }
}

/// A background pipeline returns control immediately: in no well-formed
/// state of its launch is the shell told to block on the pipeline, so
/// launching it never waits.
pub proof fn lemma_background_launch_never_waits(l: Launcher)
    requires
        l.wf(),
        l.background,
    ensures
        l.next_action_spec() != LaunchAction::WaitForeground,
{
}

/// A fork failure leads to clean-up before anything else: the only action
/// a launch in the clean-up phase asks of the binary is to terminate and
/// reap the forked stages — never to register, wait or fork further.  That
/// the clean-up names every forked pid is the contract of `fork_failed`,
/// which keeps the forked list whole.
pub proof fn lemma_fork_failure_cleans_up_first(l: Launcher)
    requires
        l.wf(),
        l.phase is CleaningUp,
    ensures
        l.next_action_spec() == LaunchAction::CleanupForked,
{
}

} // verus!
