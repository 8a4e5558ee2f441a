//! Execution core of an interactive command shell.
//!
//! The crate covers three coupled pieces: the command-line grammar that turns
//! a line of text into a structured pipeline description, the launch planning
//! and sequencing that decides how the pipeline's processes are forked, wired
//! and cleaned up, and the job table that tracks process groups until every
//! member has been reaped.  All decisions are made here and verified; the
//! actual syscalls (fork, exec, pipe, signal masking) are performed by the
//! unverified binary around this library.

pub mod jobs;
pub mod launch;
pub mod parser;
pub mod sig;

