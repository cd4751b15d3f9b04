//! Batch-rename proposal engine.
//!
//! The library turns a list of candidate file paths and an ordered list of
//! regex/replacement patterns into a deterministic rename plan, and drives
//! the confirmation/execution state machine that applies such a plan with
//! per-item failure tolerance.  All file-system and terminal work is left to
//! the surrounding binary; the library only computes.

pub mod cli;
pub mod execute;
pub mod exit;
pub mod pattern;
pub mod propose;

pub use cli::Args;
pub use cli::ParseOutcome;
pub use cli::args_for;
pub use execute::Confirmation;
pub use execute::ExecutionReport;
pub use execute::Executor;
pub use execute::Phase;
pub use execute::RenameOp;
pub use execute::classify_answer;
pub use exit::ExitCode;
pub use pattern::Pattern;
pub use propose::Candidate;
pub use propose::DirGroup;
pub use propose::Proposal;
pub use propose::Rename;
pub use propose::propose_renames;
