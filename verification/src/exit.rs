//! Exit codes: the reasons the program can stop, each with its numeric
//! process status and its message.  Printing and the process exit itself are
//! left to the caller.

use vstd::prelude::*;

verus! {

/// The reasons the program can stop.
#[derive(Debug)]
pub enum ExitCode {
    Success,
    MalformedPattern(String),
    MalformedRegex(String),
    MissingRequiredCliArgument(String),
    NotEnoughFiles,
    NotEnoughPatterns(String),
}

/// The process status of each exit reason.
pub open spec fn spec_exit_status(code: ExitCode) -> u8 {
    match code {
        ExitCode::Success => 0,
        ExitCode::MalformedPattern(_) => 1,
        ExitCode::MalformedRegex(_) => 2,
        ExitCode::MissingRequiredCliArgument(_) => 3,
        ExitCode::NotEnoughFiles => 4,
        ExitCode::NotEnoughPatterns(_) => 5,
    }
}

/// The message printed for each exit reason; none for a normal exit.
pub open spec fn spec_exit_message(code: ExitCode) -> Option<Seq<char>> {
    match code {
        ExitCode::Success => None,
        ExitCode::MalformedPattern(p) => Some("malformed pattern(s): "@ + p@),
        ExitCode::MalformedRegex(p) => Some("malformed regex: "@ + p@),
        ExitCode::MissingRequiredCliArgument(p) => Some("Need to provide one of "@ + p@),
        ExitCode::NotEnoughFiles => Some("provide at least 1 file"@),
        ExitCode::NotEnoughPatterns(p) => Some("not enough pattern(s) in "@ + p@),
    }
}

/// The process status to exit with for `code`.
pub fn exit_status(code: &ExitCode) -> (r: u8)
    ensures
        r == spec_exit_status(*code),
{
    match code {
        ExitCode::Success => 0,
        ExitCode::MalformedPattern(_) => 1,
        ExitCode::MalformedRegex(_) => 2,
        ExitCode::MissingRequiredCliArgument(_) => 3,
        ExitCode::NotEnoughFiles => 4,
        ExitCode::NotEnoughPatterns(_) => 5,
    }
}

/// The message to print before exiting with `code`, if any.
pub fn exit_message(code: &ExitCode) -> (r: Option<String>)
    ensures
        match r {
            Some(m) => spec_exit_message(*code) == Some(m@),
            None => spec_exit_message(*code) is None,
        },
{
    match code {
        ExitCode::Success => None,
        ExitCode::MalformedPattern(p) => {
            let mut m = String::from_str("malformed pattern(s): ");
            m.append(p.as_str());
            Some(m)
        },
        ExitCode::MalformedRegex(p) => {
            let mut m = String::from_str("malformed regex: ");
            m.append(p.as_str());
            Some(m)
        },
        ExitCode::MissingRequiredCliArgument(p) => {
            let mut m = String::from_str("Need to provide one of ");
            m.append(p.as_str());
            Some(m)
        },
        ExitCode::NotEnoughFiles => Some(String::from_str("provide at least 1 file")),
        ExitCode::NotEnoughPatterns(p) => {
            let mut m = String::from_str("not enough pattern(s) in ");
            m.append(p.as_str());
            Some(m)
        },
    }
}

/// The status of a normal exit.
pub fn quit() -> (r: u8)
    ensures
        r == spec_exit_status(ExitCode::Success),
        r == 0,
{
    exit_status(&ExitCode::Success)
}

} // verus!
