//! Tests of the argument parser and the exit reasons.

use bare::Args;
use bare::Candidate;
use bare::ExitCode;
use bare::ParseOutcome;
use bare::exit::exit_message;
use bare::exit::exit_status;
use bare::exit::quit;
use bare::propose_renames;

fn to_string_vec(v: &[&str]) -> Vec<String> {
    let mut r: Vec<String> = vec![];
    for s in v.iter() {
        r.push(s.to_string());
    }
    r
}

#[test]
fn parse_collects_files_patterns_and_dry_run() {
    let raw = to_string_vec(&["bare", "-p", "a", "b", "c", "d", "-f", "x", "y", "-d"]);
    match Args::parse(&raw) {
        ParseOutcome::Parsed(args) => {
            assert_eq!(args.file_paths, to_string_vec(&["x", "y"]));
            assert!(args.dry_run);
            assert_eq!(args.patterns.len(), 2);
            assert_eq!(args.patterns[0].source().as_str(), "(?P<regex>(((?i)a)))");
            assert_eq!(args.patterns[0].replacement().as_str(), "b");
            assert_eq!(args.patterns[1].source().as_str(), "(?P<regex>(((?i)c)))");
            assert_eq!(args.patterns[1].replacement().as_str(), "d");
        }
        _ => panic!("expected a parsed configuration"),
    }
}

#[test]
fn parse_without_dry_run_flag() {
    let raw = to_string_vec(&["bare", "-f", "x", "-p", "a", "b"]);
    match Args::parse(&raw) {
        ParseOutcome::Parsed(args) => {
            assert!(!args.dry_run);
            assert_eq!(args.file_paths, to_string_vec(&["x"]));
        }
        _ => panic!("expected a parsed configuration"),
    }
}

#[test]
fn parse_help_wins() {
    let raw = to_string_vec(&["bare", "--help", "-f", "x", "-p", "a", "b"]);
    assert!(matches!(Args::parse(&raw), ParseOutcome::Help));
    let raw = to_string_vec(&["bare", "-h"]);
    assert!(matches!(Args::parse(&raw), ParseOutcome::Help));
}

#[test]
fn parse_version() {
    let raw = to_string_vec(&["bare", "--version"]);
    assert!(matches!(Args::parse(&raw), ParseOutcome::Version));
}

#[test]
fn parse_missing_files_flag_aborts() {
    let raw = to_string_vec(&["bare", "-p", "a", "b"]);
    match Args::parse(&raw) {
        ParseOutcome::Aborted(ExitCode::MissingRequiredCliArgument(msg)) => {
            assert_eq!(msg, "[\"-f\", \"--files\"]".to_string());
        }
        _ => panic!("expected a missing-argument abort"),
    }
}

#[test]
fn parse_files_flag_without_files_aborts() {
    let raw = to_string_vec(&["bare", "-f", "-p", "a", "b"]);
    assert!(matches!(
        Args::parse(&raw),
        ParseOutcome::Aborted(ExitCode::NotEnoughFiles)
    ));
}

#[test]
fn parse_missing_pattern_flag_aborts() {
    let raw = to_string_vec(&["bare", "-f", "x"]);
    match Args::parse(&raw) {
        ParseOutcome::Aborted(ExitCode::MissingRequiredCliArgument(msg)) => {
            assert_eq!(msg, "[\"-p\", \"--pattern\"]".to_string());
        }
        _ => panic!("expected a missing-argument abort"),
    }
}

#[test]
fn parse_too_few_patterns_aborts() {
    let raw = to_string_vec(&["bare", "-f", "x", "-p", "a"]);
    match Args::parse(&raw) {
        ParseOutcome::Aborted(ExitCode::NotEnoughPatterns(msg)) => {
            assert_eq!(msg, "[\"a\"]".to_string());
        }
        _ => panic!("expected a not-enough-patterns abort"),
    }
}

#[test]
fn parse_unpaired_patterns_abort() {
    let raw = to_string_vec(&["bare", "-f", "x", "-p", "a", "b", "c"]);
    match Args::parse(&raw) {
        ParseOutcome::Aborted(ExitCode::MalformedPattern(msg)) => {
            assert_eq!(msg, "[\"a\", \"b\", \"c\"]".to_string());
        }
        _ => panic!("expected a malformed-pattern abort"),
    }
}

#[test]
fn parse_invalid_regex_aborts() {
    let raw = to_string_vec(&["bare", "-f", "x", "-p", "foo(bar", "baz"]);
    assert!(matches!(
        Args::parse(&raw),
        ParseOutcome::Aborted(ExitCode::MalformedRegex(_))
    ));
}

#[test]
fn parsed_patterns_match_case_insensitively() {
    let raw = to_string_vec(&["bare", "-f", "/z/SHOUT.txt", "-p", "shout", "quiet"]);
    let args = match Args::parse(&raw) {
        ParseOutcome::Parsed(args) => args,
        _ => panic!("expected a parsed configuration"),
    };
    let candidates = vec![Candidate { path: "/z/SHOUT.txt".to_string(), exists: true }];
    let (proposal, _) = propose_renames(&candidates, &args.patterns);
    assert_eq!(
        proposal.groups[0].renames[0].destination,
        "quiet.txt".to_string()
    );
}

#[test]
fn exit_statuses_are_stable() {
    assert_eq!(exit_status(&ExitCode::Success), 0);
    assert_eq!(exit_status(&ExitCode::MalformedPattern("p".to_string())), 1);
    assert_eq!(exit_status(&ExitCode::MalformedRegex("r".to_string())), 2);
    assert_eq!(
        exit_status(&ExitCode::MissingRequiredCliArgument("a".to_string())),
        3
    );
    assert_eq!(exit_status(&ExitCode::NotEnoughFiles), 4);
    assert_eq!(exit_status(&ExitCode::NotEnoughPatterns("p".to_string())), 5);
    assert_eq!(quit(), 0);
}

#[test]
fn exit_messages_name_the_reason() {
    assert_eq!(exit_message(&ExitCode::Success), None);
    assert_eq!(
        exit_message(&ExitCode::MalformedPattern("[\"a\"]".to_string())),
        Some("malformed pattern(s): [\"a\"]".to_string())
    );
    assert_eq!(
        exit_message(&ExitCode::MalformedRegex("oops".to_string())),
        Some("malformed regex: oops".to_string())
    );
    assert_eq!(
        exit_message(&ExitCode::MissingRequiredCliArgument("[\"-f\", \"--files\"]".to_string())),
        Some("Need to provide one of [\"-f\", \"--files\"]".to_string())
    );
    assert_eq!(
        exit_message(&ExitCode::NotEnoughFiles),
        Some("provide at least 1 file".to_string())
    );
    assert_eq!(
        exit_message(&ExitCode::NotEnoughPatterns("[]".to_string())),
        Some("not enough pattern(s) in []".to_string())
    );
}
