//! Tests of the confirmation reading and the execution controller.

use bare::Candidate;
use bare::Confirmation;
use bare::Executor;
use bare::Pattern;
use bare::Phase;
use bare::classify_answer;
use bare::propose_renames;

fn pattern(regex: &str, replacement: &str) -> Pattern {
    Pattern::new(regex, replacement).unwrap()
}

fn candidate(path: &str, exists: bool) -> Candidate {
    Candidate { path: path.to_string(), exists }
}

#[test]
fn classify_answer_confirms_yes_case_insensitively() {
    assert_eq!(classify_answer("y\n"), Confirmation::Confirmed);
    assert_eq!(classify_answer("Y\n"), Confirmation::Confirmed);
    assert_eq!(classify_answer("yes\n"), Confirmation::Confirmed);
    assert_eq!(classify_answer("YES\n"), Confirmation::Confirmed);
    assert_eq!(classify_answer("Yes\n"), Confirmation::Confirmed);
    assert_eq!(classify_answer("  y  \n"), Confirmation::Confirmed);
}

#[test]
fn classify_answer_declines_no_and_empty() {
    assert_eq!(classify_answer("n\n"), Confirmation::Declined);
    assert_eq!(classify_answer("N\n"), Confirmation::Declined);
    assert_eq!(classify_answer("no\n"), Confirmation::Declined);
    assert_eq!(classify_answer("NO\n"), Confirmation::Declined);
    assert_eq!(classify_answer("\n"), Confirmation::Declined);
    assert_eq!(classify_answer(""), Confirmation::Declined);
    assert_eq!(classify_answer("   "), Confirmation::Declined);
}

#[test]
fn classify_answer_rejects_anything_else() {
    assert_eq!(classify_answer("maybe\n"), Confirmation::Unrecognized);
    assert_eq!(classify_answer("yess\n"), Confirmation::Unrecognized);
    assert_eq!(classify_answer("nope\n"), Confirmation::Unrecognized);
    assert_eq!(classify_answer("j\n"), Confirmation::Unrecognized);
}

fn three_rename_executor(dry_run: bool) -> Executor {
    let candidates = vec![
        candidate("/x/a-1.txt", true),
        candidate("/x/b-2.txt", true),
        candidate("/y/c-3.txt", true),
    ];
    let pats = vec![pattern(r"-", "_")];
    let (proposal, _) = propose_renames(&candidates, &pats);
    Executor::new(&proposal, dry_run)
}

#[test]
fn failure_at_one_rename_does_not_stop_the_rest() {
    let mut ex = three_rename_executor(false);
    assert_eq!(ex.op_count(), 3);
    ex.decide(Confirmation::Confirmed);
    assert_eq!(ex.phase(), Phase::Confirmed);
    let mut attempted: Vec<String> = vec![];
    let mut k: usize = 0;
    while let Some(op) = ex.current_op() {
        attempted.push(op.source.clone());
        if k == 1 {
            ex.record(Some("permission denied".to_string()));
        } else {
            ex.record(None);
        }
        k += 1;
    }
    assert_eq!(ex.phase(), Phase::Applied);
    assert_eq!(
        attempted,
        vec!["a-1.txt".to_string(), "b-2.txt".to_string(), "c-3.txt".to_string()]
    );
    let report = ex.report();
    assert_eq!(report.records.len(), 3);
    assert_eq!(report.records[0].error, None);
    assert_eq!(
        report.records[1].error,
        Some("permission denied".to_string())
    );
    assert_eq!(report.records[2].error, None);
    assert_eq!(report.records[1].op.source, "b-2.txt".to_string());
    assert_eq!(report.records[1].op.destination, "b_2.txt".to_string());
    assert_eq!(report.records[1].op.parent, "/x/".to_string());
}

#[test]
fn dry_run_hands_out_no_rename() {
    let mut ex = three_rename_executor(true);
    ex.decide(Confirmation::Confirmed);
    assert_eq!(ex.phase(), Phase::Aborted);
    assert!(ex.current_op().is_none());
    assert_eq!(ex.report().records.len(), 0);
}

#[test]
fn declined_answer_hands_out_no_rename() {
    let mut ex = three_rename_executor(false);
    ex.decide(Confirmation::Declined);
    assert_eq!(ex.phase(), Phase::Aborted);
    assert!(ex.current_op().is_none());
    assert_eq!(ex.report().records.len(), 0);
}

#[test]
fn unrecognized_answer_hands_out_no_rename() {
    let mut ex = three_rename_executor(false);
    ex.decide(Confirmation::Unrecognized);
    assert_eq!(ex.phase(), Phase::Aborted);
    assert!(ex.current_op().is_none());
    assert_eq!(ex.report().records.len(), 0);
}

#[test]
fn noop_renames_are_never_issued() {
    let candidates = vec![candidate("/x/same.txt", true)];
    let pats = vec![pattern(r"UNMATCHED", "x")];
    let (proposal, _) = propose_renames(&candidates, &pats);
    // The no-op rename is surfaced in the proposal ...
    assert_eq!(proposal.groups[0].renames.len(), 1);
    assert!(proposal.groups[0].renames[0].is_noop());
    // ... but never planned as an operation.
    let mut ex = Executor::new(&proposal, false);
    assert_eq!(ex.op_count(), 0);
    ex.decide(Confirmation::Confirmed);
    assert_eq!(ex.phase(), Phase::Applied);
    assert!(ex.current_op().is_none());
    assert_eq!(ex.report().records.len(), 0);
}
