//! Tests of the proposal builder.

use bare::Candidate;
use bare::Pattern;
use bare::propose_renames;

fn pattern(regex: &str, replacement: &str) -> Pattern {
    Pattern::new(regex, replacement).unwrap()
}

fn patterns() -> Vec<Pattern> {
    vec![
        pattern(r"shoo", "boo"),
        pattern(r"(-)bar", "_coconut"),
        pattern(r"\(grault\)", "grault"),
        pattern(r"_", "."),
    ]
}

fn candidate(path: &str, exists: bool) -> Candidate {
    Candidate { path: path.to_string(), exists }
}

#[test]
fn propose_renames_nonexisting_file() {
    let candidates = vec![
        candidate("/tmp/bare_test/shooshoo.bar", false),
        candidate("/tmp/bare_test/foo-bar.qux", false),
        candidate("/tmp/bare_test/_(grault).qux", false),
    ];
    let pats = vec![pattern(r"UNMATCHED_PATTERN", "PAT")];
    let (proposal, files_not_found) = propose_renames(&candidates, &pats);
    assert!(proposal.groups.is_empty());
    assert_eq!(
        files_not_found,
        vec![
            "/tmp/bare_test/shooshoo.bar".to_string(),
            "/tmp/bare_test/foo-bar.qux".to_string(),
            "/tmp/bare_test/_(grault).qux".to_string(),
        ]
    );
}

#[test]
fn propose_renames_substitutes_each_pattern_in_order() {
    let candidates = vec![
        candidate("/tmp/bare_test/foo-bar.qux", true),
        candidate("/tmp/bare_test/_(grault).qux", true),
    ];
    let (proposal, files_not_found) = propose_renames(&candidates, &patterns());
    assert!(files_not_found.is_empty());
    assert_eq!(proposal.groups.len(), 1);
    let group = &proposal.groups[0];
    assert_eq!(group.parent, "/tmp/bare_test/".to_string());
    assert_eq!(group.renames.len(), 2);
    assert_eq!(group.renames[0].source, "foo-bar.qux".to_string());
    assert_eq!(group.renames[0].destination, "foo.coconut.qux".to_string());
    assert_eq!(group.renames[1].source, "_(grault).qux".to_string());
    assert_eq!(group.renames[1].destination, ".grault.qux".to_string());
}

#[test]
fn propose_renames_substitutes_first_occurrence_only() {
    // Only the first of the two `shoo` occurrences may be substituted:
    // one substitution per pattern, not a replace-all.
    let candidates = vec![candidate("/tmp/bare_test/shooshoo.bar", true)];
    let (proposal, files_not_found) = propose_renames(&candidates, &patterns());
    assert!(files_not_found.is_empty());
    assert_eq!(proposal.groups.len(), 1);
    let group = &proposal.groups[0];
    assert_eq!(group.renames.len(), 1);
    assert_eq!(group.renames[0].source, "shooshoo.bar".to_string());
    assert_eq!(group.renames[0].destination, "booshoo.bar".to_string());
}

#[test]
fn propose_renames_flags_unmatched_name_as_noop() {
    let candidates = vec![candidate("/tmp/bare_test/untouched.txt", true)];
    let pats = vec![pattern(r"UNMATCHED_PATTERN", "PAT")];
    let (proposal, files_not_found) = propose_renames(&candidates, &pats);
    assert!(files_not_found.is_empty());
    let group = &proposal.groups[0];
    assert_eq!(group.renames[0].source, "untouched.txt".to_string());
    assert_eq!(group.renames[0].destination, "untouched.txt".to_string());
    assert!(group.renames[0].is_noop());
}

#[test]
fn propose_renames_mixes_missing_and_present() {
    let candidates = vec![
        candidate("/a/one.txt", true),
        candidate("/a/gone.txt", false),
        candidate("/b/two.txt", true),
    ];
    let pats = vec![pattern(r"one", "eins"), pattern(r"two", "zwei")];
    let (proposal, files_not_found) = propose_renames(&candidates, &pats);
    assert_eq!(files_not_found, vec!["/a/gone.txt".to_string()]);
    assert_eq!(proposal.groups.len(), 2);
    assert_eq!(proposal.groups[0].parent, "/a/".to_string());
    assert_eq!(proposal.groups[0].renames.len(), 1);
    assert_eq!(proposal.groups[0].renames[0].destination, "eins.txt".to_string());
    assert_eq!(proposal.groups[1].parent, "/b/".to_string());
    assert_eq!(proposal.groups[1].renames.len(), 1);
    assert_eq!(proposal.groups[1].renames[0].destination, "zwei.txt".to_string());
}

#[test]
fn propose_renames_groups_same_directory_in_supply_order() {
    let candidates = vec![
        candidate("/d/a.txt", true),
        candidate("/e/b.txt", true),
        candidate("/d/c.txt", true),
    ];
    let pats = vec![pattern(r"txt", "dat")];
    let (proposal, _) = propose_renames(&candidates, &pats);
    assert_eq!(proposal.groups.len(), 2);
    assert_eq!(proposal.groups[0].parent, "/d/".to_string());
    assert_eq!(proposal.groups[0].renames.len(), 2);
    assert_eq!(proposal.groups[0].renames[0].source, "a.txt".to_string());
    assert_eq!(proposal.groups[0].renames[1].source, "c.txt".to_string());
    assert_eq!(proposal.groups[1].parent, "/e/".to_string());
    assert_eq!(proposal.groups[1].renames[0].source, "b.txt".to_string());
}

#[test]
fn propose_renames_is_deterministic() {
    let candidates = vec![
        candidate("/tmp/bare_test/foo-bar.qux", true),
        candidate("/tmp/bare_test/missing.qux", false),
    ];
    let (p1, m1) = propose_renames(&candidates, &patterns());
    let (p2, m2) = propose_renames(&candidates, &patterns());
    assert_eq!(m1, m2);
    assert_eq!(p1.groups.len(), p2.groups.len());
    for (g1, g2) in p1.groups.iter().zip(p2.groups.iter()) {
        assert_eq!(g1.parent, g2.parent);
        assert_eq!(g1.renames.len(), g2.renames.len());
        for (r1, r2) in g1.renames.iter().zip(g2.renames.iter()) {
            assert_eq!(r1.source, r2.source);
            assert_eq!(r1.destination, r2.destination);
        }
    }
}

#[test]
fn propose_renames_handles_name_without_directory() {
    let candidates = vec![candidate("plain.txt", true)];
    let pats = vec![pattern(r"plain", "fancy")];
    let (proposal, _) = propose_renames(&candidates, &pats);
    assert_eq!(proposal.groups.len(), 1);
    assert_eq!(proposal.groups[0].parent, "".to_string());
    assert_eq!(proposal.groups[0].renames[0].destination, "fancy.txt".to_string());
}

#[test]
fn pattern_capture_groups_expand_in_replacement() {
    let candidates = vec![candidate("/x/photo-2024.jpg", true)];
    let pats = vec![pattern(r"photo-([0-9]+)", "img_$1")];
    let (proposal, _) = propose_renames(&candidates, &pats);
    assert_eq!(proposal.groups[0].renames[0].destination, "img_2024.jpg".to_string());
}
