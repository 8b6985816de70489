use mewt::store::{decode_mutant, decode_outcome, decode_target, SqlStore, TargetPattern};
use mewt::types::error::StoreError;
use mewt::types::hash::HashError;
use mewt::types::mutant::Mutant;
use mewt::types::outcome::{Outcome, Status, Timestamp};
use mewt::types::target::Target;

fn target(path: &str, text: &str, language: &str) -> Target {
    Target {
        id: 0,
        path: path.to_string(),
        file_hash: mewt::types::hash::Hash::digest(text.to_string()),
        text: text.to_string(),
        language: language.to_string(),
    }
}

fn mutant(target_id: i64, byte_offset: u32, line_offset: u32, old: &str, new: &str, slug: &str) -> Mutant {
    Mutant {
        id: 0,
        target_id,
        byte_offset,
        line_offset,
        old_text: old.to_string(),
        new_text: new.to_string(),
        mutation_slug: slug.to_string(),
    }
}

fn outcome(mutant_id: i64, status: Status) -> Outcome {
    Outcome {
        mutant_id,
        status,
        output: format!("output of {mutant_id}"),
        time: Timestamp { secs: 1_700_000_000, nanos: 0 },
        duration_ms: 12,
    }
}

#[test]
fn a_moved_target_keeps_its_id_and_takes_the_new_path() {
    let mut store = SqlStore::new();
    let id = store.add_target(target("a/x", "fn f() {}", "Rust")).unwrap();
    assert_eq!(id, 1);
    let again = store.add_target(target("b/x", "fn f() {}", "Rust")).unwrap();
    assert_eq!(again, 1);
    assert_eq!(store.get_target(1).unwrap().path, "b/x");
    assert_eq!(store.get_all_targets().len(), 1);

    // Another text is another target, and the old row stays.
    let other = store.add_target(target("b/x", "fn g() {}", "Rust")).unwrap();
    assert_eq!(other, 2);
    assert_eq!(store.get_all_targets().len(), 2);

    // The same target at the same path changes nothing.
    assert_eq!(store.add_target(target("b/x", "fn g() {}", "Rust")).unwrap(), 2);
    assert_eq!(store.get_all_targets().len(), 2);
}

#[test]
fn a_mutant_is_added_once() {
    let mut store = SqlStore::new();
    let t = store.add_target(target("a.rs", "a + b", "Rust")).unwrap();
    let first = store.add_mutant(mutant(t, 2, 0, "+", "-", "AOS")).unwrap();
    assert_eq!(first, Some(1));
    let again = store.add_mutant(mutant(t, 2, 0, "+", "-", "AOS")).unwrap();
    assert_eq!(again, None);
    assert_eq!(store.get_mutants(t).len(), 1);

    // The line is no part of the key; each other part is.
    assert_eq!(store.add_mutant(mutant(t, 2, 5, "+", "-", "AOS")).unwrap(), None);
    assert_eq!(store.add_mutant(mutant(t, 2, 0, "+", "*", "AOS")).unwrap(), Some(2));
    assert_eq!(store.add_mutant(mutant(t, 3, 0, "+", "-", "AOS")).unwrap(), Some(3));
    assert_eq!(store.add_mutant(mutant(t, 2, 0, "+", "-", "XOS")).unwrap(), Some(4));
    assert_eq!(store.add_mutant(mutant(t, 2, 0, "+ ", "-", "AOS")).unwrap(), Some(5));
    assert_eq!(store.add_mutant(mutant(t + 1, 2, 0, "+", "-", "AOS")).unwrap(), Some(6));
    assert_eq!(store.get_mutants(t).len(), 5);
    assert_eq!(store.get_mutant(3).unwrap().byte_offset, 3);
}

#[test]
fn an_outcome_replaces_the_one_before() {
    let mut store = SqlStore::new();
    let t = store.add_target(target("a.rs", "a + b", "Rust")).unwrap();
    let m = store.add_mutant(mutant(t, 2, 0, "+", "-", "AOS")).unwrap().unwrap();
    assert!(store.get_outcome(m).is_none());
    assert_eq!(store.add_outcome(outcome(m, Status::Timeout)), m);
    assert_eq!(store.get_outcome(m).unwrap().status, Status::Timeout);
    assert_eq!(store.add_outcome(outcome(m, Status::TestFail)), m);
    assert_eq!(store.get_outcome(m).unwrap().status, Status::TestFail);
    assert_eq!(store.get_outcomes(t).len(), 1);
}

#[test]
fn rows_that_are_not_there_are_not_found() {
    let store = SqlStore::new();
    assert!(matches!(store.get_target(3), Err(StoreError::NotFound(3))));
    assert!(matches!(store.get_mutant(9), Err(StoreError::NotFound(9))));
    assert!(store.get_outcome(1).is_none());
}

fn campaign() -> SqlStore {
    let mut store = SqlStore::new();
    let a = store.add_target(target("src/a.rs", "a + b\nc - d\n", "Rust")).unwrap();
    let b = store.add_target(target("lib/b.sol", "x * y", "Solidity")).unwrap();
    // ids 1..=4 on a, 5..=6 on b
    store.add_mutant(mutant(a, 2, 0, "+", "-", "AOS")).unwrap();
    store.add_mutant(mutant(a, 0, 0, "a + b", "/* a + b */", "CR")).unwrap();
    store.add_mutant(mutant(a, 8, 1, "-", "+", "AOS")).unwrap();
    store.add_mutant(mutant(a, 0, 0, "a + b\nc - d", "assert!(false);", "ER")).unwrap();
    store.add_mutant(mutant(b, 2, 0, "*", "/", "AOS")).unwrap();
    store.add_mutant(mutant(b, 0, 0, "x * y", "require(false);", "ER")).unwrap();
    store.add_outcome(outcome(1, Status::TestFail));
    store.add_outcome(outcome(2, Status::Uncaught));
    store.add_outcome(outcome(3, Status::Timeout));
    store.add_outcome(outcome(5, Status::Skipped));
    store.add_outcome(outcome(6, Status::TestFail));
    store
}

fn ids(mutants: &[Mutant]) -> Vec<i64> {
    mutants.iter().map(|m| m.id).collect()
}

#[test]
fn what_is_to_be_tested() {
    let store = campaign();
    assert_eq!(ids(&store.get_mutants_without_outcomes()), vec![4]);
    let (all, untested, retest) = store.get_mutants_to_test();
    assert_eq!(ids(&all), vec![4, 3]);
    assert_eq!((untested, retest), (1, 1));
    assert_eq!(store.get_mutant_test_counts(1), (1, 1));
    assert_eq!(store.get_mutant_test_counts(2), (0, 0));
}

#[test]
fn counts_of_a_campaign() {
    let store = campaign();
    let summary = store.get_campaign_summary();
    assert_eq!(
        (summary.tested, summary.caught, summary.uncaught, summary.skipped),
        (3, 2, 1, 1)
    );
    let stats = store.get_target_stats(1);
    assert_eq!(stats.total_mutants, 4);
    assert_eq!((stats.tested, stats.caught, stats.uncaught), (2, 1, 1));
    assert_eq!((stats.timeout, stats.skipped, stats.build_fail, stats.untested), (1, 0, 0, 1));
    let tallies: Vec<(&str, usize, usize)> = stats
        .severity_stats
        .iter()
        .map(|t| (t.slug.as_str(), t.eligible, t.caught))
        .collect();
    assert_eq!(tallies, vec![("AOS", 1, 1), ("CR", 1, 0)]);
    let all = store.get_campaign_severity_stats();
    let tallies: Vec<(&str, usize, usize)> = all
        .severity_stats
        .iter()
        .map(|t| (t.slug.as_str(), t.eligible, t.caught))
        .collect();
    assert_eq!(tallies, vec![("AOS", 1, 1), ("CR", 1, 0), ("ER", 1, 1)]);
}

#[test]
fn mutants_are_listed_by_what_is_asked() {
    let store = campaign();
    let listed = |target: Option<&TargetPattern>, line, slug: Option<&str>, tested, untested| {
        store
            .get_mutants_filtered(target, line, slug, tested, untested)
            .iter()
            .map(|(m, t)| (m.id, t.id))
            .collect::<Vec<_>>()
    };
    assert_eq!(listed(None, None, None, false, false).len(), 6);
    assert_eq!(listed(None, None, None, true, true).len(), 6);
    assert_eq!(listed(None, None, None, false, true), vec![(4, 1)]);
    assert_eq!(listed(None, None, None, true, false).len(), 5);
    assert_eq!(listed(None, None, Some("ER"), false, false), vec![(4, 1), (6, 2)]);
    // Line 2 is touched by the mutant on it and by the one that spans both lines.
    assert_eq!(listed(None, Some(2), None, false, false), vec![(3, 1), (4, 1)]);
    assert_eq!(listed(None, Some(3), None, false, false), vec![]);
    let file = TargetPattern::File("lib/b.sol".to_string());
    assert_eq!(listed(Some(&file), None, None, false, false), vec![(5, 2), (6, 2)]);
    let dir = TargetPattern::Directory("src".to_string());
    assert_eq!(listed(Some(&dir), None, Some("CR"), false, false), vec![(2, 1)]);
    let not_a_prefix = TargetPattern::Directory("sr".to_string());
    assert_eq!(listed(Some(&not_a_prefix), None, None, false, false), vec![]);
    let paths = TargetPattern::Paths(vec!["lib/b.sol".to_string(), "gone.rs".to_string()]);
    assert_eq!(store.match_target_ids(Some(&paths)), Some(vec![2]));
    assert_eq!(store.match_target_ids(None), None);
    let none = TargetPattern::Paths(vec![]);
    assert_eq!(listed(Some(&none), None, None, false, false), vec![]);
}

#[test]
fn outcomes_are_listed_by_what_is_asked() {
    let store = campaign();
    let listed = |target: Option<&TargetPattern>, status: Option<&str>, language: Option<&str>, slug: Option<&str>, line| {
        store
            .get_outcomes_filtered(target, status, language, slug, line)
            .iter()
            .map(|(m, t, o)| (m.id, t.id, o.status))
            .collect::<Vec<_>>()
    };
    assert_eq!(listed(None, None, None, None, None).len(), 5);
    assert_eq!(
        listed(None, Some("TestFail"), None, None, None),
        vec![(1, 1, Status::TestFail), (6, 2, Status::TestFail)]
    );
    // The name of a status is matched as it is stored.
    assert_eq!(listed(None, Some("testfail"), None, None, None), vec![]);
    assert_eq!(listed(None, None, Some("Solidity"), None, None).len(), 2);
    assert_eq!(
        listed(None, None, Some("Rust"), Some("AOS"), Some(1)),
        vec![(1, 1, Status::TestFail)]
    );
}

#[test]
fn a_removed_target_takes_its_mutants_and_outcomes_along() {
    let mut store = campaign();
    store.remove_target(1);
    assert!(matches!(store.get_target(1), Err(StoreError::NotFound(1))));
    assert_eq!(store.get_all_targets().len(), 1);
    assert!(store.get_mutants(1).is_empty());
    assert!(store.get_outcome(1).is_none());
    assert_eq!(store.get_outcome(6).unwrap().status, Status::TestFail);
    assert_eq!(store.get_campaign_summary().caught, 1);
    // Ids are not given out again.
    assert_eq!(store.add_target(target("c.rs", "new", "Rust")).unwrap(), 3);
}

#[test]
fn stored_rows_are_read_back() {
    let hex = "ab".repeat(32);
    let t = decode_target(4, "p".into(), hex.clone(), "text".into(), "Rust".into()).unwrap();
    assert_eq!((t.id, t.file_hash.to_hex()), (4, hex));
    assert!(matches!(
        decode_target(4, "p".into(), "zz".into(), "t".into(), "Rust".into()),
        Err(StoreError::InvalidHash(HashError::InvalidHex(text))) if text == "zz"
    ));
    assert!(matches!(
        decode_target(4, "p".into(), "abcd".into(), "t".into(), "Rust".into()),
        Err(StoreError::InvalidHash(HashError::InvalidLength(2)))
    ));

    let m = decode_mutant(1, 2, 3, (1i64 << 32) + 4, "a".into(), "b".into(), "ER".into());
    assert_eq!((m.byte_offset, m.line_offset), (3, 4));

    let o = decode_outcome(1, "uncaught", "out".into(), "2024-05-06T07:08:09.5+02:00", 77).unwrap();
    assert_eq!(o.status, Status::Uncaught);
    assert_eq!(o.time, Timestamp { secs: 1714972089, nanos: 500_000_000 });
    assert_eq!(o.duration_ms, 77);
    assert!(matches!(
        decode_outcome(1, "Caught", "".into(), "2024-05-06T07:08:09Z", 0),
        Err(StoreError::InvalidStatus(text)) if text == "Caught"
    ));
    assert!(matches!(
        decode_outcome(1, "Skipped", "".into(), "yesterday", 0),
        Err(StoreError::InvalidTime(text)) if text == "yesterday"
    ));
}

#[test]
fn rows_come_back_under_their_ids() {
    let mut store = SqlStore::new();
    let mut t = target("a.rs", "a", "Rust");
    t.id = 5;
    assert!(store.insert_target_row(t));
    let mut same_hash = target("b.rs", "a", "Rust");
    same_hash.id = 6;
    assert!(!store.insert_target_row(same_hash));
    let mut same_id = target("b.rs", "b", "Rust");
    same_id.id = 5;
    assert!(!store.insert_target_row(same_id));
    assert!(!store.insert_target_row(target("c.rs", "c", "Rust")));
    let mut m = mutant(5, 0, 0, "a", "b", "ER");
    m.id = 9;
    assert!(store.insert_mutant_row(m));
    let mut clash = mutant(5, 0, 0, "a", "b", "ER");
    clash.id = 10;
    assert!(!store.insert_mutant_row(clash));
    // New rows go on from the highest id.
    assert_eq!(store.add_target(target("d.rs", "d", "Rust")).unwrap(), 6);
    assert_eq!(store.add_mutant(mutant(5, 1, 0, "a", "b", "ER")).unwrap(), Some(10));
}
