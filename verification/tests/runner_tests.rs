use mewt::engine::traits::LanguageEngine;
use mewt::languages::rust::engine::RustLanguageEngine;
use mewt::runner::{classify, severity_for, should_skip, Action, End, Stage, TestExit, TestRunner};
use mewt::store::SqlStore;
use mewt::types::mutant::Mutant;
use mewt::types::mutation::MutationSeverity;
use mewt::types::outcome::{Outcome, Status, Timestamp};
use mewt::types::target::Target;

const NOW: Timestamp = Timestamp { secs: 100, nanos: 5 };

fn target(store: &mut SqlStore, path: &str, text: &str) -> Target {
    let mut target = Target {
        id: 0,
        path: path.to_string(),
        file_hash: mewt::types::hash::Hash::digest(text.to_string()),
        text: text.to_string(),
        language: "Rust".to_string(),
    };
    target.id = store.add_target(target.clone()).unwrap();
    target
}

fn mutant(store: &mut SqlStore, target: &Target, byte_offset: u32, line_offset: u32, old: &str, new: &str, slug: &str) -> Mutant {
    let mut mutant = Mutant {
        id: 0,
        target_id: target.id,
        byte_offset,
        line_offset,
        old_text: old.to_string(),
        new_text: new.to_string(),
        mutation_slug: slug.to_string(),
    };
    mutant.id = store.add_mutant(mutant.clone()).unwrap().unwrap();
    mutant
}

fn record(store: &mut SqlStore, mutant: &Mutant, status: Status) {
    store.add_outcome(Outcome {
        mutant_id: mutant.id,
        status,
        output: String::new(),
        time: NOW,
        duration_ms: 1,
    });
}

#[test]
fn exits_are_classified() {
    assert_eq!(classify(TestExit::Passed), Status::Uncaught);
    assert_eq!(classify(TestExit::Failed), Status::TestFail);
    assert_eq!(classify(TestExit::TimedOut), Status::Timeout);
    assert_eq!(classify(TestExit::SpawnFailed), Status::BuildFail);
}

#[test]
fn severities_come_from_the_table() {
    let engine = RustLanguageEngine::new();
    let table = engine.get_mutations();
    assert_eq!(severity_for(table, "ER"), MutationSeverity::High);
    assert_eq!(severity_for(table, "CR"), MutationSeverity::Low);
    assert_eq!(severity_for(table, "RZ"), MutationSeverity::Medium);
    assert_eq!(severity_for(table, "??"), MutationSeverity::Low);
    assert_eq!(engine.get_severity_by_slug("IF"), Some(MutationSeverity::Medium));
    assert_eq!(engine.get_severity_by_slug("if"), None);
    assert_eq!(engine.get_all_slugs().len(), 17);
    assert_eq!(engine.get_all_slugs()[16], "RZ");
}

#[test]
fn a_milder_mutant_on_the_line_of_an_uncaught_one_is_skipped() {
    let engine = RustLanguageEngine::new();
    let table = engine.get_mutations();
    let mut store = SqlStore::new();
    let t = target(&mut store, "a.rs", "\n\n\n\n\n\n\nf(a + b);\n");
    let er = mutant(&mut store, &t, 7, 7, "f(a + b);", "assert!(false);", "ER");
    let cr = mutant(&mut store, &t, 7, 7, "f(a + b);", "/* f(a + b); */", "CR");
    let aos = mutant(&mut store, &t, 11, 7, "+", "-", "AOS");
    let other_line = mutant(&mut store, &t, 0, 0, "", "x", "CR");
    assert!(!should_skip(&store, table, &cr));
    record(&mut store, &er, Status::TestFail);
    assert!(!should_skip(&store, table, &cr));
    record(&mut store, &er, Status::Uncaught);
    assert!(should_skip(&store, table, &cr));
    assert!(should_skip(&store, table, &aos));
    assert!(!should_skip(&store, table, &er));
    assert!(!should_skip(&store, table, &other_line));
    // An uncaught mutant of the same severity skips nothing.
    record(&mut store, &er, Status::Timeout);
    record(&mut store, &cr, Status::Uncaught);
    assert!(!should_skip(&store, table, &aos));

    // The same line of another target does not count.
    let u = target(&mut store, "b.rs", "\n\n\n\n\n\n\ng();\n");
    let elsewhere = mutant(&mut store, &u, 7, 7, "g();", "/* g(); */", "CR");
    record(&mut store, &er, Status::Uncaught);
    assert!(!should_skip(&store, table, &elsewhere));
}

#[test]
fn a_skipped_mutant_is_recorded_without_a_test() {
    let engine = RustLanguageEngine::new();
    let table = engine.get_mutations();
    let mut store = SqlStore::new();
    let t = target(&mut store, "a.rs", "\n\n\n\n\n\n\nf(a + b);\n");
    let er = mutant(&mut store, &t, 7, 7, "f(a + b);", "assert!(false);", "ER");
    let cr = mutant(&mut store, &t, 7, 7, "f(a + b);", "/* f(a + b); */", "CR");
    record(&mut store, &er, Status::Uncaught);

    let mut runner = TestRunner::new("make".to_string(), Some(3), false);
    assert!(matches!(runner.begin(true), Action::RunBaseline { command } if command == "make"));
    assert!(matches!(runner.baseline_done(true), Action::Proceed));
    let action = runner.take_mutant(&mut store, table, &t, &cr, true, NOW);
    match action {
        Action::Record { outcome } => {
            assert_eq!(outcome.mutant_id, cr.id);
            assert_eq!(outcome.status, Status::Skipped);
            assert_eq!((outcome.time, outcome.duration_ms), (NOW, 0));
            assert!(outcome.output.is_empty());
        }
        other => panic!("{other:?}"),
    }
    assert_eq!(store.get_outcome(cr.id).unwrap().status, Status::Skipped);
    assert_eq!(runner.current_stage(), Stage::Recording { mutant_id: cr.id });
    assert!(matches!(runner.recorded(), Action::Proceed));
    assert!(matches!(runner.finish(), Action::Finish { end: End::Completed }));

    // A comprehensive runner tests it.
    let mut runner = TestRunner::new("make".to_string(), None, true);
    runner.begin(true);
    runner.baseline_done(true);
    let action = runner.take_mutant(&mut store, table, &t, &cr, true, NOW);
    assert!(matches!(action, Action::Write { .. }));
}

#[test]
fn a_mutant_is_written_tested_taken_back_and_recorded() {
    let engine = RustLanguageEngine::new();
    let table = engine.get_mutations();
    let mut store = SqlStore::new();
    let t = target(&mut store, "src/a.rs", "f(a + b);");
    let m = mutant(&mut store, &t, 4, 0, "+", "-", "AOS");
    let mut runner = TestRunner::new("cargo test".to_string(), Some(30), false);
    assert_eq!(runner.current_stage(), Stage::Idle);
    runner.begin(true);
    assert_eq!(runner.current_stage(), Stage::Baseline);
    runner.baseline_done(true);
    assert_eq!(runner.current_stage(), Stage::Between);

    match runner.take_mutant(&mut store, table, &t, &m, true, NOW) {
        Action::Write { path, text } => {
            assert_eq!(path, "src/a.rs");
            assert_eq!(text, "f(a - b);");
        }
        other => panic!("{other:?}"),
    }
    assert_eq!(runner.current_stage(), Stage::Writing { mutant_id: m.id });
    match runner.written(&t, true, NOW) {
        Action::RunTest { command, timeout } => {
            assert_eq!((command.as_str(), timeout), ("cargo test", Some(30)));
        }
        other => panic!("{other:?}"),
    }
    let later = Timestamp { secs: 200, nanos: 0 };
    match runner.tested(&t, TestExit::Passed, "ok".to_string(), later, 1500) {
        Action::Restore { path, text } => {
            assert_eq!((path.as_str(), text.as_str()), ("src/a.rs", "f(a + b);"));
        }
        other => panic!("{other:?}"),
    }
    assert_eq!(
        runner.current_stage(),
        Stage::Restoring { mutant_id: m.id, status: Status::Uncaught }
    );
    assert!(store.get_outcome(m.id).is_none());
    match runner.restored(&mut store, true) {
        Action::Record { outcome } => {
            assert_eq!((outcome.mutant_id, outcome.status), (m.id, Status::Uncaught));
            assert_eq!((outcome.output.as_str(), outcome.time, outcome.duration_ms), ("ok", later, 1500));
        }
        other => panic!("{other:?}"),
    }
    assert_eq!(store.get_outcome(m.id).unwrap().status, Status::Uncaught);
    assert!(matches!(runner.recorded(), Action::Proceed));
    assert_eq!(runner.current_stage(), Stage::Between);
}

#[test]
fn the_file_is_written_back_on_every_way_on() {
    let engine = RustLanguageEngine::new();
    let table = engine.get_mutations();
    let mut store = SqlStore::new();
    let t = target(&mut store, "a.rs", "a + b");
    let m = mutant(&mut store, &t, 2, 0, "+", "-", "AOS");

    // The write fails: the file is written back, and the outcome says so.
    let mut runner = TestRunner::new("t".to_string(), None, false);
    runner.begin(true);
    runner.baseline_done(true);
    runner.take_mutant(&mut store, table, &t, &m, true, NOW);
    assert!(matches!(runner.written(&t, false, NOW), Action::Restore { text, .. } if text == "a + b"));
    assert!(matches!(runner.restored(&mut store, true), Action::Record { outcome } if outcome.status == Status::BuildFail));

    // Between write and restore, nothing but the next step is taken.
    let mut runner = TestRunner::new("t".to_string(), None, false);
    runner.begin(true);
    runner.baseline_done(true);
    runner.take_mutant(&mut store, table, &t, &m, true, NOW);
    assert!(matches!(runner.finish(), Action::Refuse));
    assert!(matches!(runner.begin(true), Action::Refuse));
    assert!(matches!(runner.recorded(), Action::Refuse));
    assert!(matches!(runner.restored(&mut store, true), Action::Refuse));
    assert!(matches!(runner.take_mutant(&mut store, table, &t, &m, false, NOW), Action::Refuse));
    assert_eq!(runner.current_stage(), Stage::Writing { mutant_id: m.id });
    runner.written(&t, true, NOW);
    assert!(matches!(runner.finish(), Action::Refuse));
    assert!(matches!(
        runner.tested(&t, TestExit::TimedOut, String::new(), NOW, 9),
        Action::Restore { .. }
    ));
    assert!(matches!(runner.finish(), Action::Refuse));
    assert!(matches!(runner.tested(&t, TestExit::Passed, String::new(), NOW, 9), Action::Refuse));

    // A file that cannot be written back ends the group, and the end says so.
    assert!(matches!(
        runner.restored(&mut store, false),
        Action::Finish { end: End::RestoreFailed }
    ));
    assert_eq!(runner.current_stage(), Stage::Ended(End::RestoreFailed));
    assert!(matches!(runner.begin(true), Action::Refuse));
}

#[test]
fn a_run_stops_where_it_is_cancelled_or_the_baseline_fails() {
    let engine = RustLanguageEngine::new();
    let table = engine.get_mutations();
    let mut store = SqlStore::new();
    let t = target(&mut store, "a.rs", "a + b");
    let m = mutant(&mut store, &t, 2, 0, "+", "-", "AOS");

    let mut runner = TestRunner::new("t".to_string(), None, false);
    assert!(matches!(runner.begin(false), Action::Finish { end: End::Interrupted }));
    assert_eq!(runner.current_stage(), Stage::Ended(End::Interrupted));

    let mut runner = TestRunner::new("t".to_string(), None, false);
    runner.begin(true);
    assert!(matches!(runner.baseline_done(false), Action::Finish { end: End::BaselineFailed }));
    assert!(matches!(runner.take_mutant(&mut store, table, &t, &m, true, NOW), Action::Refuse));

    let mut runner = TestRunner::new("t".to_string(), None, false);
    runner.begin(true);
    runner.baseline_done(true);
    assert!(matches!(
        runner.take_mutant(&mut store, table, &t, &m, false, NOW),
        Action::Finish { end: End::Interrupted }
    ));
    assert!(store.get_outcome(m.id).is_none());
}

#[test]
fn a_mutant_that_cannot_be_applied_is_rejected() {
    let engine = RustLanguageEngine::new();
    let table = engine.get_mutations();
    let mut store = SqlStore::new();
    let t = target(&mut store, "a.rs", "é + b");
    let past_the_end = mutant(&mut store, &t, 5, 0, "bb", "c", "AOS");
    let in_a_character = mutant(&mut store, &t, 1, 0, "", "c", "AOS");
    let mut of_another = mutant(&mut store, &t, 0, 0, "é", "e", "AOS");
    of_another.target_id = t.id + 1;
    let mut runner = TestRunner::new("t".to_string(), None, false);
    runner.begin(true);
    runner.baseline_done(true);
    for m in [&past_the_end, &in_a_character, &of_another] {
        let action = runner.take_mutant(&mut store, table, &t, m, true, NOW);
        assert!(matches!(action, Action::Reject { mutant_id } if mutant_id == m.id));
        assert_eq!(runner.current_stage(), Stage::Between);
        assert!(store.get_outcome(m.id).is_none());
    }
}
