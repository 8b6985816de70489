use mewt::cli::{Args, Commands, PrintArgs, PrintMutantArgs, PrintMutantsArgs, PrintTargetsArgs, ResultsArgs, RunArgs, TestArgs};
use mewt::cmds::load::{load_targets, LoadError, SourceFile};
use mewt::cmds::mutate::{execute_mutate, save_mutants};
use mewt::cmds::print::{execute_print, file_status, mutants_data, FileState, MutantsFilters, PrintCommand, PrintError};
use mewt::cmds::results::{count_outcomes, get_results_data, normalize_status, sarif_report, sort_by_offset, OutcomeCounter, ResultsFilters};
use mewt::cmds::run::{plan_run, plan_test, resolve_mutants};
use mewt::cmds::status::{compute_severity_counts, generate_status_report};
use mewt::cmds::test::{group_by_command, read_mutant_ids, IdsError, Resolved};
use mewt::engine::traits::LanguageEngine;
use mewt::languages::javascript::engine::JavaScriptLanguageEngine;
use mewt::languages::rust::engine::RustLanguageEngine;
use mewt::languages::solidity::engine::SolidityLanguageEngine;
use mewt::main_shared::{cli_overrides, connection_string, exit_code, results_filters, run_targets};
use mewt::registry::{Engine, LanguageRegistry};
use mewt::store::{SqlStore, TargetPattern};
use mewt::types::config::{Config, ConfigError, PerTargetTestRule, TargetsConfig, TestConfig};
use mewt::types::error::StoreError;
use mewt::types::mutant::Mutant;
use mewt::types::outcome::{Outcome, Status, Timestamp};
use mewt::types::stats::SlugTally;
use mewt::types::target::{GenerateError, Target};

fn registry() -> LanguageRegistry {
    let mut registry = LanguageRegistry::new();
    registry.register(Engine::JavaScript(JavaScriptLanguageEngine::new()));
    registry.register(Engine::Rust(RustLanguageEngine::new()));
    registry.register(Engine::Solidity(SolidityLanguageEngine::new()));
    registry
}

fn target(path: &str, text: &str, language: &str) -> Target {
    Target {
        id: 0,
        path: path.to_string(),
        file_hash: mewt::types::hash::Hash::digest(text.to_string()),
        text: text.to_string(),
        language: language.to_string(),
    }
}

fn mutant(target_id: i64, byte_offset: u32, line_offset: u32, old: &str, new: &str, slug: &str) -> Mutant {
    Mutant {
        id: 0,
        target_id,
        byte_offset,
        line_offset,
        old_text: old.to_string(),
        new_text: new.to_string(),
        mutation_slug: slug.to_string(),
    }
}

fn outcome(mutant_id: i64, status: Status) -> Outcome {
    Outcome {
        mutant_id,
        status,
        output: String::new(),
        time: Timestamp { secs: 1, nanos: 0 },
        duration_ms: 3,
    }
}

#[test]
fn the_registry_finds_rulebooks_by_name_and_extension() {
    let registry = registry();
    assert_eq!(registry.all_languages(), vec!["JavaScript", "Rust", "Solidity"]);
    assert_eq!(registry.get_engine("rust").unwrap().name(), "Rust");
    assert_eq!(registry.get_engine("SOLIDITY").unwrap().name(), "Solidity");
    assert!(registry.get_engine("Tolk").is_none());
    assert!(registry.get_engine("Rus").is_none());
    assert_eq!(registry.language_from_path("a/b/c.TSX").unwrap().name(), "JavaScript");
    assert_eq!(registry.language_from_path("x.rs").unwrap().name(), "Rust");
    assert!(registry.language_from_path("x.tolk").is_none());
    assert!(registry.language_from_path("Makefile").is_none());
    assert!(registry.language_from_path("rs").is_none());
    assert_eq!(registry.get_engine("Rust").unwrap().extensions(), vec!["rs"]);
    assert!(registry.parse("Go", "package main").is_none());
    assert!(registry.parse("javascript", "let x = 1;").is_some());
    assert!(LanguageRegistry::default().all_languages().is_empty());
}

#[test]
fn mutants_are_made_for_the_slugs_that_are_asked_for() {
    let registry = registry();
    let t = target("a.rs", "fn f() { if a { g(1, 2); } }", "rust");
    let all = t.generate_mutants(&registry, None).unwrap();
    assert!(all.iter().any(|m| m.mutation_slug == "ER"));
    assert!(all.iter().any(|m| m.mutation_slug == "AS"));
    let slugs = vec!["AS".to_string(), "IT".to_string()];
    let some = t.generate_mutants(&registry, Some(&slugs)).unwrap();
    let found: Vec<&str> = some.iter().map(|m| m.mutation_slug.as_str()).collect();
    assert_eq!(found, vec!["IT", "AS"]);
    assert!(t.generate_mutants(&registry, Some(&[])).unwrap().is_empty());
    let unknown = target("a.go", "package main", "Go");
    match unknown.generate_mutants(&registry, None) {
        Err(error @ GenerateError::NoEngine(_)) => {
            assert_eq!(error.to_string(), "No engine found for language: Go");
        }
        other => panic!("{other:?}"),
    }
}

#[test]
fn files_become_targets_by_extension_unless_ignored() {
    let registry = registry();
    let mut store = SqlStore::new();
    let files = vec![
        SourceFile { path: "src/a.rs".to_string(), text: "fn a() {}".to_string() },
        SourceFile { path: "src/gen/b.rs".to_string(), text: "fn b() {}".to_string() },
        SourceFile { path: "README.md".to_string(), text: "# readme".to_string() },
        SourceFile { path: "web/c.ts".to_string(), text: "let c = 1;".to_string() },
    ];
    let ignore = vec!["gen".to_string()];
    let targets = load_targets(files.clone(), &ignore, &mut store, &registry).unwrap();
    let found: Vec<(i64, &str, &str)> = targets
        .iter()
        .map(|t| (t.id, t.path.as_str(), t.language.as_str()))
        .collect();
    assert_eq!(found, vec![(1, "src/a.rs", "Rust"), (2, "web/c.ts", "JavaScript")]);
    assert_eq!(targets[0].file_hash, mewt::types::hash::Hash::digest("fn a() {}".to_string()));
    assert_eq!(store.get_all_targets().len(), 2);
    // Taken in again, the targets keep their ids.
    let again = load_targets(files, &[], &mut store, &registry).unwrap();
    let ids: Vec<i64> = again.iter().map(|t| t.id).collect();
    assert_eq!(ids, vec![1, 3, 2]);

    let none = vec![SourceFile { path: "README.md".to_string(), text: String::new() }];
    assert!(matches!(load_targets(none, &[], &mut store, &registry), Err(LoadError::NoTargets)));
    assert!(matches!(load_targets(vec![], &[], &mut store, &registry), Err(LoadError::NoTargets)));
    assert!(Target::from_file("a.py".into(), "x".into(), &registry).is_none());
    assert_eq!(Target::from_file("a.SOL".into(), "x".into(), &registry).unwrap().language, "Solidity");
}

#[test]
fn mutants_are_saved_once() {
    let registry = registry();
    let mut store = SqlStore::new();
    let mut t = target("a.rs", "fn f() { g(a + b); }", "Rust");
    t.id = store.add_target(t.clone()).unwrap();
    let mut unknown = target("a.go", "package main", "Go");
    unknown.id = store.add_target(unknown.clone()).unwrap();
    let targets = vec![t.clone(), unknown];
    let (summary, saved) = execute_mutate(&mut store, &registry, &targets, None);
    assert!(summary.generated > 0);
    assert_eq!(summary.saved, summary.generated);
    assert_eq!(summary.failed_targets, 1);
    assert_eq!(saved.len(), summary.saved);
    let ids: Vec<i64> = saved.iter().map(|m| m.id).collect();
    assert_eq!(ids, (1..=saved.len() as i64).collect::<Vec<_>>());
    assert_eq!(store.get_mutants(t.id).len(), summary.saved);
    let (again, saved) = execute_mutate(&mut store, &registry, &targets, None);
    assert_eq!((again.generated, again.saved), (summary.generated, 0));
    assert!(saved.is_empty());
    assert_eq!(store.get_mutants(t.id).len(), summary.saved);
}

#[test]
fn ids_are_read_from_the_file_before_the_list() {
    let args = |ids: Option<&str>, file: Option<&str>| TestArgs {
        ids: ids.map(str::to_string),
        ids_file: file.map(str::to_string),
        test_cmd: None,
        test_timeout: None,
        verbose: false,
    };
    let (ids, others) = read_mutant_ids(&args(Some("3,4 x"), None), None).unwrap();
    assert_eq!((ids, others), (vec![3, 4], vec!["x".to_string()]));
    let (ids, _) = read_mutant_ids(&args(Some("3,4"), Some("ids.txt")), Some("7\n8\n")).unwrap();
    assert_eq!(ids, vec![7, 8]);
    assert_eq!(read_mutant_ids(&args(None, None), None).err(), Some(IdsError::Missing));
    assert_eq!(read_mutant_ids(&args(Some("1"), Some("f")), None).err(), Some(IdsError::Missing));
}

#[test]
fn mutants_share_a_baseline_by_command_and_deadline() {
    let entry = |mutant_id, command: Option<&str>, timeout| Resolved {
        mutant_id,
        command: command.map(str::to_string),
        timeout,
    };
    let groups = group_by_command(&vec![
        entry(1, Some("a"), None),
        entry(2, Some("b"), Some(1)),
        entry(3, None, Some(1)),
        entry(4, Some("a"), None),
        entry(5, Some("a"), Some(1)),
        entry(6, Some("b"), Some(1)),
    ]);
    let found: Vec<(&str, Option<u32>, Vec<i64>)> = groups
        .iter()
        .map(|g| (g.command.as_str(), g.timeout, g.mutant_ids.clone()))
        .collect();
    assert_eq!(
        found,
        vec![("a", None, vec![1, 4]), ("b", Some(1), vec![2, 6]), ("a", Some(1), vec![5])]
    );
    assert!(group_by_command(&vec![]).is_empty());
}

fn campaign() -> SqlStore {
    let mut store = SqlStore::new();
    let a = store.add_target(target("src/a.rs", "a + b\nc - d\n", "Rust")).unwrap();
    let b = store.add_target(target("lib/b.sol", "x * y", "Solidity")).unwrap();
    store.add_mutant(mutant(a, 8, 1, "-", "+", "AOS")).unwrap();
    store.add_mutant(mutant(a, 2, 0, "+", "-", "AOS")).unwrap();
    store.add_mutant(mutant(a, 0, 0, "a + b", "/* a + b */", "CR")).unwrap();
    store.add_mutant(mutant(a, 0, 0, "a + b\nc - d", "assert!(false);", "ER")).unwrap();
    store.add_mutant(mutant(b, 2, 0, "*", "/", "AOS")).unwrap();
    store.add_mutant(mutant(b + 5, 2, 0, "*", "/", "AOS")).unwrap();
    store.add_outcome(outcome(1, Status::Timeout));
    store.add_outcome(outcome(2, Status::TestFail));
    store.add_outcome(outcome(3, Status::Uncaught));
    store
}

#[test]
fn a_run_is_planned_by_the_rules_of_the_configuration() {
    let store = campaign();
    let test = TestConfig {
        cmd: Some("make".to_string()),
        timeout: None,
        per_target: Some(vec![PerTargetTestRule {
            glob: "**/*.sol".to_string(),
            cmd: Some("forge test".to_string()),
            timeout: Some(20),
        }]),
    };
    let plan = plan_run(&store, &test, None, None);
    assert_eq!((plan.untested, plan.retest), (3, 1));
    let found: Vec<(&str, Option<u32>, Vec<i64>)> = plan
        .groups
        .iter()
        .map(|g| (g.command.as_str(), g.timeout, g.mutant_ids.clone()))
        .collect();
    // The mutant without a target is in no group.
    assert_eq!(found, vec![("make", None, vec![4, 1]), ("forge test", Some(20), vec![5])]);
    let plan = plan_run(&store, &test, Some("npm test"), Some(2));
    assert_eq!(plan.groups.len(), 1);
    assert_eq!(plan.groups[0].mutant_ids, vec![4, 5, 1]);
    assert_eq!(plan.groups[0].timeout, Some(2));
    let plan = plan_run(&store, &TestConfig::default(), None, None);
    assert!(plan.groups.is_empty());

    let (groups, missing) = plan_test(&store, &test, &vec![5, 99, 2], None, None);
    assert_eq!(missing, vec![99]);
    assert_eq!(groups.len(), 2);
    assert_eq!(groups[0].mutant_ids, vec![5]);
    let mutants = vec![store.get_mutant(6).unwrap(), store.get_mutant(2).unwrap()];
    let resolved = resolve_mutants(&store, &test, &mutants, None, Some(9));
    assert_eq!(resolved.len(), 1);
    assert_eq!((resolved[0].mutant_id, resolved[0].timeout), (2, Some(9)));
}

fn filters() -> ResultsFilters {
    ResultsFilters {
        target: None,
        verbose: false,
        id: None,
        all: false,
        status: None,
        language: None,
        mutation_type: None,
        line: None,
        file: None,
        format: "table".to_string(),
    }
}

#[test]
fn results_are_picked_target_by_target_or_by_what_they_are() {
    let store = campaign();
    let targets = store.get_all_targets();
    let shown = |filters: &ResultsFilters| {
        get_results_data(&store, filters, None, &targets)
            .unwrap()
            .iter()
            .map(|(m, t, o)| (m.id, t.id, o.status))
            .collect::<Vec<_>>()
    };
    assert_eq!(shown(&filters()), vec![(3, 1, Status::Uncaught)]);
    // In the order of the offsets, the earlier mutant first where two start together.
    let all = ResultsFilters { all: true, ..filters() };
    assert_eq!(
        shown(&all),
        vec![(3, 1, Status::Uncaught), (2, 1, Status::TestFail), (1, 1, Status::Timeout)]
    );
    let verbose = ResultsFilters { verbose: true, ..filters() };
    assert_eq!(shown(&verbose).len(), 3);
    let by_id = ResultsFilters { id: Some(2), ..filters() };
    assert_eq!(shown(&by_id), vec![(2, 1, Status::TestFail)]);
    assert_eq!(shown(&ResultsFilters { id: Some(4), ..filters() }), vec![]);
    assert_eq!(shown(&ResultsFilters { id: Some(77), ..filters() }), vec![]);
    let orphan = ResultsFilters { id: Some(6), ..filters() };
    assert!(matches!(
        get_results_data(&store, &orphan, None, &targets),
        Err(StoreError::NotFound(7))
    ));
    let by_status = ResultsFilters { status: Some("TIMEOUT".to_string()), ..filters() };
    assert_eq!(shown(&by_status), vec![(1, 1, Status::Timeout)]);
    let by_file = ResultsFilters { file: Some("lib".to_string()), ..filters() };
    assert_eq!(shown(&by_file), vec![]);
    let by_file = ResultsFilters { file: Some("a.r".to_string()), line: Some(1), ..filters() };
    assert_eq!(shown(&by_file).len(), 2);
    let pattern = TargetPattern::File("lib/b.sol".to_string());
    let in_target = ResultsFilters { language: Some("Rust".to_string()), ..filters() };
    assert!(get_results_data(&store, &in_target, Some(&pattern), &targets).unwrap().is_empty());
    assert_eq!(normalize_status(Some("skipped".to_string())), Some("Skipped".to_string()));
    assert_eq!(normalize_status(Some("none".to_string())), None);
    assert_eq!(normalize_status(None), None);
    let sorted = sort_by_offset(store.get_mutants(1));
    let order: Vec<i64> = sorted.iter().map(|m| m.id).collect();
    assert_eq!(order, vec![3, 4, 2, 1]);
}

#[test]
fn a_sarif_report_has_one_run_of_warnings_for_what_was_not_caught() {
    let store = campaign();
    let targets = store.get_all_targets();
    let data = get_results_data(&store, &ResultsFilters { all: true, ..filters() }, None, &targets).unwrap();
    assert_eq!(data.len(), 3);
    let report = sarif_report(&data, "1.2.3");
    assert_eq!(report.version, "2.1.0");
    assert_eq!(report.schema, "https://json.schemastore.org/sarif-2.1.0.json");
    assert_eq!(report.runs.len(), 1);
    assert_eq!(report.runs[0].tool_name, "mewt");
    assert_eq!(report.runs[0].tool_version, "1.2.3");
    assert_eq!(report.runs[0].results.len(), 1);
    let result = &report.runs[0].results[0];
    assert_eq!(result.rule_id, "CR");
    assert_eq!(result.level, "warning");
    assert_eq!(result.message, "Uncaught mutant: 'a + b' -> '/* a + b */'");
    assert_eq!(result.uri, "src/a.rs");
    assert_eq!(result.start_line, 1);
    assert!(sarif_report(&vec![], "0").runs[0].results.is_empty());
}

#[test]
fn outcomes_are_counted_for_catch_rates() {
    let mut counter = OutcomeCounter::new();
    for status in [Status::TestFail, Status::Uncaught, Status::Skipped, Status::Timeout, Status::BuildFail, Status::TestFail] {
        counter.record(&status);
    }
    assert_eq!((counter.eligible, counter.caught), (3, 2));
    let mut full = OutcomeCounter { eligible: u32::MAX, caught: u32::MAX - 1 };
    full.record(&Status::TestFail);
    assert_eq!((full.eligible, full.caught), (u32::MAX, u32::MAX));

    let tally = |slug: &str, eligible, caught| SlugTally { slug: slug.to_string(), eligible, caught };
    let tallies = vec![tally("ER", 4, 1), tally("CR", 2, 2), tally("IF", 3, 0), tally("AOS", 5, 5), tally("??", 9, 9)];
    let rust = RustLanguageEngine::new();
    let counts = compute_severity_counts(&tallies, &vec![rust.get_mutations()]);
    assert_eq!((counts.high.eligible, counts.high.caught), (4, 1));
    assert_eq!((counts.medium.eligible, counts.medium.caught), (3, 0));
    assert_eq!((counts.low.eligible, counts.low.caught), (7, 7));
    let none = compute_severity_counts(&tallies, &vec![]);
    assert_eq!((none.high.eligible, none.low.eligible), (0, 0));
}

#[test]
fn the_status_report_sums_the_targets() {
    let store = campaign();
    let report = generate_status_report(&store, &registry());
    assert_eq!(report.targets.len(), 2);
    assert_eq!(report.targets[0].path, "src/a.rs");
    assert_eq!(report.targets[0].stats.total_mutants, 4);
    assert_eq!(report.targets[0].stats.untested, 1);
    let severity = report.targets[0].severity.unwrap();
    assert_eq!((severity.low.eligible, severity.low.caught), (2, 1));
    assert_eq!(report.campaign.total_targets, 2);
    assert_eq!(report.campaign.total_mutants, 5);
    assert_eq!((report.campaign.tested, report.campaign.caught, report.campaign.uncaught), (2, 1, 1));
    assert_eq!((report.campaign.timeout, report.campaign.skipped, report.campaign.untested), (1, 0, 2));
    assert_eq!(report.campaign.not_skipped, 5);
    assert!(report.severity.is_some());
    let empty = generate_status_report(&store, &LanguageRegistry::new());
    assert!(empty.severity.is_none());
    assert!(empty.targets[0].severity.is_none());
    let nothing = generate_status_report(&SqlStore::new(), &registry());
    assert!(nothing.targets.is_empty());
    assert_eq!(nothing.campaign.total_mutants, 0);
}

#[test]
fn print_commands_know_whether_they_need_the_catalog() {
    let mutants = PrintMutantsArgs {
        target: Some("src".to_string()),
        line: Some(3),
        file: None,
        mutation_type: None,
        tested: true,
        untested: false,
        format: "ids".to_string(),
    };
    match PrintCommand::from_args(PrintArgs::Mutants(mutants)) {
        PrintCommand::Mutants(filters) => {
            assert_eq!((filters.target.as_deref(), filters.line, filters.tested), (Some("src"), Some(3), true));
            assert!(filters.uses_filters());
        }
        other => panic!("{other:?}"),
    }
    let targets = PrintCommand::from_args(PrintArgs::Targets(PrintTargetsArgs { format: "json".to_string() }));
    assert!(matches!(&targets, PrintCommand::Targets(format) if format == "json"));
    let mutant = PrintCommand::from_args(PrintArgs::Mutant(PrintMutantArgs { id: 4 }));
    assert!(matches!(mutant, PrintCommand::Mutant(4)));
    assert!(targets.needs_store() && mutant.needs_store());
    let config = PrintCommand::Config("table".to_string());
    assert!(!config.needs_store());
    assert_eq!(execute_print(&config, false), Ok(()));
    assert_eq!(execute_print(&mutant, true), Ok(()));
    assert_eq!(execute_print(&mutant, false), Err(PrintError::StoreForMutant));
    assert_eq!(execute_print(&targets, false), Err(PrintError::StoreForTargets));
    assert_eq!(PrintError::StoreForMutants.to_string(), "Store is required for listing mutants");
}

#[test]
fn mutants_are_listed_target_by_target_or_by_what_they_are() {
    let store = campaign();
    let targets = store.get_all_targets();
    let filters = MutantsFilters {
        target: None,
        line: None,
        file: None,
        mutation_type: None,
        tested: false,
        untested: false,
        format: "table".to_string(),
    };
    let listed = |filters: &MutantsFilters, pattern: Option<&TargetPattern>| {
        mutants_data(&store, filters, pattern, &targets)
            .iter()
            .map(|(m, t)| (m.id, t.id))
            .collect::<Vec<_>>()
    };
    assert_eq!(listed(&filters, None), vec![(1, 1), (2, 1), (3, 1), (4, 1), (5, 2)]);
    let untested = MutantsFilters { untested: true, ..filters.clone() };
    assert_eq!(listed(&untested, None), vec![(4, 1), (5, 2)]);
    let dir = TargetPattern::Directory("lib/".to_string());
    let in_dir = MutantsFilters { target: Some("lib/".to_string()), ..filters.clone() };
    assert_eq!(listed(&in_dir, Some(&dir)), vec![(5, 2)]);
}

#[test]
fn the_file_of_a_target_matches_or_not() {
    let t = target("a.rs", "fn a() {}", "Rust");
    assert_eq!(file_status(&t, FileState::Text("fn a() {}".to_string())), "match");
    assert_eq!(file_status(&t, FileState::Text("fn a() { }".to_string())), "modified");
    assert_eq!(file_status(&t, FileState::Missing), "no longer exists");
    assert_eq!(file_status(&t, FileState::Unreadable), "error reading");
    let kept = Target::filter_by_path(vec![t.clone(), target("b.rs", "", "Rust")], Some("b.rs"));
    assert_eq!(kept.len(), 1);
    assert_eq!(kept[0].path, "b.rs");
    assert_eq!(Target::filter_by_path(vec![t], None).len(), 1);
}

#[test]
fn the_command_line_decides_overrides_targets_and_the_exit_code() {
    let run = RunArgs {
        targets: vec![],
        ignore_targets: None,
        mutations: None,
        test_cmd: None,
        test_timeout: None,
        comprehensive: false,
        verbose: false,
    };
    let args = Args {
        cwd: None,
        db: Some("x.db".to_string()),
        log_level: None,
        log_color: Some("off".to_string()),
        command: Commands::Run(run.clone()),
    };
    let overrides = cli_overrides(&args);
    assert_eq!((overrides.db.as_deref(), overrides.log_level, overrides.log_color.as_deref()), (Some("x.db"), None, Some("off")));
    assert_eq!(connection_string("x.db"), "sqlite:x.db");
    let config = Config {
        targets: Some(TargetsConfig { includes: Some(vec!["src".to_string()]), ignore: None }),
        ..Config::default()
    };
    assert!(run_targets(&config, &run).unwrap().is_none());
    let only_ignore = RunArgs { ignore_targets: Some("gen".to_string()), ..run.clone() };
    let resolved = run_targets(&config, &only_ignore).unwrap().unwrap();
    assert_eq!((resolved.includes, resolved.ignore), (vec!["src".to_string()], vec!["gen".to_string()]));
    assert_eq!(run_targets(&Config::default(), &only_ignore).err(), Some(ConfigError::NoTargets));
    let named = RunArgs { targets: vec!["a.rs".to_string()], ..run };
    assert_eq!(run_targets(&Config::default(), &named).unwrap().unwrap().includes, vec!["a.rs".to_string()]);
    assert_eq!(exit_code(true, false), 2);
    assert_eq!(exit_code(true, true), 0);
    assert_eq!(exit_code(false, false), 0);
    let results = results_filters(ResultsArgs {
        target: None,
        verbose: true,
        id: Some(3),
        all: false,
        status: Some("Uncaught".to_string()),
        language: None,
        mutation_type: None,
        line: Some(2),
        file: None,
        format: "sarif".to_string(),
    });
    assert!(results.verbose && results.uses_filters());
    assert_eq!((results.id, results.line, results.format.as_str()), (Some(3), Some(2), "sarif"));
}

#[test]
fn every_outcome_of_a_target_is_counted_by_severity() {
    let mut store = SqlStore::new();
    let target_id = store.add_target(target("src/a.rs", "fn a() { b(); c(); }", "Rust")).unwrap();
    let stored = store.get_target(target_id).unwrap();
    let mut ids: Vec<i64> = Vec::new();
    for (offset, old, new, slug) in [
        (9u32, "b();", "assert!(false);", "ER"),
        (9u32, "b();", "/* b(); */", "CR"),
        (14u32, "c();", "assert!(false);", "ER"),
        (14u32, "c();", "/* c(); */", "CR"),
    ] {
        let mutant = Mutant {
            id: 0,
            target_id,
            byte_offset: offset,
            line_offset: 0,
            old_text: old.to_string(),
            new_text: new.to_string(),
            mutation_slug: slug.to_string(),
        };
        ids.push(store.add_mutant(mutant).unwrap().unwrap());
    }
    for (id, status) in [
        (ids[0], Status::TestFail),
        (ids[1], Status::Uncaught),
        (ids[2], Status::Timeout),
    ] {
        let outcome = Outcome {
            mutant_id: id,
            status,
            output: String::new(),
            time: Timestamp { secs: 0, nanos: 0 },
            duration_ms: 1,
        };
        store.add_outcome(outcome);
    }
    let table = RustLanguageEngine::new().get_mutations().clone();
    let counters = count_outcomes(&store, &stored, &table);
    assert_eq!(counters.overall, OutcomeCounter { eligible: 2, caught: 1 });
    assert_eq!(counters.high, OutcomeCounter { eligible: 1, caught: 1 });
    assert_eq!(counters.medium, OutcomeCounter { eligible: 0, caught: 0 });
    assert_eq!(counters.low, OutcomeCounter { eligible: 1, caught: 0 });
}

#[test]
fn saved_mutants_come_back_under_their_ids() {
    let mut store = SqlStore::new();
    let target_id = store.add_target(target("a.rs", "fn f() { g(a + b); }", "Rust")).unwrap();
    let edit = |offset: u32, old: &str, new: &str, slug: &str| Mutant {
        id: 0,
        target_id,
        byte_offset: offset,
        line_offset: 0,
        old_text: old.to_string(),
        new_text: new.to_string(),
        mutation_slug: slug.to_string(),
    };
    let proposed = vec![
        edit(13, "+", "-", "AOS"),
        edit(13, "+", "*", "AOS"),
        edit(13, "+", "-", "AOS"),
    ];
    let saved = save_mutants(&mut store, &proposed);
    let found: Vec<(i64, &str)> = saved.iter().map(|m| (m.id, m.new_text.as_str())).collect();
    assert_eq!(found, vec![(1, "-"), (2, "*")]);
    assert_eq!(store.get_mutants(target_id).len(), 2);
    let more = vec![edit(13, "+", "*", "AOS"), edit(13, "+", "/", "AOS")];
    let saved = save_mutants(&mut store, &more);
    let found: Vec<(i64, &str)> = saved.iter().map(|m| (m.id, m.new_text.as_str())).collect();
    assert_eq!(found, vec![(3, "/")]);
    assert_eq!(store.get_mutant(3).unwrap().new_text, "/");
}
