use mewt::chars::{blank, eq_ignore_ascii_case, extension_of, number_text, split_list, split_numbers, trim};
use mewt::types::config::{
    apply_cli_overrides, apply_file_config, choose_test, colors_enabled, config, get_config_filename,
    get_namespace, init_with_overrides, is_path_excluded, is_slug_enabled, matches_glob,
    resolve_test_for_path,
    set_config_filename, set_namespace, CliOverrides, Config, ConfigError, LogConfig,
    PerTargetTestRule, RunConfig, Settings, TargetsConfig, TestConfig,
};

fn rule(glob: &str, cmd: Option<&str>, timeout: Option<u32>) -> PerTargetTestRule {
    PerTargetTestRule { glob: glob.to_string(), cmd: cmd.map(str::to_string), timeout }
}

fn texts(list: &[&str]) -> Vec<String> {
    list.iter().map(|s| s.to_string()).collect()
}

#[test]
fn lists_are_split_and_trimmed() {
    assert_eq!(split_list("ER, CR ,,\tIF\n"), texts(&["ER", "CR", "IF"]));
    assert_eq!(split_list(""), Vec::<String>::new());
    assert_eq!(split_list(" , "), Vec::<String>::new());
    assert_eq!(split_list("a b"), texts(&["a b"]));
    assert_eq!(trim("\u{a0} x y\u{2003}\r\n"), "x y");
    assert_eq!(trim("   "), "");
    assert!(blank(" \t\u{3000}") && blank("") && !blank(" . "));
    assert!(eq_ignore_ascii_case("oN", "On") && !eq_ignore_ascii_case("on", "onn"));
    assert!(!eq_ignore_ascii_case("ä", "Ä"));
}

#[test]
fn numbers_are_read_from_a_list() {
    let (ids, others) = split_numbers("1, 22\n-3 +4 x5 ,, 9223372036854775807 9223372036854775808 -9223372036854775808 - 1e3");
    assert_eq!(ids, vec![1, 22, -3, 4, i64::MAX, i64::MIN]);
    assert_eq!(others, texts(&["x5", "9223372036854775808", "-", "1e3"]));
    assert_eq!(split_numbers("").0, Vec::<i64>::new());
    assert_eq!(number_text(0), "0");
    assert_eq!(number_text(1203), "1203");
    assert_eq!(number_text(u64::MAX), "18446744073709551615");
}

#[test]
fn extensions_follow_the_last_dot_of_the_file_name() {
    assert_eq!(extension_of("a/b.c/d.tar.GZ"), Some("GZ".to_string()));
    assert_eq!(extension_of("a/b.c/d"), None);
    assert_eq!(extension_of(".hidden"), None);
    assert_eq!(extension_of("dir/.hidden.rs"), Some("rs".to_string()));
    assert_eq!(extension_of("x."), Some("".to_string()));
    assert_eq!(extension_of(".."), None);
    assert_eq!(extension_of(""), None);
}

#[test]
fn sections_have_defaults() {
    let log = LogConfig::default();
    assert_eq!(log.level(), "info");
    assert_eq!(log.color(), None);
    assert_eq!(log.to_effective().level, Some("info".to_string()));
    let log = LogConfig { level: Some("debug".to_string()), color: Some(false) };
    assert_eq!(log.level(), "debug");
    assert_eq!(log.to_effective().color, Some(false));

    let test = TestConfig::default();
    assert_eq!((test.cmd(), test.timeout(), test.per_target().len()), (None, None, 0));
    let test = TestConfig { cmd: Some("make".to_string()), timeout: Some(3), per_target: Some(vec![]) };
    assert_eq!(test.cmd(), Some("make"));
    assert!(test.to_effective().per_target.is_none());
    let test = TestConfig { cmd: None, timeout: None, per_target: Some(vec![rule("*", Some("x"), None)]) };
    assert_eq!(test.to_effective().per_target.unwrap().len(), 1);

    let config = Config::default();
    assert_eq!(config.db("mewt"), "mewt.sqlite");
    assert!(config.targets().is_none() && config.run().is_none());
    assert_eq!(config.log().level(), "info");
    let effective = config.to_effective("ns");
    assert_eq!(effective.db, Some("ns.sqlite".to_string()));
    assert_eq!(effective.log.unwrap().level, Some("info".to_string()));
    assert!(effective.test.is_some());
    let config = Config { db: Some("x.db".to_string()), ..Config::default() };
    assert_eq!(config.db("mewt"), "x.db");
}

#[test]
fn the_command_line_goes_before_the_file() {
    let config = Config {
        targets: Some(TargetsConfig { includes: Some(texts(&["src"])), ignore: Some(texts(&["gen"])) }),
        run: Some(RunConfig { mutations: Some(texts(&["ER"])), comprehensive: None }),
        test: Some(TestConfig { cmd: Some("make".to_string()), timeout: Some(9), per_target: None }),
        ..Config::default()
    };
    let resolved = config.resolve_targets(&[], None).unwrap();
    assert_eq!((resolved.includes, resolved.ignore), (texts(&["src"]), texts(&["gen"])));
    let resolved = config.resolve_targets(&texts(&["a", "b"]), Some("x, ,y")).unwrap();
    assert_eq!((resolved.includes, resolved.ignore), (texts(&["a", "b"]), texts(&["x", "y"])));
    assert_eq!(Config::default().resolve_targets(&[], Some("x")).err(), Some(ConfigError::NoTargets));
    let no_list = Config { targets: Some(TargetsConfig { includes: None, ignore: None }), ..Config::default() };
    assert_eq!(no_list.resolve_targets(&[], None).err(), Some(ConfigError::NoTargets));
    assert_eq!(no_list.resolve_targets(&texts(&["a"]), None).unwrap().ignore, Vec::<String>::new());

    assert_eq!(config.resolve_mutations(None), Some(texts(&["ER"])));
    assert_eq!(config.resolve_mutations(Some("CR, IF")), Some(texts(&["CR", "IF"])));
    assert_eq!(config.resolve_mutations(Some("")), Some(vec![]));
    assert_eq!(Config::default().resolve_mutations(None), None);
    assert_eq!(config.resolve_test_cmd(None), Some("make".to_string()));
    assert_eq!(config.resolve_test_cmd(Some("cargo test")), Some("cargo test".to_string()));
    assert_eq!(Config::default().resolve_test_cmd(None), None);
    assert_eq!(config.resolve_test_timeout(None), Some(9));
    assert_eq!(config.resolve_test_timeout(Some(1)), Some(1));
}

#[test]
fn what_the_file_says_is_laid_over_defaults() {
    let mut config = Config {
        db: Some("old.db".to_string()),
        log: Some(LogConfig { level: Some("warn".to_string()), color: Some(true) }),
        test: Some(TestConfig { cmd: Some("a".to_string()), timeout: Some(1), per_target: Some(vec![rule("x", Some("keep"), None)]) }),
        ..Config::default()
    };
    let file = Config {
        db: None,
        log: Some(LogConfig { level: None, color: Some(false) }),
        test: Some(TestConfig {
            cmd: None,
            timeout: Some(5),
            per_target: Some(vec![rule("a", Some("go test"), Some(2)), rule("b", Some("  "), None), rule("c", None, Some(4))]),
        }),
        targets: Some(TargetsConfig { includes: Some(texts(&["src"])), ignore: None }),
        run: None,
    };
    apply_file_config(&mut config, &file);
    assert_eq!(config.db, Some("old.db".to_string()));
    let log = config.log.clone().unwrap();
    assert_eq!((log.level, log.color), (Some("warn".to_string()), Some(false)));
    let test = config.test.clone().unwrap();
    assert_eq!((test.cmd, test.timeout), (Some("a".to_string()), Some(5)));
    let globs: Vec<String> = test.per_target.unwrap().iter().map(|r| r.glob.clone()).collect();
    assert_eq!(globs, texts(&["x", "a"]));
    assert_eq!(config.targets.unwrap().includes, Some(texts(&["src"])));
    assert!(config.run.is_none());
}

#[test]
fn what_the_command_line_says_is_laid_over_the_file() {
    let mut config = Config::default();
    apply_cli_overrides(&mut config, &CliOverrides::default());
    assert!(config.db.is_none() && config.log.is_none());
    let overrides = CliOverrides {
        db: Some("cli.db".to_string()),
        log_level: Some(" trace ".to_string()),
        log_color: Some("OFF".to_string()),
    };
    apply_cli_overrides(&mut config, &overrides);
    assert_eq!(config.db, Some("cli.db".to_string()));
    let log = config.log.clone().unwrap();
    assert_eq!((log.level, log.color), (Some("trace".to_string()), Some(false)));
    let overrides = CliOverrides { db: None, log_level: Some("  ".to_string()), log_color: Some("maybe".to_string()) };
    apply_cli_overrides(&mut config, &overrides);
    let log = config.log.clone().unwrap();
    assert_eq!((log.level, log.color), (Some("trace".to_string()), Some(false)));
    let overrides = CliOverrides { db: None, log_level: None, log_color: Some("on".to_string()) };
    apply_cli_overrides(&mut config, &overrides);
    assert_eq!(config.log.clone().unwrap().color, Some(true));
    assert!(colors_enabled(&config, false));
    assert!(colors_enabled(&Config::default(), true) && !colors_enabled(&Config::default(), false));
}

#[test]
fn settings_are_set_once() {
    let mut settings = Settings::new();
    set_namespace(&mut settings, "mewt");
    assert_eq!(get_namespace(&settings), "mewt");
    assert_eq!(get_config_filename(&settings), "mewt.toml");
    set_namespace(&mut settings, "other");
    set_config_filename(&mut settings, "other.toml");
    assert_eq!(get_namespace(&settings), "mewt");
    assert_eq!(get_config_filename(&settings), "mewt.toml");

    let mut settings = Settings::new();
    set_config_filename(&mut settings, "custom.toml");
    set_namespace(&mut settings, "mewt");
    assert_eq!(get_config_filename(&settings), "custom.toml");

    let file = Config { db: Some("file.db".to_string()), ..Config::default() };
    let overrides = CliOverrides { db: Some("cli.db".to_string()), log_level: None, log_color: None };
    init_with_overrides(&mut settings, Some(&file), &overrides);
    assert_eq!(config(&mut settings, None).db, Some("cli.db".to_string()));
    init_with_overrides(&mut settings, None, &CliOverrides::default());
    assert_eq!(config(&mut settings, None).db, Some("cli.db".to_string()));

    let mut fresh = Settings::new();
    assert_eq!(config(&mut fresh, Some(&file)).db, Some("file.db".to_string()));
    assert_eq!(config(&mut fresh, None).db, Some("file.db".to_string()));
    let mut empty = Settings::new();
    assert!(config(&mut empty, None).db.is_none());
}

#[test]
fn slugs_and_paths_are_let_through_or_not() {
    assert!(is_slug_enabled("ER", None));
    assert!(is_slug_enabled("ER", Some(&texts(&["CR", "ER"]))));
    assert!(!is_slug_enabled("ER", Some(&texts(&["CR", "er"]))));
    assert!(!is_slug_enabled("ER", Some(&[])));
    assert!(!is_path_excluded("src/a.rs", &[]));
    assert!(!is_path_excluded("src/a.rs", &texts(&["", "lib"])));
    assert!(is_path_excluded("src/node_modules/a.js", &texts(&["lib", "node_modules"])));
    assert!(is_path_excluded("src/a.rs", &texts(&["a.r"])));
}

#[test]
fn the_first_rule_that_matches_decides_the_test() {
    let test = TestConfig {
        cmd: Some("make test".to_string()),
        timeout: Some(60),
        per_target: Some(vec![
            rule("**/*.sol", None, Some(1)),
            rule("contracts/**", Some("forge test"), Some(30)),
            rule("**/*.sol", Some("never"), None),
            rule("[", Some("no glob"), None),
            rule("src/*.rs", Some("cargo test"), None),
        ]),
    };
    let none: Option<&str> = None;
    assert_eq!(
        resolve_test_for_path(&test, "contracts/a/b.sol", none, None),
        (Some("forge test".to_string()), Some(30))
    );
    assert_eq!(
        resolve_test_for_path(&test, "contracts/a/b.sol", none, Some(5)),
        (Some("forge test".to_string()), Some(5))
    );
    assert_eq!(
        resolve_test_for_path(&test, "x/b.sol", none, None),
        (Some("never".to_string()), Some(60))
    );
    assert_eq!(
        resolve_test_for_path(&test, "src/a.rs", none, None),
        (Some("cargo test".to_string()), Some(60))
    );
    assert_eq!(
        resolve_test_for_path(&test, "README.md", none, None),
        (Some("make test".to_string()), Some(60))
    );
    assert_eq!(
        resolve_test_for_path(&test, "src/a.rs", Some("npm test"), None),
        (Some("npm test".to_string()), Some(60))
    );
    assert_eq!(
        resolve_test_for_path(&test, "contracts/a.sol", Some("npm test"), None),
        (Some("npm test".to_string()), Some(30))
    );
    assert_eq!(
        resolve_test_for_path(&test, "contracts/a.sol", Some("npm test"), Some(2)),
        (Some("npm test".to_string()), Some(2))
    );
    assert_eq!(
        resolve_test_for_path(&test, "src/a.rs", Some("  "), Some(7)),
        (Some("cargo test".to_string()), Some(7))
    );
    assert_eq!(resolve_test_for_path(&TestConfig::default(), "a", none, None), (None, None));
    // Given the matches, the choice does not ask the globs again.
    assert_eq!(
        choose_test(&test, &vec![false, false, false, true, false], none, None),
        (Some("no glob".to_string()), Some(60))
    );
    assert_eq!(choose_test(&test, &vec![true], none, None), (Some("make test".to_string()), Some(60)));
}

#[test]
fn a_glob_that_cannot_be_read_matches_nothing() {
    let rule = |glob: String| PerTargetTestRule {
        glob,
        cmd: Some("forge test".to_string()),
        timeout: None,
    };
    let test_with = |glob: String| TestConfig {
        cmd: Some("make test".to_string()),
        timeout: None,
        per_target: Some(vec![rule(glob)]),
    };
    let globally = (Some("make test".to_string()), None);
    let by_rule = (Some("forge test".to_string()), None);
    assert_eq!(resolve_test_for_path(&test_with("src/**/*.sol".into()), "src/a/b.sol", None, None), by_rule);
    // No glob at all.
    assert_eq!(resolve_test_for_path(&test_with("src/[".into()), "src/[", None, None), globally);
    // Longer than a path can be.
    let long = format!("{}*", "a".repeat(4096));
    assert_eq!(resolve_test_for_path(&test_with(long), &"a".repeat(4097), None, None), globally);
    let longest = format!("{}*", "a".repeat(4095));
    assert_eq!(resolve_test_for_path(&test_with(longest), &"a".repeat(4097), None, None), by_rule);
    // Braces nested deeper than globset compiles.
    let nested = format!("{}a{}", "{".repeat(400), "}".repeat(400));
    assert_eq!(resolve_test_for_path(&test_with(nested), "a", None, None), globally);
    assert!(matches_glob("**/*.rs", "src/lib.rs"));
    assert!(!matches_glob("**/*.rs", "src/lib.js"));
}

#[test]
fn every_mutant_is_tested_where_the_command_line_or_the_file_asks_for_it() {
    let with = |comprehensive: Option<bool>| Config {
        run: Some(RunConfig { mutations: None, comprehensive }),
        ..Config::default()
    };
    assert!(!Config::default().resolve_comprehensive(false));
    assert!(Config::default().resolve_comprehensive(true));
    assert!(!with(None).resolve_comprehensive(false));
    assert!(!with(Some(false)).resolve_comprehensive(false));
    assert!(with(Some(true)).resolve_comprehensive(false));
    assert!(with(Some(false)).resolve_comprehensive(true));
}
