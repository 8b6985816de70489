//! Configuration: what the file and the command line say, how the two
//! are merged, and what they decide for a path or a slug.

use crate::chars::{
    blank, comma_items, eq_ignore_ascii_case, is_blank, said, same_but_case, split_list,
    text_views, trim, trimmed,
};
use crate::text::{bytes_of, contains_bytes, str_contains, str_eq};
use vstd::prelude::*;
use vstd::string::*;

verus! {

/// What an optional list of texts says.
pub open spec fn listed_texts(list: Option<Vec<String>>) -> Option<Seq<Seq<char>>> {
    match list {
        Some(list) => Some(text_views(list@)),
        None => None,
    }
}

/// A copy of an optional text.
pub fn copy_text(text: &Option<String>) -> (r: Option<String>)
    ensures
        said(r) == said(*text),
{
    match text {
        Some(text) => Some(text.clone()),
        None => None,
    }
}

/// A copy of a list of texts.
pub fn copy_texts(list: &Vec<String>) -> (r: Vec<String>)
    ensures
        text_views(r@) == text_views(list@),
{
    let mut out: Vec<String> = Vec::new();
    let mut at: usize = 0;
    while at < list.len()
        invariant
            0 <= at <= list@.len(),
            out@.len() == at,
            forall|i: int| 0 <= i < at ==> (#[trigger] out@[i])@ == list@[i]@,
        decreases list@.len() - at,
    {
        out.push(list[at].clone());
        at += 1;
    }
    assert(text_views(out@) =~= text_views(list@));
    out
}

/// A copy of an optional list of texts.
pub fn copy_listed(list: &Option<Vec<String>>) -> (r: Option<Vec<String>>)
    ensures
        listed_texts(r) == listed_texts(*list),
{
    match list {
        Some(list) => Some(copy_texts(list)),
        None => None,
    }
}

/// The `[log]` section.
#[derive(Debug, Clone)]
pub struct LogConfig {
    pub level: Option<String>,
    /// Nothing stands for: find out whether the terminal takes colours.
    pub color: Option<bool>,
}

/// What a `[log]` section says.
pub struct LogConfigView {
    pub level: Option<Seq<char>>,
    pub color: Option<bool>,
}

impl View for LogConfig {
    type V = LogConfigView;

    open spec fn view(&self) -> LogConfigView {
        LogConfigView { level: said(self.level), color: self.color }
    }
}

impl Default for LogConfig {
    fn default() -> (r: LogConfig)
        ensures
            r@ == (LogConfigView { level: None, color: None }),
    {
        LogConfig { level: None, color: None }
    }
}

impl LogConfig {
    /// The level that holds: the one set, or `info`.
    pub open spec fn spec_level(&self) -> Seq<char> {
        match self.level {
            Some(level) => level@,
            None => "info"@,
        }
    }

    /// The level that holds: the one set, or `info`.
    pub fn level(&self) -> (r: &str)
        ensures
            r@ == self.spec_level(),
    {
        match &self.level {
            Some(level) => level.as_str(),
            None => "info",
        }
    }

    /// Whether colours are forced on or off; nothing where the terminal
    /// decides.
    pub fn color(&self) -> (r: Option<bool>)
        ensures
            r == self.color,
    {
        self.color
    }

    /// The section with the level that holds written out.
    pub fn to_effective(&self) -> (r: LogConfig)
        ensures
            r@ == (LogConfigView { level: Some(self.spec_level()), color: self.color }),
    {
        LogConfig { level: Some(self.level().to_string()), color: self.color }
    }

    /// A copy of the section.
    pub fn copy(&self) -> (r: LogConfig)
        ensures
            r@ == self@,
    {
        LogConfig { level: copy_text(&self.level), color: self.color }
    }
}

/// A rule of `[test]` for the targets that a glob matches.
#[derive(Debug, Clone)]
pub struct PerTargetTestRule {
    pub glob: String,
    pub cmd: Option<String>,
    pub timeout: Option<u32>,
}

/// What a rule for targets says.
pub struct PerTargetTestRuleView {
    pub glob: Seq<char>,
    pub cmd: Option<Seq<char>>,
    pub timeout: Option<u32>,
}

impl View for PerTargetTestRule {
    type V = PerTargetTestRuleView;

    open spec fn view(&self) -> PerTargetTestRuleView {
        PerTargetTestRuleView { glob: self.glob@, cmd: said(self.cmd), timeout: self.timeout }
    }
}

impl PerTargetTestRule {
    /// A copy of the rule.
    pub fn copy(&self) -> (r: PerTargetTestRule)
        ensures
            r@ == self@,
    {
        PerTargetTestRule {
            glob: self.glob.clone(),
            cmd: copy_text(&self.cmd),
            timeout: self.timeout,
        }
    }
}

/// What the rules say.
pub open spec fn rule_views(rules: Seq<PerTargetTestRule>) -> Seq<PerTargetTestRuleView> {
    rules.map_values(|rule: PerTargetTestRule| rule@)
}

/// A copy of the rules.
pub fn copy_rules(rules: &[PerTargetTestRule]) -> (r: Vec<PerTargetTestRule>)
    ensures
        rule_views(r@) == rule_views(rules@),
{
    let mut out: Vec<PerTargetTestRule> = Vec::new();
    let mut at: usize = 0;
    while at < rules.len()
        invariant
            0 <= at <= rules@.len(),
            out@.len() == at,
            forall|i: int| 0 <= i < at ==> (#[trigger] out@[i])@ == rules@[i]@,
        decreases rules@.len() - at,
    {
        out.push(rules[at].copy());
        at += 1;
    }
    assert(rule_views(out@) =~= rule_views(rules@));
    out
}

/// The `[test]` section.
#[derive(Debug, Clone)]
pub struct TestConfig {
    pub cmd: Option<String>,
    pub timeout: Option<u32>,
    /// In order; the first rule that matches decides.
    pub per_target: Option<Vec<PerTargetTestRule>>,
}

/// What a `[test]` section says.
pub struct TestConfigView {
    pub cmd: Option<Seq<char>>,
    pub timeout: Option<u32>,
    pub per_target: Option<Seq<PerTargetTestRuleView>>,
}

impl View for TestConfig {
    type V = TestConfigView;

    open spec fn view(&self) -> TestConfigView {
        TestConfigView {
            cmd: said(self.cmd),
            timeout: self.timeout,
            per_target: match self.per_target {
                Some(rules) => Some(rule_views(rules@)),
                None => None,
            },
        }
    }
}

impl Default for TestConfig {
    fn default() -> (r: TestConfig)
        ensures
            r@ == (TestConfigView { cmd: None, timeout: None, per_target: None }),
    {
        TestConfig { cmd: None, timeout: None, per_target: None }
    }
}

impl TestConfig {
    /// The rules for targets; none where the section names none.
    pub open spec fn rules(&self) -> Seq<PerTargetTestRuleView> {
        match self.per_target {
            Some(rules) => rule_views(rules@),
            None => Seq::empty(),
        }
    }

    /// The test command, if one is set.
    pub fn cmd(&self) -> (r: Option<&str>)
        ensures
            match r {
                Some(cmd) => self@.cmd == Some(cmd@),
                None => self@.cmd is None,
            },
    {
        match &self.cmd {
            Some(cmd) => Some(cmd.as_str()),
            None => None,
        }
    }

    /// The timeout in seconds, if one is set.
    pub fn timeout(&self) -> (r: Option<u32>)
        ensures
            r == self.timeout,
    {
        self.timeout
    }

    /// The rules for targets; none where the section names none.
    pub fn per_target(&self) -> (r: &[PerTargetTestRule])
        ensures
            rule_views(r@) == self.rules(),
    {
        match &self.per_target {
            Some(rules) => rules.as_slice(),
            None => {
                let none: &[PerTargetTestRule] = &[];
                assert(rule_views(none@) =~= Seq::<PerTargetTestRuleView>::empty());
                none
            },
        }
    }

    /// The section as it holds: an empty list of rules counts as none.
    pub fn to_effective(&self) -> (r: TestConfig)
        ensures
            r@.cmd == self@.cmd,
            r@.timeout == self@.timeout,
            r@.per_target == if self.rules().len() == 0 {
                None
            } else {
                Some(self.rules())
            },
    {
        let rules = self.per_target();
        TestConfig {
            cmd: copy_text(&self.cmd),
            timeout: self.timeout,
            per_target: if rules.len() == 0 {
                None
            } else {
                Some(copy_rules(rules))
            },
        }
    }

    /// A copy of the section.
    pub fn copy(&self) -> (r: TestConfig)
        ensures
            r@ == self@,
    {
        TestConfig {
            cmd: copy_text(&self.cmd),
            timeout: self.timeout,
            per_target: match &self.per_target {
                Some(rules) => Some(copy_rules(rules.as_slice())),
                None => None,
            },
        }
    }
}

/// The `[targets]` section.
#[derive(Debug, Clone)]
pub struct TargetsConfig {
    /// Files, directories or globs to take targets from.
    pub includes: Option<Vec<String>>,
    /// Texts that the path of no target may hold.
    pub ignore: Option<Vec<String>>,
}

/// What a `[targets]` section says.
pub struct TargetsConfigView {
    pub includes: Option<Seq<Seq<char>>>,
    pub ignore: Option<Seq<Seq<char>>>,
}

impl View for TargetsConfig {
    type V = TargetsConfigView;

    open spec fn view(&self) -> TargetsConfigView {
        TargetsConfigView { includes: listed_texts(self.includes), ignore: listed_texts(self.ignore) }
    }
}

impl TargetsConfig {
    /// A copy of the section.
    pub fn copy(&self) -> (r: TargetsConfig)
        ensures
            r@ == self@,
    {
        TargetsConfig { includes: copy_listed(&self.includes), ignore: copy_listed(&self.ignore) }
    }
}

/// The targets to take in, once file and command line are merged.
#[derive(Debug, Clone)]
pub struct ResolvedTargets {
    pub includes: Vec<String>,
    pub ignore: Vec<String>,
}

/// The `[run]` section.
#[derive(Debug, Clone)]
pub struct RunConfig {
    /// The slugs to apply; nothing stands for all.
    pub mutations: Option<Vec<String>>,
    pub comprehensive: Option<bool>,
}

/// What a `[run]` section says.
pub struct RunConfigView {
    pub mutations: Option<Seq<Seq<char>>>,
    pub comprehensive: Option<bool>,
}

impl View for RunConfig {
    type V = RunConfigView;

    open spec fn view(&self) -> RunConfigView {
        RunConfigView {
            mutations: listed_texts(self.mutations),
            comprehensive: self.comprehensive,
        }
    }
}

impl RunConfig {
    /// A copy of the section.
    pub fn copy(&self) -> (r: RunConfig)
        ensures
            r@ == self@,
    {
        RunConfig { mutations: copy_listed(&self.mutations), comprehensive: self.comprehensive }
    }
}

/// The configuration.
#[derive(Debug, Clone)]
pub struct Config {
    pub db: Option<String>,
    pub log: Option<LogConfig>,
    pub test: Option<TestConfig>,
    pub targets: Option<TargetsConfig>,
    pub run: Option<RunConfig>,
}

/// What a configuration says.
pub struct ConfigView {
    pub db: Option<Seq<char>>,
    pub log: Option<LogConfigView>,
    pub test: Option<TestConfigView>,
    pub targets: Option<TargetsConfigView>,
    pub run: Option<RunConfigView>,
}

impl View for Config {
    type V = ConfigView;

    open spec fn view(&self) -> ConfigView {
        ConfigView {
            db: said(self.db),
            log: match self.log {
                Some(log) => Some(log@),
                None => None,
            },
            test: match self.test {
                Some(test) => Some(test@),
                None => None,
            },
            targets: match self.targets {
                Some(targets) => Some(targets@),
                None => None,
            },
            run: match self.run {
                Some(run) => Some(run@),
                None => None,
            },
        }
    }
}

/// The configuration that says nothing.
pub open spec fn empty_config() -> ConfigView {
    ConfigView { db: None, log: None, test: None, targets: None, run: None }
}

impl Default for Config {
    fn default() -> (r: Config)
        ensures
            r@ == empty_config(),
    {
        Config { db: None, log: None, test: None, targets: None, run: None }
    }
}

/// Why no targets can be resolved.
#[derive(Debug, PartialEq, Eq)]
pub enum ConfigError {
    /// Neither the command line nor the list of `[targets]` names a target.
    NoTargets,
}

impl ConfigView {
    /// The `[log]` section, or the one that says nothing.
    pub open spec fn log_or_default(self) -> LogConfigView {
        match self.log {
            Some(log) => log,
            None => LogConfigView { level: None, color: None },
        }
    }

    /// The `[test]` section, or the one that says nothing.
    pub open spec fn test_or_default(self) -> TestConfigView {
        match self.test {
            Some(test) => test,
            None => TestConfigView { cmd: None, timeout: None, per_target: None },
        }
    }

    /// The path of the database: the one set, or the namespace with
    /// `.sqlite` after it.
    pub open spec fn db_path(self, namespace: Seq<char>) -> Seq<char> {
        match self.db {
            Some(db) => db,
            None => namespace + ".sqlite"@,
        }
    }

    /// What is to be included: the targets of the command line where it
    /// names any, else those of the list of `[targets]`.
    pub open spec fn included(self, cli_targets: Seq<Seq<char>>) -> Option<Seq<Seq<char>>> {
        if cli_targets.len() > 0 {
            Some(cli_targets)
        } else {
            match self.targets {
                Some(targets) => targets.includes,
                None => None,
            }
        }
    }

    /// What is to be ignored: the list of the command line where it gives
    /// one, else `[targets].ignore`, else nothing.
    pub open spec fn ignored(self, cli_ignore: Option<Seq<char>>) -> Seq<Seq<char>> {
        match cli_ignore {
            Some(list) => comma_items(list),
            None => match self.targets {
                Some(targets) => match targets.ignore {
                    Some(ignore) => ignore,
                    None => Seq::empty(),
                },
                None => Seq::empty(),
            },
        }
    }

    /// The slugs to apply: the list of the command line where it gives
    /// one, else `[run].mutations`.
    pub open spec fn chosen_mutations(self, cli_mutations: Option<Seq<char>>) -> Option<
        Seq<Seq<char>>,
    > {
        match cli_mutations {
            Some(list) => Some(comma_items(list)),
            None => match self.run {
                Some(run) => run.mutations,
                None => None,
            },
        }
    }
}

impl Config {
    /// The path of the database: the one set, or the namespace with
    /// `.sqlite` after it.
    pub fn db(&self, namespace: &str) -> (r: String)
        ensures
            r@ == self@.db_path(namespace@),
    {
        match &self.db {
            Some(db) => db.clone(),
            None => {
                let mut path = namespace.to_string();
                path.append(".sqlite");
                path
            },
        }
    }

    /// The `[log]` section, or the one that says nothing.
    pub fn log(&self) -> (r: LogConfig)
        ensures
            r@ == self@.log_or_default(),
    {
        match &self.log {
            Some(log) => log.copy(),
            None => LogConfig::default(),
        }
    }

    /// The `[test]` section, or the one that says nothing.
    pub fn test(&self) -> (r: TestConfig)
        ensures
            r@ == self@.test_or_default(),
    {
        match &self.test {
            Some(test) => test.copy(),
            None => TestConfig::default(),
        }
    }

    /// The `[targets]` section, if there is one.
    pub fn targets(&self) -> (r: Option<&TargetsConfig>)
        ensures
            match r {
                Some(targets) => self.targets == Some(*targets),
                None => self.targets is None,
            },
    {
        self.targets.as_ref()
    }

    /// The `[run]` section, if there is one.
    pub fn run(&self) -> (r: Option<&RunConfig>)
        ensures
            match r {
                Some(run) => self.run == Some(*run),
                None => self.run is None,
            },
    {
        self.run.as_ref()
    }

    /// The targets to take in. Those of the command line replace those of
    /// the file, and so does its list of what to ignore.
    pub fn resolve_targets(&self, cli_targets: &[String], cli_ignore: Option<&str>) -> (r: Result<
        ResolvedTargets,
        ConfigError,
    >)
        ensures
            self@.included(text_views(cli_targets@)) is None ==> r == Err::<
                ResolvedTargets,
                ConfigError,
            >(ConfigError::NoTargets),
            self@.included(text_views(cli_targets@)) matches Some(includes) ==> r is Ok
                && text_views(r->Ok_0.includes@) == includes && text_views(r->Ok_0.ignore@)
                == self@.ignored(
                match cli_ignore {
                    Some(list) => Some(list@),
                    None => None,
                },
            ),
    {
        let includes: Vec<String> = if cli_targets.len() > 0 {
            let mut copy: Vec<String> = Vec::new();
            let mut at: usize = 0;
            while at < cli_targets.len()
                invariant
                    0 <= at <= cli_targets@.len(),
                    copy@.len() == at,
                    forall|i: int| 0 <= i < at ==> (#[trigger] copy@[i])@ == cli_targets@[i]@,
                decreases cli_targets@.len() - at,
            {
                copy.push(cli_targets[at].clone());
                at += 1;
            }
            assert(text_views(copy@) =~= text_views(cli_targets@));
            copy
        } else {
            match &self.targets {
                Some(targets) => match &targets.includes {
                    Some(includes) => copy_texts(includes),
                    None => {
                        return Err(ConfigError::NoTargets);
                    },
                },
                None => {
                    return Err(ConfigError::NoTargets);
                },
            }
        };
        let ignore: Vec<String> = match cli_ignore {
            Some(list) => split_list(list),
            None => match &self.targets {
                Some(targets) => match &targets.ignore {
                    Some(ignore) => copy_texts(ignore),
                    None => Vec::new(),
                },
                None => Vec::new(),
            },
        };
        assert(text_views(Seq::<String>::empty()) =~= Seq::<Seq<char>>::empty());
        Ok(ResolvedTargets { includes, ignore })
    }

    /// The slugs to apply. A list on the command line replaces that of
    /// the file.
    pub fn resolve_mutations(&self, cli_mutations: Option<&str>) -> (r: Option<Vec<String>>)
        ensures
            listed_texts(r) == self@.chosen_mutations(
                match cli_mutations {
                    Some(list) => Some(list@),
                    None => None,
                },
            ),
    {
        match cli_mutations {
            Some(list) => Some(split_list(list)),
            None => match &self.run {
                Some(run) => copy_listed(&run.mutations),
                None => None,
            },
        }
    }

    /// The test command: that of the command line, else `[test].cmd`.
    pub fn resolve_test_cmd(&self, cli_test_cmd: Option<&str>) -> (r: Option<String>)
        ensures
            said(r) == match cli_test_cmd {
                Some(cmd) => Some(cmd@),
                None => self@.test_or_default().cmd,
            },
    {
        match cli_test_cmd {
            Some(cmd) => Some(cmd.to_string()),
            None => match &self.test {
                Some(test) => copy_text(&test.cmd),
                None => None,
            },
        }
    }

    /// The timeout: that of the command line, else `[test].timeout`.
    pub fn resolve_test_timeout(&self, cli_timeout: Option<u32>) -> (r: Option<u32>)
        ensures
            r == match cli_timeout {
                Some(timeout) => Some(timeout),
                None => self@.test_or_default().timeout,
            },
    {
        match cli_timeout {
            Some(timeout) => Some(timeout),
            None => match &self.test {
                Some(test) => test.timeout,
                None => None,
            },
        }
    }

    /// Whether every mutant is tested, none skipped for its severity: so
    /// it is where the command line asks for it, and else where
    /// `[run].comprehensive` does.
    pub fn resolve_comprehensive(&self, cli_comprehensive: bool) -> (r: bool)
        ensures
            r == (cli_comprehensive || (self@.run matches Some(run) && run.comprehensive == Some(
                true,
            ))),
    {
        if cli_comprehensive {
            return true;
        }
        match &self.run {
            Some(run) => match run.comprehensive {
                Some(comprehensive) => comprehensive,
                None => false,
            },
            None => false,
        }
    }

    /// The configuration as it holds, with its defaults written out.
    pub fn to_effective(&self, namespace: &str) -> (r: Config)
        ensures
            r@.db == Some(self@.db_path(namespace@)),
            r.log is Some && r.log->0@.level == Some(
                match self@.log_or_default().level {
                    Some(level) => level,
                    None => "info"@,
                },
            ) && r.log->0@.color == self@.log_or_default().color,
            r.test is Some && r.test->0@.cmd == self@.test_or_default().cmd && r.test->0@.timeout
                == self@.test_or_default().timeout && r.test->0@.per_target
                == match self@.test_or_default().per_target {
                Some(rules) => if rules.len() == 0 {
                    None
                } else {
                    Some(rules)
                },
                None => None,
            },
            r@.targets == self@.targets,
            r@.run == self@.run,
    {
        Config {
            db: Some(self.db(namespace)),
            log: Some(self.log().to_effective()),
            test: Some(self.test().to_effective()),
            targets: match &self.targets {
                Some(targets) => Some(targets.copy()),
                None => None,
            },
            run: match &self.run {
                Some(run) => Some(run.copy()),
                None => None,
            },
        }
    }

    /// A copy of the configuration.
    pub fn copy(&self) -> (r: Config)
        ensures
            r@ == self@,
    {
        Config {
            db: copy_text(&self.db),
            log: match &self.log {
                Some(log) => Some(log.copy()),
                None => None,
            },
            test: match &self.test {
                Some(test) => Some(test.copy()),
                None => None,
            },
            targets: match &self.targets {
                Some(targets) => Some(targets.copy()),
                None => None,
            },
            run: match &self.run {
                Some(run) => Some(run.copy()),
                None => None,
            },
        }
    }
}

/// What the command line says of the configuration.
#[derive(Debug, Clone)]
pub struct CliOverrides {
    pub db: Option<String>,
    pub log_level: Option<String>,
    /// `on` or `off`, in either case; anything else says nothing.
    pub log_color: Option<String>,
}

impl Default for CliOverrides {
    fn default() -> (r: CliOverrides)
        ensures
            r.db is None && r.log_level is None && r.log_color is None,
    {
        CliOverrides { db: None, log_level: None, log_color: None }
    }
}

/// What holds for the whole run: the namespace, the name of the
/// configuration file, and the configuration. Each is set once; what
/// comes later does not replace it.
#[derive(Debug, Clone)]
pub struct Settings {
    pub namespace: Option<String>,
    pub config_filename: Option<String>,
    pub config: Option<Config>,
}

impl Settings {
    /// Settings in which nothing is set yet.
    pub fn new() -> (r: Settings)
        ensures
            r.namespace is None && r.config_filename is None && r.config is None,
    {
        Settings { namespace: None, config_filename: None, config: None }
    }
}

/// Sets the namespace, unless one is set, and with it the name of the
/// configuration file, the namespace with `.toml` after it, unless one is
/// set.
pub fn set_namespace(settings: &mut Settings, namespace: &str)
    ensures
        said(final(settings).namespace) == match old(settings).namespace {
            Some(set) => Some(set@),
            None => Some(namespace@),
        },
        said(final(settings).config_filename) == match old(settings).config_filename {
            Some(set) => Some(set@),
            None => Some(namespace@ + ".toml"@),
        },
        final(settings).config == old(settings).config,
{
    if settings.namespace.is_none() {
        settings.namespace = Some(namespace.to_string());
    }
    if settings.config_filename.is_none() {
        let mut name = namespace.to_string();
        name.append(".toml");
        settings.config_filename = Some(name);
    }
}

/// The namespace. It has to be set.
pub fn get_namespace(settings: &Settings) -> (r: &str)
    requires
        settings.namespace is Some,
    ensures
        Some(r@) == said(settings.namespace),
{
    match &settings.namespace {
        Some(namespace) => namespace.as_str(),
        None => "",
    }
}

/// Sets the name of the configuration file, unless one is set.
pub fn set_config_filename(settings: &mut Settings, filename: &str)
    ensures
        said(final(settings).config_filename) == match old(settings).config_filename {
            Some(set) => Some(set@),
            None => Some(filename@),
        },
        final(settings).namespace == old(settings).namespace,
        final(settings).config == old(settings).config,
{
    if settings.config_filename.is_none() {
        settings.config_filename = Some(filename.to_string());
    }
}

/// The name of the configuration file. It has to be set.
pub fn get_config_filename(settings: &Settings) -> (r: &str)
    requires
        settings.config_filename is Some,
    ensures
        Some(r@) == said(settings.config_filename),
{
    match &settings.config_filename {
        Some(filename) => filename.as_str(),
        None => "",
    }
}

/// What the file says, laid over what says nothing.
pub open spec fn file_config(file: Option<ConfigView>) -> ConfigView {
    match file {
        Some(file) => merged(empty_config(), file),
        None => empty_config(),
    }
}

/// The configuration. Where none is set yet, it is set to what the
/// nearest configuration file says, which the caller has read, or to what
/// says nothing where there is no such file.
pub fn config<'a>(settings: &'a mut Settings, file: Option<&Config>) -> (r: &'a Config)
    ensures
        r@ == match old(settings).config {
            Some(set) => set@,
            None => file_config(
                match file {
                    Some(file) => Some(file@),
                    None => None,
                },
            ),
        },
        final(settings).config is Some && final(settings).config->0@ == r@,
        final(settings).namespace == old(settings).namespace,
        final(settings).config_filename == old(settings).config_filename,
{
    if settings.config.is_none() {
        let mut fresh = Config::default();
        match file {
            Some(file) => {
                apply_file_config(&mut fresh, file);
            },
            None => {},
        }
        settings.config = Some(fresh);
    }
    settings.config.as_ref().unwrap()
}

/// Sets the configuration, unless one is set: what the file says, laid
/// over what says nothing, and over that what the command line says.
pub fn init_with_overrides(settings: &mut Settings, file: Option<&Config>, overrides: &CliOverrides)
    ensures
        final(settings).config is Some,
        final(settings).config->0@ == match old(settings).config {
            Some(set) => set@,
            None => overridden(
                file_config(
                    match file {
                        Some(file) => Some(file@),
                        None => None,
                    },
                ),
                *overrides,
            ),
        },
        final(settings).namespace == old(settings).namespace,
        final(settings).config_filename == old(settings).config_filename,
{
    let mut fresh = Config::default();
    match file {
        Some(file) => {
            apply_file_config(&mut fresh, file);
        },
        None => {},
    }
    apply_cli_overrides(&mut fresh, overrides);
    if settings.config.is_none() {
        settings.config = Some(fresh);
    }
}

/// The rules of the file that name a command that is not blank.
pub open spec fn usable_rules(rules: Seq<PerTargetTestRuleView>) -> Seq<PerTargetTestRuleView> {
    rules.filter(|rule: PerTargetTestRuleView| rule.cmd is Some && !is_blank(rule.cmd->0))
}

/// The `[log]` section with what the file says laid over it.
pub open spec fn merged_log(base: LogConfigView, file: LogConfigView) -> LogConfigView {
    LogConfigView {
        level: if file.level is Some {
            file.level
        } else {
            base.level
        },
        color: if file.color is Some {
            file.color
        } else {
            base.color
        },
    }
}

/// The `[test]` section with what the file says laid over it: command and
/// timeout replace, and the usable rules of the file come after the
/// rules that are there.
pub open spec fn merged_test(base: TestConfigView, file: TestConfigView) -> TestConfigView {
    TestConfigView {
        cmd: if file.cmd is Some {
            file.cmd
        } else {
            base.cmd
        },
        timeout: if file.timeout is Some {
            file.timeout
        } else {
            base.timeout
        },
        per_target: match file.per_target {
            Some(rules) => Some(
                match base.per_target {
                    Some(there) => there,
                    None => Seq::empty(),
                } + usable_rules(rules),
            ),
            None => base.per_target,
        },
    }
}

/// The configuration with what the file says laid over it.
pub open spec fn merged(base: ConfigView, file: ConfigView) -> ConfigView {
    ConfigView {
        db: if file.db is Some {
            file.db
        } else {
            base.db
        },
        log: match file.log {
            Some(log) => Some(merged_log(base.log_or_default(), log)),
            None => base.log,
        },
        test: match file.test {
            Some(test) => Some(merged_test(base.test_or_default(), test)),
            None => base.test,
        },
        targets: if file.targets is Some {
            file.targets
        } else {
            base.targets
        },
        run: if file.run is Some {
            file.run
        } else {
            base.run
        },
    }
}

/// Lays what the file says over the configuration.
pub fn apply_file_config(cfg: &mut Config, file: &Config)
    ensures
        final(cfg)@ == merged(old(cfg)@, file@),
{
    if file.db.is_some() {
        cfg.db = copy_text(&file.db);
    }
    match &file.log {
        Some(file_log) => {
            let mut log = cfg.log();
            if file_log.level.is_some() {
                log.level = copy_text(&file_log.level);
            }
            if file_log.color.is_some() {
                log.color = file_log.color;
            }
            cfg.log = Some(log);
        },
        None => {},
    }
    match &file.test {
        Some(file_test) => {
            let mut test = cfg.test();
            if file_test.cmd.is_some() {
                test.cmd = copy_text(&file_test.cmd);
            }
            if file_test.timeout.is_some() {
                test.timeout = file_test.timeout;
            }
            match &file_test.per_target {
                Some(file_rules) => {
                    let mut rules = copy_rules(test.per_target());
                    let ghost there = rule_views(rules@);
                    let mut at: usize = 0;
                    assert(rule_views(file_rules@).take(0) =~= Seq::<PerTargetTestRuleView>::empty());
                    assert(rule_views(rules@) =~= there + usable_rules(
                        rule_views(file_rules@).take(0),
                    ));
                    while at < file_rules.len()
                        invariant
                            0 <= at <= file_rules@.len(),
                            rule_views(rules@) == there + usable_rules(
                                rule_views(file_rules@).take(at as int),
                            ),
                        decreases file_rules@.len() - at,
                    {
                        let rule = &file_rules[at];
                        let usable: bool = match &rule.cmd {
                            Some(cmd) => !blank(cmd.as_str()),
                            None => false,
                        };
                        let ghost before = rules@;
                        if usable {
                            rules.push(rule.copy());
                        }
                        proof {
                            let all = rule_views(file_rules@);
                            assert(all.take(at + 1) =~= all.take(at as int).push(rule@));
                            lemma_usable_push(all.take(at as int), rule@);
                            if usable {
                                assert(rule_views(rules@) =~= rule_views(before).push(rule@));
                            }
                        }
                        at += 1;
                    }
                    assert(rule_views(file_rules@).take(file_rules@.len() as int) =~= rule_views(
                        file_rules@,
                    ));
                    test.per_target = Some(rules);
                },
                None => {},
            }
            cfg.test = Some(test);
        },
        None => {},
    }
    match &file.targets {
        Some(targets) => {
            cfg.targets = Some(targets.copy());
        },
        None => {},
    }
    match &file.run {
        Some(run) => {
            cfg.run = Some(run.copy());
        },
        None => {},
    }
}

/// The usable rules of a list with one more rule.
pub proof fn lemma_usable_push(rules: Seq<PerTargetTestRuleView>, rule: PerTargetTestRuleView)
    ensures
        usable_rules(rules.push(rule)) == if rule.cmd is Some && !is_blank(rule.cmd->0) {
            usable_rules(rules).push(rule)
        } else {
            usable_rules(rules)
        },
{
    let keep = |rule: PerTargetTestRuleView| rule.cmd is Some && !is_blank(rule.cmd->0);
    assert(rules.push(rule).drop_last() =~= rules);
    reveal(Seq::filter);
}

/// What the command line says of colours: `on` and `off`, in either
/// case.
pub open spec fn color_choice(word: Seq<char>) -> Option<bool> {
    if same_but_case(bytes_of(word), bytes_of("on"@)) {
        Some(true)
    } else if same_but_case(bytes_of(word), bytes_of("off"@)) {
        Some(false)
    } else {
        None
    }
}

/// The configuration with what the command line says laid over it: the
/// database, the level unless it is blank, and the colours.
pub open spec fn overridden(base: ConfigView, overrides: CliOverrides) -> ConfigView {
    let log = base.log_or_default();
    let level = match overrides.log_level {
        Some(level) => if is_blank(level@) {
            log.level
        } else {
            Some(trimmed(level@))
        },
        None => log.level,
    };
    let color = match overrides.log_color {
        Some(word) => match color_choice(word@) {
            Some(choice) => Some(choice),
            None => log.color,
        },
        None => log.color,
    };
    ConfigView {
        db: match overrides.db {
            Some(db) => Some(db@),
            None => base.db,
        },
        log: if overrides.log_level is Some || overrides.log_color is Some {
            Some(LogConfigView { level, color })
        } else {
            base.log
        },
        test: base.test,
        targets: base.targets,
        run: base.run,
    }
}

/// Lays what the command line says over the configuration.
pub fn apply_cli_overrides(cfg: &mut Config, overrides: &CliOverrides)
    ensures
        final(cfg)@ == overridden(old(cfg)@, *overrides),
{
    if overrides.db.is_some() {
        cfg.db = copy_text(&overrides.db);
    }
    let mut log = cfg.log();
    match &overrides.log_level {
        Some(level) => {
            if !blank(level.as_str()) {
                log.level = Some(trim(level.as_str()));
            }
        },
        None => {},
    }
    match &overrides.log_color {
        Some(word) => {
            if eq_ignore_ascii_case(word.as_str(), "on") {
                log.color = Some(true);
            } else if eq_ignore_ascii_case(word.as_str(), "off") {
                log.color = Some(false);
            }
        },
        None => {},
    }
    if overrides.log_level.is_some() || overrides.log_color.is_some() {
        cfg.log = Some(log);
    }
}

/// Whether colours are on: as the configuration forces them, or else as
/// the terminal takes them.
pub fn colors_enabled(cfg: &Config, detected: bool) -> (r: bool)
    ensures
        r == match cfg@.log_or_default().color {
            Some(forced) => forced,
            None => detected,
        },
{
    match cfg.log().color() {
        Some(forced) => forced,
        None => detected,
    }
}

/// Whether a slug is among those to apply.
pub open spec fn slug_enabled(slug: Seq<char>, mutations: Option<Seq<Seq<char>>>) -> bool {
    match mutations {
        Some(list) => list.contains(slug),
        None => true,
    }
}

/// Whether a slug is among those to apply. Without a list, every slug is.
pub fn is_slug_enabled(slug: &str, mutations: Option<&[String]>) -> (r: bool)
    ensures
        r == slug_enabled(
            slug@,
            match mutations {
                Some(list) => Some(text_views(list@)),
                None => None,
            },
        ),
{
    match mutations {
        None => true,
        Some(list) => {
            let mut at: usize = 0;
            while at < list.len()
                invariant
                    mutations == Some(list),
                    0 <= at <= list@.len(),
                    forall|i: int| 0 <= i < at ==> (#[trigger] text_views(list@)[i]) != slug@,
                decreases list@.len() - at,
            {
                if str_eq(list[at].as_str(), slug) {
                    assert(text_views(list@)[at as int] == slug@);
                    assert(text_views(list@).contains(slug@));
                    return true;
                }
                at += 1;
            }
            false
        },
    }
}

/// Whether a path holds one of the patterns that is not empty.
pub open spec fn path_excluded(path: Seq<char>, patterns: Seq<Seq<char>>) -> bool {
    exists|i: int|
        0 <= i < patterns.len() && (#[trigger] patterns[i]).len() > 0 && contains_bytes(
            bytes_of(path),
            bytes_of(patterns[i]),
        )
}

/// Whether a path is to be passed over: it holds one of the patterns.
/// Empty patterns exclude nothing.
pub fn is_path_excluded(path: &str, ignore_patterns: &[String]) -> (r: bool)
    ensures
        r == path_excluded(path@, text_views(ignore_patterns@)),
{
    let mut at: usize = 0;
    while at < ignore_patterns.len()
        invariant
            0 <= at <= ignore_patterns@.len(),
            forall|i: int|
                0 <= i < at ==> !((#[trigger] text_views(ignore_patterns@)[i]).len() > 0
                    && contains_bytes(bytes_of(path@), bytes_of(text_views(ignore_patterns@)[i]))),
        decreases ignore_patterns@.len() - at,
    {
        let pattern = ignore_patterns[at].as_str();
        assert(text_views(ignore_patterns@)[at as int] == pattern@);
        if pattern.unicode_len() > 0 && str_contains(path, pattern) {
            return true;
        }
        at += 1;
    }
    false
}

/// The longest glob, in bytes, that is read as a glob: as long as a path
/// can be. A longer one matches nothing.
pub const MAX_GLOB_BYTES: usize = 4096;

/// Whether a glob of globset matches a path; a pattern that is no glob,
/// or that globset cannot compile, matches nothing. The answer depends on
/// the two texts alone, for the platform that the library is built for:
/// globset reads `\` as an escape where `/` alone separates the parts of
/// a path.
pub uninterp spec fn glob_accepts(pattern: Seq<char>, path: Seq<char>) -> bool;

/// `Glob::new`, `GlobSetBuilder::add`, `GlobSetBuilder::build` and
/// `GlobSet::is_match` of globset: whether the glob matches the path,
/// and `false` where the pattern is no glob or globset cannot compile
/// it. What a glob matches is not spelled out here; it has the name
/// `glob_accepts`. Globs longer than a path can be are left out: for
/// the tables of a glob globset takes for granted that they can be
/// made, and nests its work as deep as the glob nests its braces.
#[verifier::external_body]
fn glob_matches(pattern: &str, path: &str) -> (r: bool)
    requires
        bytes_of(pattern@).len() <= MAX_GLOB_BYTES,
    ensures
        r == glob_accepts(pattern@, path@),
{
    match globset::Glob::new(pattern) {
        Ok(glob) => match globset::GlobSetBuilder::new().add(glob).build() {
            Ok(set) => set.is_match(path),
            Err(_) => false,
        },
        Err(_) => false,
    }
}

/// Whether a glob matches a path: it is no longer than a path can be,
/// and globset matches the path against it.
pub open spec fn glob_holds(pattern: Seq<char>, path: Seq<char>) -> bool {
    bytes_of(pattern).len() <= MAX_GLOB_BYTES && glob_accepts(pattern, path)
}

/// Whether a glob matches a path. A pattern that is no glob matches
/// nothing, and so does one that is longer than a path can be.
pub fn matches_glob(pattern: &str, path: &str) -> (r: bool)
    ensures
        r == glob_holds(pattern@, path@),
{
    if pattern.as_bytes().len() > MAX_GLOB_BYTES {
        false
    } else {
        glob_matches(pattern, path)
    }
}

/// The first of the rules, from place `from` on, that matches and names
/// a command.
pub open spec fn deciding_rule(
    rules: Seq<PerTargetTestRuleView>,
    matches: Seq<bool>,
    from: int,
) -> Option<PerTargetTestRuleView>
    decreases rules.len() - from,
{
    if from < 0 || from >= rules.len() || from >= matches.len() {
        None
    } else if matches[from] && rules[from].cmd is Some {
        Some(rules[from])
    } else {
        deciding_rule(rules, matches, from + 1)
    }
}

/// The first of two optional values that is there.
pub open spec fn first_of<T>(first: Option<T>, second: Option<T>) -> Option<T> {
    if first is Some {
        first
    } else {
        second
    }
}

/// The test command and deadline for a path, given which rules match
/// it. The command is the one already resolved where it is not blank;
/// else that of the first rule that matches and names a command; else
/// that of `[test]`. The deadline is the one already resolved; else
/// that of that rule; else that of `[test]`; else there is none.
pub open spec fn chosen_test(
    test: TestConfigView,
    matches: Seq<bool>,
    resolved_cmd: Option<Seq<char>>,
    resolved_timeout: Option<u32>,
) -> (Option<Seq<char>>, Option<u32>) {
    let rules = match test.per_target {
        Some(rules) => rules,
        None => Seq::empty(),
    };
    let rule = deciding_rule(rules, matches, 0);
    let timeout = first_of(
        resolved_timeout,
        match rule {
            Some(rule) => first_of(rule.timeout, test.timeout),
            None => test.timeout,
        },
    );
    if resolved_cmd is Some && !is_blank(resolved_cmd->0) {
        (resolved_cmd, timeout)
    } else {
        match rule {
            Some(rule) => (rule.cmd, timeout),
            None => (test.cmd, timeout),
        }
    }
}

/// The first of the rules that matches and names a command.
fn find_deciding<'a>(rules: &'a [PerTargetTestRule], matches: &Vec<bool>) -> (r: Option<
    &'a PerTargetTestRule,
>)
    ensures
        match r {
            Some(rule) => deciding_rule(rule_views(rules@), matches@, 0) == Some(rule@),
            None => deciding_rule(rule_views(rules@), matches@, 0) is None,
        },
{
    let mut at: usize = 0;
    while at < rules.len() && at < matches.len()
        invariant
            0 <= at <= rules@.len(),
            deciding_rule(rule_views(rules@), matches@, 0) == deciding_rule(
                rule_views(rules@),
                matches@,
                at as int,
            ),
        decreases rules@.len() - at,
    {
        assert(rule_views(rules@)[at as int] == rules@[at as int]@);
        if matches[at] && rules[at].cmd.is_some() {
            return Some(&rules[at]);
        }
        at += 1;
    }
    None
}

/// The test command and deadline for a path, given for each rule of
/// `[test]` whether its glob matches the path.
pub fn choose_test(
    test: &TestConfig,
    matches: &Vec<bool>,
    resolved_cmd: Option<&str>,
    resolved_timeout: Option<u32>,
) -> (r: (Option<String>, Option<u32>))
    ensures
        (said(r.0), r.1) == chosen_test(
            test@,
            matches@,
            match resolved_cmd {
                Some(cmd) => Some(cmd@),
                None => None,
            },
            resolved_timeout,
        ),
{
    let rule = find_deciding(test.per_target(), matches);
    let timeout = if resolved_timeout.is_some() {
        resolved_timeout
    } else {
        match rule {
            Some(rule) => if rule.timeout.is_some() {
                rule.timeout
            } else {
                test.timeout
            },
            None => test.timeout,
        }
    };
    match resolved_cmd {
        Some(cmd) => {
            if !blank(cmd) {
                return (Some(cmd.to_string()), timeout);
            }
        },
        None => {},
    }
    match rule {
        Some(rule) => (copy_text(&rule.cmd), timeout),
        None => (copy_text(&test.cmd), timeout),
    }
}

/// For each of the rules, whether its glob matches the path.
pub open spec fn rule_matches(rules: Seq<PerTargetTestRuleView>, path: Seq<char>) -> Seq<bool> {
    rules.map_values(|rule: PerTargetTestRuleView| glob_holds(rule.glob, path))
}

/// The test command and timeout for the target at `path`.
pub fn resolve_test_for_path(
    test: &TestConfig,
    path: &str,
    resolved_cmd: Option<&str>,
    resolved_timeout: Option<u32>,
) -> (r: (Option<String>, Option<u32>))
    ensures
        (said(r.0), r.1) == chosen_test(
            test@,
            rule_matches(test.rules(), path@),
            match resolved_cmd {
                Some(cmd) => Some(cmd@),
                None => None,
            },
            resolved_timeout,
        ),
{
    let rules = test.per_target();
    let mut matches: Vec<bool> = Vec::new();
    let mut at: usize = 0;
    while at < rules.len()
        invariant
            0 <= at <= rules@.len(),
            rule_views(rules@) == test.rules(),
            matches@.len() == at,
            forall|i: int|
                0 <= i < at ==> (#[trigger] matches@[i]) == glob_holds(
                    test.rules()[i].glob,
                    path@,
                ),
        decreases rules@.len() - at,
    {
        assert(rule_views(rules@)[at as int] == rules@[at as int]@);
        matches.push(matches_glob(rules[at].glob.as_str(), path));
        at += 1;
    }
    assert(matches@ =~= rule_matches(test.rules(), path@));
    choose_test(test, &matches, resolved_cmd, resolved_timeout)
}

} // verus!
