//! What the command line says, as plain values.

use vstd::prelude::*;

verus! {

/// The command line.
#[derive(Debug, Clone)]
pub struct Args {
    /// The directory against which paths are read and in which the tests
    /// run.
    pub cwd: Option<String>,
    /// The path of the database.
    pub db: Option<String>,
    /// The level of the log.
    pub log_level: Option<String>,
    /// `on` or `off`.
    pub log_color: Option<String>,
    pub command: Commands,
}

/// The commands.
#[derive(Debug, Clone)]
pub enum Commands {
    /// Write a configuration file and make the database.
    Init,
    /// Run a campaign.
    Run(RunArgs),
    /// Make and save the mutants of targets, and run no tests.
    Mutate(MutateArgs),
    /// Remove the targets whose files are gone or changed.
    Clean,
    /// Show outcomes.
    Results(ResultsArgs),
    /// Print what the catalog and the rulebooks hold.
    Print { command: PrintArgs },
    /// Show how far the campaign is.
    Status(StatusArgs),
    /// Test mutants by their ids.
    Test(TestArgs),
    /// Remove targets with their mutants and outcomes.
    Purge(PurgeArgs),
}

/// What `run` takes.
#[derive(Debug, Clone)]
pub struct RunArgs {
    /// Files or directories to mutate; none stands for: test what the
    /// catalog holds.
    pub targets: Vec<String>,
    /// Texts, between commas, that the path of no target may hold.
    pub ignore_targets: Option<String>,
    /// Slugs, between commas, to apply.
    pub mutations: Option<String>,
    pub test_cmd: Option<String>,
    /// The deadline of a test run in seconds.
    pub test_timeout: Option<u32>,
    /// Whether no mutant is skipped for its severity.
    pub comprehensive: bool,
    /// Whether the output of the baseline is shown.
    pub verbose: bool,
}

/// What `mutate` takes.
#[derive(Debug, Clone)]
pub struct MutateArgs {
    pub targets: Vec<String>,
    pub ignore_targets: Option<String>,
}

/// What the listing of mutations takes.
#[derive(Debug, Clone)]
pub struct ListMutationsArgs {
    pub language: Option<String>,
}

/// What the listing of outcomes takes.
#[derive(Debug, Clone)]
pub struct ListOutcomesArgs {
    pub target: Option<String>,
}

/// What `print` prints.
#[derive(Debug, Clone)]
pub enum PrintArgs {
    Mutations(PrintMutationsArgs),
    Targets(PrintTargetsArgs),
    Mutant(PrintMutantArgs),
    Mutants(PrintMutantsArgs),
    Config(PrintConfigArgs),
}

/// What `print targets` takes.
#[derive(Debug, Clone)]
pub struct PrintTargetsArgs {
    /// `table` or `json`.
    pub format: String,
}

/// What `print mutations` takes.
#[derive(Debug, Clone)]
pub struct PrintMutationsArgs {
    pub language: Option<String>,
    pub format: String,
}

/// What `print config` takes.
#[derive(Debug, Clone)]
pub struct PrintConfigArgs {
    pub format: String,
}

/// What `results` takes.
#[derive(Debug, Clone)]
pub struct ResultsArgs {
    pub target: Option<String>,
    pub verbose: bool,
    pub id: Option<i64>,
    pub all: bool,
    pub status: Option<String>,
    pub language: Option<String>,
    pub mutation_type: Option<String>,
    pub line: Option<u32>,
    pub file: Option<String>,
    /// `table`, `ids`, `json` or `sarif`.
    pub format: String,
}

/// What `print mutant` takes.
#[derive(Debug, Clone)]
pub struct PrintMutantArgs {
    pub id: i64,
}

/// What `print mutants` takes.
#[derive(Debug, Clone)]
pub struct PrintMutantsArgs {
    pub target: Option<String>,
    pub line: Option<u32>,
    pub file: Option<String>,
    pub mutation_type: Option<String>,
    pub tested: bool,
    pub untested: bool,
    /// `table`, `ids` or `json`.
    pub format: String,
}

/// What `test` takes.
#[derive(Debug, Clone)]
pub struct TestArgs {
    /// Ids of mutants, between commas.
    pub ids: Option<String>,
    /// A file of ids, or `-` for the standard input; it goes before
    /// `ids`.
    pub ids_file: Option<String>,
    pub test_cmd: Option<String>,
    pub test_timeout: Option<u32>,
    pub verbose: bool,
}

/// What `purge` takes.
#[derive(Debug, Clone)]
pub struct PurgeArgs {
    /// The target to purge; none stands for all.
    pub target: Option<String>,
}

/// What `status` takes.
#[derive(Debug, Clone)]
pub struct StatusArgs {
    pub format: String,
}

} // verus!
