//! What the program decides once the command line is read: what the
//! command line says of the configuration, which targets a run takes in,
//! and the code with which the program ends.

use crate::chars::{said, text_views};
use crate::cli::{Args, ResultsArgs, RunArgs};
use crate::cmds::results::ResultsFilters;
use crate::types::config::{copy_text, CliOverrides, Config, ConfigError, ResolvedTargets};
use vstd::prelude::*;
use vstd::string::*;

verus! {

/// What the command line says of the configuration.
pub fn cli_overrides(args: &Args) -> (r: CliOverrides)
    ensures
        said(r.db) == said(args.db),
        said(r.log_level) == said(args.log_level),
        said(r.log_color) == said(args.log_color),
{
    CliOverrides {
        db: copy_text(&args.db),
        log_level: copy_text(&args.log_level),
        log_color: copy_text(&args.log_color),
    }
}

/// The string under which the database is opened.
pub fn connection_string(db_path: &str) -> (r: String)
    ensures
        r@ == "sqlite:"@ + db_path@,
{
    let mut connection = "sqlite:".to_string();
    connection.append(db_path);
    connection
}

/// The targets that a run takes in: those that command line and
/// configuration name, where the command line names targets or what to
/// ignore; and none, which stands for testing what the catalog holds,
/// where it names neither.
pub fn run_targets(config: &Config, run_args: &RunArgs) -> (r: Result<
    Option<ResolvedTargets>,
    ConfigError,
>)
    ensures
        run_args.targets@.len() == 0 && run_args.ignore_targets is None ==> r == Ok::<
            Option<ResolvedTargets>,
            ConfigError,
        >(None),
        !(run_args.targets@.len() == 0 && run_args.ignore_targets is None) ==> match config@.included(
            text_views(run_args.targets@),
        ) {
            None => r == Err::<Option<ResolvedTargets>, ConfigError>(ConfigError::NoTargets),
            Some(includes) => r is Ok && r->Ok_0 is Some && text_views(r->Ok_0->0.includes@)
                == includes && text_views(r->Ok_0->0.ignore@) == config@.ignored(
                said(run_args.ignore_targets),
            ),
        },
{
    if run_args.targets.len() == 0 && run_args.ignore_targets.is_none() {
        return Ok(None);
    }
    let ignore: Option<&str> = match &run_args.ignore_targets {
        Some(list) => Some(list.as_str()),
        None => None,
    };
    match config.resolve_targets(run_args.targets.as_slice(), ignore) {
        Ok(resolved) => Ok(Some(resolved)),
        Err(error) => Err(error),
    }
}

/// The code with which a run ends: 2 where a campaign was under way and
/// was interrupted, and 0 otherwise, however many mutants went uncaught.
pub fn exit_code(campaign_ran: bool, running: bool) -> (r: i32)
    ensures
        r == if campaign_ran && !running {
            2i32
        } else {
            0i32
        },
{
    if campaign_ran && !running {
        2
    } else {
        0
    }
}

/// What `results` is asked to show, by what the command line says.
pub fn results_filters(args: ResultsArgs) -> (r: ResultsFilters)
    ensures
        said(r.target) == said(args.target),
        r.verbose == args.verbose,
        r.id == args.id,
        r.all == args.all,
        said(r.status) == said(args.status),
        said(r.language) == said(args.language),
        said(r.mutation_type) == said(args.mutation_type),
        r.line == args.line,
        said(r.file) == said(args.file),
        r.format@ == args.format@,
{
    ResultsFilters {
        target: args.target,
        verbose: args.verbose,
        id: args.id,
        all: args.all,
        status: args.status,
        language: args.language,
        mutation_type: args.mutation_type,
        line: args.line,
        file: args.file,
        format: args.format,
    }
}

} // verus!
