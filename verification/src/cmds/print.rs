//! Printing: what is to be printed, whether it needs the catalog, and
//! what is listed of targets, mutants and mutations.

use crate::chars::said;
use crate::cli::PrintArgs;
use crate::engine::rules::mutant_views;
use crate::store::{
    named_ids, pair_views, target_views, Catalog, MutantQuery, SqlStore, TargetPattern,
};
use crate::text::bytes_of;
use crate::types::mutant::{Mutant, MutantView};
use crate::types::target::{Target, TargetView};
use vstd::prelude::*;

verus! {

/// What is asked of the mutations that are printed.
#[derive(Debug, Clone)]
pub struct MutationsFilters {
    pub language: Option<String>,
    pub format: String,
}

/// What is asked of the mutants that are printed.
#[derive(Debug, Clone)]
pub struct MutantsFilters {
    pub target: Option<String>,
    pub line: Option<u32>,
    pub file: Option<String>,
    pub mutation_type: Option<String>,
    pub tested: bool,
    pub untested: bool,
    pub format: String,
}

impl MutantsFilters {
    /// Whether the mutants are picked by what they are, not target by
    /// target: a target, a line or a slug is asked for, or mutants with
    /// or without an outcome.
    pub open spec fn spec_uses_filters(&self) -> bool {
        self.target is Some || self.line is Some || self.mutation_type is Some || self.tested
            || self.untested
    }

    /// Whether the mutants are picked by what they are.
    #[verifier::when_used_as_spec(spec_uses_filters)]
    pub fn uses_filters(&self) -> (r: bool)
        ensures
            r == self.spec_uses_filters(),
    {
        self.target.is_some() || self.line.is_some() || self.mutation_type.is_some() || self.tested
            || self.untested
    }
}

/// What `print` prints.
#[derive(Debug, Clone)]
pub enum PrintCommand {
    /// The mutations of a language, or of all.
    Mutations(MutationsFilters),
    /// The targets, in this format.
    Targets(String),
    /// The text of a target with this mutant applied.
    Mutant(i64),
    /// The mutants.
    Mutants(MutantsFilters),
    /// The configuration as it holds, in this format.
    Config(String),
}

/// Why nothing is printed.
#[derive(Debug, Clone, Copy, PartialEq, Eq, Structural)]
pub enum PrintError {
    /// A mutant is to be printed, and there is no catalog.
    StoreForMutant,
    /// Mutants are to be listed, and there is no catalog.
    StoreForMutants,
    /// Targets are to be listed, and there is no catalog.
    StoreForTargets,
}

impl PrintError {
    /// The error as a message.
    pub fn to_string(&self) -> (r: String)
        ensures
            r@ == match self {
                PrintError::StoreForMutant => "Store is required for printing a mutant"@,
                PrintError::StoreForMutants => "Store is required for listing mutants"@,
                PrintError::StoreForTargets => "Store is required for listing targets"@,
            },
    {
        match self {
            PrintError::StoreForMutant => "Store is required for printing a mutant".to_string(),
            PrintError::StoreForMutants => "Store is required for listing mutants".to_string(),
            PrintError::StoreForTargets => "Store is required for listing targets".to_string(),
        }
    }
}

impl PrintCommand {
    /// Whether the command reads the catalog.
    pub open spec fn spec_needs_store(&self) -> bool {
        match self {
            PrintCommand::Mutations(_) => false,
            PrintCommand::Config(_) => false,
            _ => true,
        }
    }

    /// Whether the command reads the catalog.
    #[verifier::when_used_as_spec(spec_needs_store)]
    pub fn needs_store(&self) -> (r: bool)
        ensures
            r == self.spec_needs_store(),
    {
        match self {
            PrintCommand::Mutations(_) => false,
            PrintCommand::Config(_) => false,
            _ => true,
        }
    }

    /// What `print` prints, by what the command line says.
    pub fn from_args(args: PrintArgs) -> (r: PrintCommand)
        ensures
            match args {
                PrintArgs::Mutations(given) => r matches PrintCommand::Mutations(filters)
                    && said(filters.language) == said(given.language) && filters.format@
                    == given.format@,
                PrintArgs::Targets(given) => r matches PrintCommand::Targets(format) && format@
                    == given.format@,
                PrintArgs::Mutant(given) => r == PrintCommand::Mutant(given.id),
                PrintArgs::Mutants(given) => r matches PrintCommand::Mutants(filters)
                    && said(filters.target) == said(given.target) && filters.line == given.line
                    && said(filters.file) == said(given.file) && said(filters.mutation_type)
                    == said(given.mutation_type) && filters.tested == given.tested
                    && filters.untested == given.untested && filters.format@ == given.format@,
                PrintArgs::Config(given) => r matches PrintCommand::Config(format) && format@
                    == given.format@,
            },
    {
        match args {
            PrintArgs::Mutations(given) => PrintCommand::Mutations(
                MutationsFilters { language: given.language, format: given.format },
            ),
            PrintArgs::Targets(given) => PrintCommand::Targets(given.format),
            PrintArgs::Mutant(given) => PrintCommand::Mutant(given.id),
            PrintArgs::Mutants(given) => PrintCommand::Mutants(
                MutantsFilters {
                    target: given.target,
                    line: given.line,
                    file: given.file,
                    mutation_type: given.mutation_type,
                    tested: given.tested,
                    untested: given.untested,
                    format: given.format,
                },
            ),
            PrintArgs::Config(given) => PrintCommand::Config(given.format),
        }
    }
}

/// Whether a print command can go ahead: one that reads the catalog
/// cannot without one.
pub fn execute_print(command: &PrintCommand, has_store: bool) -> (r: Result<(), PrintError>)
    ensures
        has_store || !command.needs_store() ==> r is Ok,
        !has_store ==> match command {
            PrintCommand::Mutant(_) => r == Err::<(), PrintError>(PrintError::StoreForMutant),
            PrintCommand::Mutants(_) => r == Err::<(), PrintError>(PrintError::StoreForMutants),
            PrintCommand::Targets(_) => r == Err::<(), PrintError>(PrintError::StoreForTargets),
            _ => r is Ok,
        },
{
    if has_store {
        return Ok(());
    }
    match command {
        PrintCommand::Mutant(_) => Err(PrintError::StoreForMutant),
        PrintCommand::Mutants(_) => Err(PrintError::StoreForMutants),
        PrintCommand::Targets(_) => Err(PrintError::StoreForTargets),
        _ => Ok(()),
    }
}

/// A mutant with this target.
pub open spec fn beside(target: TargetView) -> spec_fn(MutantView) -> (MutantView, TargetView) {
    |mutant: MutantView| (mutant, target)
}

/// The mutants of the first `upto` of the targets, target by target,
/// each with its target.
pub open spec fn listed_mutants(catalog: Catalog, targets: Seq<TargetView>, upto: int) -> Seq<
    (MutantView, TargetView),
>
    decreases upto,
{
    if upto <= 0 {
        Seq::empty()
    } else {
        listed_mutants(catalog, targets, upto - 1) + catalog.mutants.filter(
            crate::store::of_target(targets[upto - 1].id),
        ).map_values(beside(targets[upto - 1]))
    }
}

/// The mutants that `print mutants` lists.
///
/// Where the mutants are picked by what they are: those that the catalog
/// lists for the line, the slug, the targets that `pattern` names, and
/// for having an outcome or none. Else: the mutants of `targets`, target
/// by target.
pub fn mutants_data(
    store: &SqlStore,
    filters: &MutantsFilters,
    pattern: Option<&TargetPattern>,
    targets: &Vec<Target>,
) -> (r: Vec<(Mutant, Target)>)
    ensures
        filters.uses_filters() ==> pair_views(r@) == store@.mutants.filter(
            store@.mutant_test(
                MutantQuery {
                    target_ids: match pattern {
                        Some(pattern) => Some(named_ids(store@.targets, *pattern)),
                        None => None,
                    },
                    line: filters.line,
                    slug: said(filters.mutation_type),
                    tested: filters.tested,
                    untested: filters.untested,
                },
            ),
        ).map_values(store@.with_its_target()),
        !filters.uses_filters() ==> pair_views(r@) == listed_mutants(
            store@,
            target_views(targets@),
            targets@.len() as int,
        ),
{
    if filters.uses_filters() {
        return store.get_mutants_filtered(
            pattern,
            filters.line,
            match &filters.mutation_type {
                Some(slug) => Some(slug.as_str()),
                None => None,
            },
            filters.tested,
            filters.untested,
        );
    }
    let ghost rows = target_views(targets@);
    let mut out: Vec<(Mutant, Target)> = Vec::new();
    let mut at: usize = 0;
    assert(pair_views(out@) =~= listed_mutants(store@, rows, 0));
    while at < targets.len()
        invariant
            0 <= at <= targets@.len(),
            rows == target_views(targets@),
            pair_views(out@) == listed_mutants(store@, rows, at as int),
        decreases targets@.len() - at,
    {
        let target = &targets[at];
        assert(rows[at as int] == target@);
        let mutants = store.get_mutants(target.id);
        let ghost before = pair_views(out@);
        let ghost own = mutant_views(mutants@);
        let ghost tell = beside(target@);
        let mut k: usize = 0;
        assert(pair_views(out@) =~= before + own.take(0).map_values(tell));
        while k < mutants.len()
            invariant
                0 <= k <= mutants@.len(),
                own == mutant_views(mutants@),
                tell == beside(target@),
                pair_views(out@) == before + own.take(k as int).map_values(tell),
            decreases mutants@.len() - k,
        {
            let entry = (mutants[k].copy(), target.copy());
            proof {
                assert(own[k as int] == mutants@[k as int]@);
                assert(own.take(k + 1) =~= own.take(k as int).push(own[k as int]));
                assert(pair_views(out@.push(entry)) =~= pair_views(out@).push(
                    (entry.0@, entry.1@),
                ));
                assert(own.take(k + 1).map_values(tell) =~= own.take(k as int).map_values(
                    tell,
                ).push(tell(own[k as int])));
            }
            out.push(entry);
            k += 1;
        }
        assert(own.take(own.len() as int) =~= own);
        at += 1;
    }
    out
}

/// What was found at the path of a target.
#[derive(Debug, Clone)]
pub enum FileState {
    /// Nothing is there.
    Missing,
    /// What is there cannot be read.
    Unreadable,
    /// A file with this text.
    Text(String),
}

/// How the file of a target stands to the target: `match` where it
/// holds the text that the target was made of, `modified` where it holds
/// another, `error reading` where it cannot be read, and
/// `no longer exists` where it is gone.
pub fn file_status(target: &Target, found: FileState) -> (r: &'static str)
    ensures
        r@ == match found {
            FileState::Missing => "no longer exists"@,
            FileState::Unreadable => "error reading"@,
            FileState::Text(text) => if crate::types::hash::sha256(bytes_of(text@))
                == target.file_hash@ {
                "match"@
            } else {
                "modified"@
            },
        },
{
    match found {
        FileState::Missing => "no longer exists",
        FileState::Unreadable => "error reading",
        FileState::Text(text) => {
            let current = crate::types::hash::Hash::digest(text);
            if current.same_as(&target.file_hash) {
                "match"
            } else {
                "modified"
            }
        },
    }
}

} // verus!
