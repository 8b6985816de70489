//! Planning a run: which test command and deadline hold for each
//! mutant, and which mutants share a baseline.

use crate::cmds::results::{by_offset, sort_by_offset};
use crate::cmds::test::{
    group_by_command, group_views, grouped, resolved_views, Group, Resolved, ResolvedView,
};
use crate::engine::rules::mutant_views;
use crate::store::{lemma_filter_step, target_of, Catalog, SqlStore};
use crate::types::config::{chosen_test, resolve_test_for_path, rule_matches, TestConfig};
use crate::types::mutant::{Mutant, MutantView};
use vstd::prelude::*;

verus! {

/// The test for the mutants whose target the catalog holds.
pub open spec fn has_target(catalog: Catalog) -> spec_fn(MutantView) -> bool {
    |mutant: MutantView| target_of(catalog.targets, mutant.target_id) is Some
}

/// A mutant with the test command and the deadline that hold for the
/// path of its target.
pub open spec fn resolved_for(
    catalog: Catalog,
    test: TestConfig,
    cli_cmd: Option<Seq<char>>,
    cli_timeout: Option<u32>,
) -> spec_fn(MutantView) -> ResolvedView {
    |mutant: MutantView|
        {
            let path = target_of(catalog.targets, mutant.target_id)->0.path;
            let chosen = chosen_test(test@, rule_matches(test.rules(), path), cli_cmd, cli_timeout);
            ResolvedView { mutant_id: mutant.id, command: chosen.0, timeout: chosen.1 }
        }
}

/// For each mutant whose target the catalog holds, the test command and
/// the deadline that hold for it: those of the command line, else those
/// of the first rule that matches the path of the target, else those of
/// `[test]`.
pub fn resolve_mutants(
    store: &SqlStore,
    test: &TestConfig,
    mutants: &Vec<Mutant>,
    cli_cmd: Option<&str>,
    cli_timeout: Option<u32>,
) -> (r: Vec<Resolved>)
    ensures
        resolved_views(r@) == mutant_views(mutants@).filter(has_target(store@)).map_values(
            resolved_for(
                store@,
                *test,
                match cli_cmd {
                    Some(cmd) => Some(cmd@),
                    None => None,
                },
                cli_timeout,
            ),
        ),
{
    let ghost rows = mutant_views(mutants@);
    let ghost keep = has_target(store@);
    let ghost tell = resolved_for(
        store@,
        *test,
        match cli_cmd {
            Some(cmd) => Some(cmd@),
            None => None,
        },
        cli_timeout,
    );
    let mut out: Vec<Resolved> = Vec::new();
    let mut at: usize = 0;
    proof {
        assert(rows.take(0) =~= Seq::<MutantView>::empty());
        reveal(Seq::filter);
        assert(resolved_views(out@) =~= rows.take(0).filter(keep).map_values(tell));
    }
    while at < mutants.len()
        invariant
            0 <= at <= mutants@.len(),
            rows == mutant_views(mutants@),
            keep == has_target(store@),
            tell == resolved_for(
                store@,
                *test,
                match cli_cmd {
                    Some(cmd) => Some(cmd@),
                    None => None,
                },
                cli_timeout,
            ),
            resolved_views(out@) == rows.take(at as int).filter(keep).map_values(tell),
        decreases mutants@.len() - at,
    {
        let row = &mutants[at];
        proof {
            assert(rows[at as int] == row@);
            lemma_filter_step(rows, at as int, keep);
        }
        match store.get_target(row.target_id) {
            Ok(target) => {
                let (command, timeout) = resolve_test_for_path(
                    test,
                    target.path.as_str(),
                    cli_cmd,
                    cli_timeout,
                );
                let entry = Resolved { mutant_id: row.id, command, timeout };
                proof {
                    let kept = rows.take(at as int).filter(keep);
                    assert(entry@ == tell(row@));
                    assert(kept.push(row@).map_values(tell) =~= kept.map_values(tell).push(
                        tell(row@),
                    ));
                    assert(resolved_views(out@.push(entry)) =~= resolved_views(out@).push(entry@));
                }
                out.push(entry);
            },
            Err(_) => {},
        }
        at += 1;
    }
    assert(rows.take(rows.len() as int) =~= rows);
    out
}

/// What a run has to do.
#[derive(Debug, Clone)]
pub struct RunPlan {
    /// The mutants to test, by the baseline that they share.
    pub groups: Vec<Group>,
    /// How many of the mutants have no outcome yet.
    pub untested: usize,
    /// How many ran into the deadline before and are tested again.
    pub retest: usize,
}

/// The plan of a run over all that the catalog holds: the mutants
/// without an outcome and those that ran into the deadline, in the order
/// of their offsets, by the test command and deadline that hold for
/// them. So the mutants of a target are tested from the start of its
/// text to its end.
pub fn plan_run(
    store: &SqlStore,
    test: &TestConfig,
    cli_cmd: Option<&str>,
    cli_timeout: Option<u32>,
) -> (r: RunPlan)
    ensures
        grouped(
            group_views(r.groups@),
            by_offset(store@.to_test()).filter(has_target(store@)).map_values(
                resolved_for(
                    store@,
                    *test,
                    match cli_cmd {
                        Some(cmd) => Some(cmd@),
                        None => None,
                    },
                    cli_timeout,
                ),
            ),
        ),
        r.untested == store@.mutants.filter(crate::store::untested(store@.outcomes)).len(),
        r.retest == store@.mutants.filter(
            crate::store::with_status(store@.outcomes, crate::types::outcome::Status::Timeout),
        ).len(),
{
    let (mutants, untested, retest) = store.get_mutants_to_test();
    let sorted = sort_by_offset(mutants);
    let resolved = resolve_mutants(store, test, &sorted, cli_cmd, cli_timeout);
    RunPlan { groups: group_by_command(&resolved), untested, retest }
}

/// The mutants with the first `upto` of the ids, as far as the catalog
/// holds them, in the order of the ids.
pub open spec fn known_mutants(catalog: Catalog, ids: Seq<i64>, upto: int) -> Seq<MutantView>
    decreases upto,
{
    if upto <= 0 {
        Seq::empty()
    } else {
        let rest = known_mutants(catalog, ids, upto - 1);
        match crate::store::mutant_of(catalog.mutants, ids[upto - 1]) {
            Some(mutant) => rest.push(mutant),
            None => rest,
        }
    }
}

/// The test for the ids that the catalog holds no mutant for.
pub open spec fn unknown(catalog: Catalog) -> spec_fn(i64) -> bool {
    |id: i64| crate::store::mutant_of(catalog.mutants, id) is None
}

/// The plan of a run over the mutants with these ids: those that the
/// catalog holds, with their targets, in the order of their offsets, by
/// the test command and deadline that hold for them. The ids that the
/// catalog does not hold come back beside the plan.
pub fn plan_test(
    store: &SqlStore,
    test: &TestConfig,
    ids: &Vec<i64>,
    cli_cmd: Option<&str>,
    cli_timeout: Option<u32>,
) -> (r: (Vec<Group>, Vec<i64>))
    ensures
        grouped(
            group_views(r.0@),
            by_offset(known_mutants(store@, ids@, ids@.len() as int)).filter(
                has_target(store@),
            ).map_values(
                resolved_for(
                    store@,
                    *test,
                    match cli_cmd {
                        Some(cmd) => Some(cmd@),
                        None => None,
                    },
                    cli_timeout,
                ),
            ),
        ),
        r.1@ == ids@.filter(unknown(store@)),
{
    let ghost missed = unknown(store@);
    let mut found: Vec<Mutant> = Vec::new();
    let mut missing: Vec<i64> = Vec::new();
    let mut at: usize = 0;
    proof {
        reveal(Seq::filter);
        assert(ids@.take(0) =~= Seq::<i64>::empty());
        assert(mutant_views(found@) =~= known_mutants(store@, ids@, 0));
    }
    while at < ids.len()
        invariant
            0 <= at <= ids@.len(),
            missed == unknown(store@),
            mutant_views(found@) == known_mutants(store@, ids@, at as int),
            missing@ == ids@.take(at as int).filter(missed),
        decreases ids@.len() - at,
    {
        proof {
            lemma_filter_step(ids@, at as int, missed);
        }
        match store.get_mutant(ids[at]) {
            Ok(mutant) => {
                assert(mutant_views(found@.push(mutant)) =~= mutant_views(found@).push(mutant@));
                found.push(mutant);
            },
            Err(_) => {
                missing.push(ids[at]);
            },
        }
        at += 1;
    }
    assert(ids@.take(ids@.len() as int) =~= ids@);
    let sorted = sort_by_offset(found);
    let resolved = resolve_mutants(store, test, &sorted, cli_cmd, cli_timeout);
    (group_by_command(&resolved), missing)
}

} // verus!
