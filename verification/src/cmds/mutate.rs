//! Making the mutants of targets and saving them.

use crate::cmds::status::capped;
use crate::engine::parser::syntax_of;
use crate::engine::rules::mutant_views;
use crate::engine::traits::LanguageEngine;
use crate::registry::{lemma_named_from, named_from, LanguageRegistry};
use crate::store::{mutant_with_id, Catalog, SqlStore};
use crate::types::mutant::{Mutant, MutantView};
use crate::types::target::{generated, slugs_said, Target};
use vstd::prelude::*;

verus! {

/// What came of making mutants.
#[derive(Debug, Clone, Copy, PartialEq, Eq, Structural)]
pub struct MutateSummary {
    /// The mutants that the rulebooks proposed.
    pub generated: usize,
    /// Those among them that the catalog did not hold yet.
    pub saved: usize,
    /// The targets for whose language no rulebook is registered.
    pub failed_targets: usize,
}

/// The catalog once the first `upto` of the mutants are added, in their
/// order. A mutant for which no id is left is passed over.
pub open spec fn saved_in(catalog: Catalog, mutants: Seq<MutantView>, upto: int) -> Catalog
    decreases upto,
{
    if upto <= 0 {
        catalog
    } else {
        let before = saved_in(catalog, mutants, upto - 1);
        if before.last_mutant_id < i64::MAX {
            before.with_mutant(mutants[upto - 1])
        } else {
            before
        }
    }
}

/// Those among the first `upto` of the mutants that the catalog did not
/// hold at their turn, each under the id that it got.
pub open spec fn newly_saved(catalog: Catalog, mutants: Seq<MutantView>, upto: int) -> Seq<
    MutantView,
>
    decreases upto,
{
    if upto <= 0 {
        Seq::empty()
    } else {
        let before = saved_in(catalog, mutants, upto - 1);
        let earlier = newly_saved(catalog, mutants, upto - 1);
        if !before.knows_edit(mutants[upto - 1]) && before.last_mutant_id < i64::MAX {
            earlier.push(mutant_with_id(mutants[upto - 1], (before.last_mutant_id + 1) as i64))
        } else {
            earlier
        }
    }
}

/// Adding mutants keeps the keys of the catalog, its targets, its
/// outcomes and the mutants that it held; what it holds more are the new
/// mutants, which it knows, under ids that it had not given out.
pub proof fn lemma_saved_in(catalog: Catalog, mutants: Seq<MutantView>, upto: int)
    requires
        catalog.wf(),
        0 <= upto <= mutants.len(),
    ensures
        saved_in(catalog, mutants, upto).wf(),
        saved_in(catalog, mutants, upto).targets == catalog.targets,
        saved_in(catalog, mutants, upto).outcomes == catalog.outcomes,
        catalog.last_mutant_id <= saved_in(catalog, mutants, upto).last_mutant_id,
        saved_in(catalog, mutants, upto).mutants.len() == catalog.mutants.len() + newly_saved(
            catalog,
            mutants,
            upto,
        ).len(),
        forall|k: int|
            0 <= k < catalog.mutants.len() ==> saved_in(catalog, mutants, upto).mutants[k]
                == #[trigger] catalog.mutants[k],
        forall|i: int|
            0 <= i < newly_saved(catalog, mutants, upto).len() ==> {
                let new = #[trigger] newly_saved(catalog, mutants, upto)[i];
                &&& saved_in(catalog, mutants, upto).knows_edit(new)
                &&& catalog.last_mutant_id < new.id <= saved_in(
                    catalog,
                    mutants,
                    upto,
                ).last_mutant_id
            },
    decreases upto,
{
    if upto > 0 {
        lemma_saved_in(catalog, mutants, upto - 1);
        let before = saved_in(catalog, mutants, upto - 1);
        let after = saved_in(catalog, mutants, upto);
        let earlier = newly_saved(catalog, mutants, upto - 1);
        let mutant = mutants[upto - 1];
        if before.last_mutant_id < i64::MAX {
            crate::store::lemma_with_mutant_wf(before, mutant);
            crate::store::lemma_mutant_idempotent(before, mutant);
            assert forall|i: int| 0 <= i < newly_saved(catalog, mutants, upto).len() implies {
                let new = #[trigger] newly_saved(catalog, mutants, upto)[i];
                &&& after.knows_edit(new)
                &&& catalog.last_mutant_id < new.id <= after.last_mutant_id
            } by {
                let new = newly_saved(catalog, mutants, upto)[i];
                if i < earlier.len() {
                    assert(new == earlier[i]);
                    lemma_known_stays(before, mutant, new);
                } else {
                    assert(new.same_edit(mutant));
                    lemma_same_edit_known(after, mutant, new);
                }
            }
        }
    }
}

/// What the catalog knows, it knows still once mutants are added.
pub proof fn lemma_known_after_saving(
    catalog: Catalog,
    mutants: Seq<MutantView>,
    upto: int,
    known: MutantView,
)
    requires
        catalog.knows_edit(known),
        0 <= upto <= mutants.len(),
    ensures
        saved_in(catalog, mutants, upto).knows_edit(known),
    decreases upto,
{
    if upto > 0 {
        lemma_known_after_saving(catalog, mutants, upto - 1, known);
        let before = saved_in(catalog, mutants, upto - 1);
        if before.last_mutant_id < i64::MAX {
            lemma_known_stays(before, mutants[upto - 1], known);
        }
    }
}

/// Adds the mutants to the catalog, in their order. Those that the
/// catalog did not hold come back, each under the id that it got.
pub fn save_mutants(store: &mut SqlStore, mutants: &Vec<Mutant>) -> (r: Vec<Mutant>)
    requires
        old(store).wf(),
    ensures
        final(store).wf(),
        final(store)@ == saved_in(old(store)@, mutant_views(mutants@), mutants@.len() as int),
        mutant_views(r@) == newly_saved(
            old(store)@,
            mutant_views(mutants@),
            mutants@.len() as int,
        ),
{
    let ghost first = store@;
    let ghost rows = mutant_views(mutants@);
    let mut added: Vec<Mutant> = Vec::new();
    let mut at: usize = 0;
    assert(mutant_views(added@) =~= Seq::<MutantView>::empty());
    while at < mutants.len()
        invariant
            0 <= at <= mutants@.len(),
            first == old(store)@,
            rows == mutant_views(mutants@),
            store.wf(),
            store@ == saved_in(first, rows, at as int),
            mutant_views(added@) == newly_saved(first, rows, at as int),
        decreases mutants@.len() - at,
    {
        let mutant = &mutants[at];
        assert(rows[at as int] == mutant@);
        match store.add_mutant(mutant.copy()) {
            Ok(Some(id)) => {
                let mut saved = mutant.copy();
                saved.id = id;
                assert(saved@ == mutant_with_id(mutant@, id));
                assert(mutant_views(added@.push(saved)) =~= mutant_views(added@).push(saved@));
                added.push(saved);
            },
            _ => {},
        }
        at += 1;
    }
    added
}

/// How many of the first `upto` targets are of a language for which no
/// rulebook is registered.
pub open spec fn without_engine(targets: Seq<Target>, registry: LanguageRegistry, upto: int) -> nat
    decreases upto,
{
    if upto <= 0 {
        0
    } else {
        let before = without_engine(targets, registry, upto - 1);
        if named_from(registry@, targets[upto - 1].language@, 0) == registry@.len() {
            before + 1
        } else {
            before
        }
    }
}

/// Whether the mutants are those that come of a target: what `generated`
/// names for the rulebook of its language, and none where no rulebook is
/// registered for the language.
pub open spec fn comes_of(
    registry: LanguageRegistry,
    target: Target,
    slugs: Option<Seq<Seq<char>>>,
    mutants: Seq<MutantView>,
) -> bool {
    let place = named_from(registry@, target.language@, 0);
    if place < registry@.len() {
        generated(
            syntax_of(registry@[place].grammar_for(target), target.text@),
            target,
            registry@[place].table(),
            registry@[place].rulebook(),
            slugs,
            mutants,
        )
    } else {
        mutants.len() == 0
    }
}

/// The catalog once the mutants made for the first `upto` targets are
/// saved, target by target.
pub open spec fn saved_all(catalog: Catalog, made: Seq<Seq<MutantView>>, upto: int) -> Catalog
    decreases upto,
{
    if upto <= 0 {
        catalog
    } else {
        saved_in(saved_all(catalog, made, upto - 1), made[upto - 1], made[upto - 1].len() as int)
    }
}

/// Those among the mutants made for the first `upto` targets that the
/// catalog did not hold at their turn, each under the id that it got, in
/// the order in which they were made.
pub open spec fn new_among(catalog: Catalog, made: Seq<Seq<MutantView>>, upto: int) -> Seq<
    MutantView,
>
    decreases upto,
{
    if upto <= 0 {
        Seq::empty()
    } else {
        new_among(catalog, made, upto - 1) + newly_saved(
            saved_all(catalog, made, upto - 1),
            made[upto - 1],
            made[upto - 1].len() as int,
        )
    }
}

/// How many mutants were made for the first `upto` targets.
pub open spec fn count_made(made: Seq<Seq<MutantView>>, upto: int) -> nat
    decreases upto,
{
    if upto <= 0 {
        0
    } else {
        count_made(made, upto - 1) + made[upto - 1].len()
    }
}

/// Whether `made` holds what was made for each target, and the catalog,
/// the new mutants and the count are what comes of saving that, target by
/// target.
pub open spec fn mutated(
    before: Catalog,
    registry: LanguageRegistry,
    targets: Seq<Target>,
    slugs: Option<Seq<Seq<char>>>,
    made: Seq<Seq<MutantView>>,
    after: Catalog,
    new: Seq<MutantView>,
    generated: usize,
) -> bool {
    &&& made.len() == targets.len()
    &&& forall|i: int|
        0 <= i < targets.len() ==> comes_of(registry, #[trigger] targets[i], slugs, made[i])
    &&& after == saved_all(before, made, targets.len() as int)
    &&& new == new_among(before, made, targets.len() as int)
    &&& generated == capped(count_made(made, targets.len() as int))
}

/// What is saved and counted for the first targets does not depend on
/// what is made for later ones.
pub proof fn lemma_made_so_far(
    catalog: Catalog,
    made: Seq<Seq<MutantView>>,
    more: Seq<Seq<MutantView>>,
    upto: int,
)
    requires
        0 <= upto <= made.len(),
        upto <= more.len(),
        forall|i: int| 0 <= i < upto ==> made[i] == more[i],
    ensures
        saved_all(catalog, made, upto) == saved_all(catalog, more, upto),
        new_among(catalog, made, upto) == new_among(catalog, more, upto),
        count_made(made, upto) == count_made(more, upto),
    decreases upto,
{
    if upto > 0 {
        lemma_made_so_far(catalog, made, more, upto - 1);
    }
}

/// Makes the mutants of each target and adds them to the catalog, target
/// by target. The new mutants come back, each under the id that the
/// catalog gave it, and with them the counts: the mutants that were
/// made, as far as `usize` reaches, those that were new, and the targets
/// for whose language no rulebook is registered, which are passed over.
pub fn execute_mutate(
    store: &mut SqlStore,
    registry: &LanguageRegistry,
    targets: &Vec<Target>,
    mutations: Option<&[String]>,
) -> (r: (MutateSummary, Vec<Mutant>))
    requires
        old(store).wf(),
    ensures
        final(store).wf(),
        final(store)@.targets == old(store)@.targets,
        final(store)@.outcomes == old(store)@.outcomes,
        exists|made: Seq<Seq<MutantView>>| #[trigger]
            mutated(
                old(store)@,
                *registry,
                targets@,
                slugs_said(mutations),
                made,
                final(store)@,
                mutant_views(r.1@),
                r.0.generated,
            ),
        r.0.saved == r.1@.len(),
        r.0.saved <= r.0.generated || r.0.generated == usize::MAX,
        r.0.failed_targets == without_engine(targets@, *registry, targets@.len() as int),
        forall|i: int|
            0 <= i < r.1@.len() ==> final(store)@.knows_edit((#[trigger] r.1@[i])@)
                && old(store)@.last_mutant_id < r.1@[i].id <= final(store)@.last_mutant_id,
        old(store)@.mutants.len() + r.1@.len() == final(store)@.mutants.len(),
        forall|k: int|
            0 <= k < old(store)@.mutants.len() ==> final(store)@.mutants[k] == old(
                store,
            )@.mutants[k],
{
    let mut summary = MutateSummary { generated: 0, saved: 0, failed_targets: 0 };
    let mut added: Vec<Mutant> = Vec::new();
    let mut at: usize = 0;
    let ghost mut made: Seq<Seq<MutantView>> = Seq::empty();
    assert(mutant_views(added@) =~= Seq::<MutantView>::empty());
    while at < targets.len()
        invariant
            0 <= at <= targets@.len(),
            made.len() == at,
            forall|i: int|
                0 <= i < at ==> comes_of(
                    *registry,
                    #[trigger] targets@[i],
                    slugs_said(mutations),
                    made[i],
                ),
            store@ == saved_all(old(store)@, made, at as int),
            mutant_views(added@) == new_among(old(store)@, made, at as int),
            summary.generated == capped(count_made(made, at as int)),
            store.wf(),
            store@.targets == old(store)@.targets,
            store@.outcomes == old(store)@.outcomes,
            summary.failed_targets == without_engine(targets@, *registry, at as int),
            summary.failed_targets <= at,
            added@.len() <= summary.generated || summary.generated == usize::MAX,
            old(store)@.last_mutant_id <= store@.last_mutant_id,
            old(store)@.mutants.len() + added@.len() == store@.mutants.len(),
            forall|k: int|
                0 <= k < old(store)@.mutants.len() ==> store@.mutants[k] == old(store)@.mutants[k],
            forall|i: int|
                0 <= i < added@.len() ==> store@.knows_edit((#[trigger] added@[i])@) && old(
                    store,
                )@.last_mutant_id < added@[i].id <= store@.last_mutant_id,
        decreases targets@.len() - at,
    {
        let ghost named = named_from(registry@, targets@[at as int].language@, 0);
        proof {
            lemma_named_from(registry@, targets@[at as int].language@, 0);
        }
        match targets[at].generate_mutants(registry, mutations) {
            Err(_) => {
                assert(named == registry@.len());
                summary.failed_targets += 1;
                proof {
                    let none = Seq::<MutantView>::empty();
                    let more = made.push(none);
                    lemma_made_so_far(old(store)@, made, more, at as int);
                    assert(more[at as int] == none);
                    assert(new_among(old(store)@, more, at + 1) =~= new_among(
                        old(store)@,
                        made,
                        at as int,
                    ));
                    made = more;
                }
            },
            Ok(mutants) => {
                assert(named != registry@.len());
                let ghost before = store@;
                let ghost rows = mutant_views(mutants@);
                let ghost was = added@;
                summary.generated = summary.generated.saturating_add(mutants.len());
                let mut new = save_mutants(store, &mutants);
                proof {
                    lemma_saved_in(before, rows, rows.len() as int);
                    lemma_newly_saved_few(before, rows, rows.len() as int);
                    assert forall|k: int| 0 <= k < old(store)@.mutants.len() implies store@.mutants[k]
                        == old(store)@.mutants[k] by {
                        assert(store@.mutants[k] == before.mutants[k]);
                    }
                    assert forall|i: int| 0 <= i < was.len() implies store@.knows_edit(
                        (#[trigger] was[i])@,
                    ) by {
                        lemma_known_after_saving(before, rows, rows.len() as int, was[i]@);
                    }
                    assert forall|i: int| 0 <= i < new@.len() implies store@.knows_edit(
                        (#[trigger] new@[i])@,
                    ) && before.last_mutant_id < new@[i].id <= store@.last_mutant_id by {
                        assert(mutant_views(new@)[i] == new@[i]@);
                    }
                    let more = made.push(rows);
                    lemma_made_so_far(old(store)@, made, more, at as int);
                    assert(more[at as int] == rows);
                    assert(mutant_views(was + new@) =~= mutant_views(was) + mutant_views(new@));
                    made = more;
                }
                added.append(&mut new);
            },
        }
        at += 1;
    }
    summary.saved = added.len();
    let ghost after = store@;
    let r = (summary, added);
    assert(mutated(
        old(store)@,
        *registry,
        targets@,
        slugs_said(mutations),
        made,
        after,
        mutant_views(r.1@),
        r.0.generated,
    ));
    r
}

/// No more mutants are new than there are mutants.
pub proof fn lemma_newly_saved_few(catalog: Catalog, mutants: Seq<MutantView>, upto: int)
    requires
        0 <= upto <= mutants.len(),
    ensures
        newly_saved(catalog, mutants, upto).len() <= upto,
    decreases upto,
{
    if upto > 0 {
        lemma_newly_saved_few(catalog, mutants, upto - 1);
    }
}

/// A mutant that makes the same edit as one that the catalog knows is
/// known to it.
pub proof fn lemma_same_edit_known(
    catalog: Catalog,
    mutant: MutantView,
    other: MutantView,
)
    requires
        catalog.knows_edit(mutant),
        other.same_edit(mutant),
    ensures
        catalog.knows_edit(other),
{
    crate::store::lemma_edit_place(catalog.mutants, mutant, 0);
    let at = crate::store::edit_place(catalog.mutants, mutant, 0);
    assert(catalog.mutants[at].same_edit(other));
    crate::store::lemma_edit_found(catalog.mutants, other, 0, at);
}

/// What the catalog knows, it knows still once a mutant is added.
pub proof fn lemma_known_stays(
    catalog: Catalog,
    mutant: MutantView,
    known: MutantView,
)
    requires
        catalog.knows_edit(known),
    ensures
        catalog.with_mutant(mutant).knows_edit(known),
{
    crate::store::lemma_edit_place(catalog.mutants, known, 0);
    let at = crate::store::edit_place(catalog.mutants, known, 0);
    let after = catalog.with_mutant(mutant);
    assert(after.mutants[at] == catalog.mutants[at]);
    crate::store::lemma_edit_found(after.mutants, known, 0, at);
}

} // verus!
