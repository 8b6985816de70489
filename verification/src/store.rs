//! The catalog: the targets, mutants and outcomes of a campaign, held as
//! the rows of three tables with their keys. Adding a row twice changes
//! nothing, and a target is known by the hash of its text.

use crate::chars::text_views;
use crate::engine::rules::mutant_views;
use crate::text::{bytes_of, lemma_bytes_of_injective, str_eq};
use crate::types::error::StoreError;
use crate::types::mutant::{Mutant, MutantView};
use crate::types::outcome::{Outcome, OutcomeView, Status, Timestamp};
use crate::types::stats::{
    fared_views, tallies_of, tally_slugs, tally_views, CampaignSeverityStats, Fared, TargetStats,
};
use crate::types::target::{Target, TargetView};
use vstd::prelude::*;

verus! {

/// What the targets say.
pub open spec fn target_views(targets: Seq<Target>) -> Seq<TargetView> {
    targets.map_values(|target: Target| target@)
}

/// What the outcomes say.
pub open spec fn outcome_views(outcomes: Seq<Outcome>) -> Seq<OutcomeView> {
    outcomes.map_values(|outcome: Outcome| outcome@)
}

/// What a catalog holds: its rows in the order in which they came, and
/// the last id given out in each table.
pub struct Catalog {
    pub targets: Seq<TargetView>,
    pub mutants: Seq<MutantView>,
    pub outcomes: Seq<OutcomeView>,
    pub last_target_id: i64,
    pub last_mutant_id: i64,
}

/// The place of the first target with this hash, or the number of
/// targets where there is none.
pub open spec fn hash_place(targets: Seq<TargetView>, hash: Seq<u8>, from: int) -> int
    decreases targets.len() - from,
{
    if from < 0 || from >= targets.len() {
        targets.len() as int
    } else if targets[from].file_hash == hash {
        from
    } else {
        hash_place(targets, hash, from + 1)
    }
}

/// The place of the first target with this id, or the number of targets
/// where there is none.
pub open spec fn target_place(targets: Seq<TargetView>, id: i64, from: int) -> int
    decreases targets.len() - from,
{
    if from < 0 || from >= targets.len() {
        targets.len() as int
    } else if targets[from].id == id {
        from
    } else {
        target_place(targets, id, from + 1)
    }
}

/// The place of the first mutant that makes the same edit, or the number
/// of mutants where there is none.
pub open spec fn edit_place(mutants: Seq<MutantView>, mutant: MutantView, from: int) -> int
    decreases mutants.len() - from,
{
    if from < 0 || from >= mutants.len() {
        mutants.len() as int
    } else if mutants[from].same_edit(mutant) {
        from
    } else {
        edit_place(mutants, mutant, from + 1)
    }
}

/// The place of the first mutant with this id, or the number of mutants
/// where there is none.
pub open spec fn mutant_place(mutants: Seq<MutantView>, id: i64, from: int) -> int
    decreases mutants.len() - from,
{
    if from < 0 || from >= mutants.len() {
        mutants.len() as int
    } else if mutants[from].id == id {
        from
    } else {
        mutant_place(mutants, id, from + 1)
    }
}

/// The place of the first outcome of this mutant, or the number of
/// outcomes where there is none.
pub open spec fn outcome_place(outcomes: Seq<OutcomeView>, mutant_id: i64, from: int) -> int
    decreases outcomes.len() - from,
{
    if from < 0 || from >= outcomes.len() {
        outcomes.len() as int
    } else if outcomes[from].mutant_id == mutant_id {
        from
    } else {
        outcome_place(outcomes, mutant_id, from + 1)
    }
}

/// The outcome of a mutant, if it has one.
pub open spec fn outcome_of(outcomes: Seq<OutcomeView>, mutant_id: i64) -> Option<OutcomeView> {
    let at = outcome_place(outcomes, mutant_id, 0);
    if at < outcomes.len() {
        Some(outcomes[at])
    } else {
        None
    }
}

/// The target with this id, if there is one.
pub open spec fn target_of(targets: Seq<TargetView>, id: i64) -> Option<TargetView> {
    let at = target_place(targets, id, 0);
    if at < targets.len() {
        Some(targets[at])
    } else {
        None
    }
}

/// A target under another id.
pub open spec fn with_id(target: TargetView, id: i64) -> TargetView {
    TargetView {
        id,
        path: target.path,
        file_hash: target.file_hash,
        text: target.text,
        language: target.language,
    }
}

/// A target at another path.
pub open spec fn with_path(target: TargetView, path: Seq<char>) -> TargetView {
    TargetView {
        id: target.id,
        path,
        file_hash: target.file_hash,
        text: target.text,
        language: target.language,
    }
}

/// A mutant under another id.
pub open spec fn mutant_with_id(mutant: MutantView, id: i64) -> MutantView {
    MutantView {
        id,
        target_id: mutant.target_id,
        byte_offset: mutant.byte_offset,
        line_offset: mutant.line_offset,
        old_text: mutant.old_text,
        new_text: mutant.new_text,
        mutation_slug: mutant.mutation_slug,
    }
}

impl Catalog {
    /// The catalog without rows.
    pub open spec fn empty() -> Catalog {
        Catalog {
            targets: Seq::empty(),
            mutants: Seq::empty(),
            outcomes: Seq::empty(),
            last_target_id: 0,
            last_mutant_id: 0,
        }
    }

    /// The keys of the tables: ids are positive, given out in rising
    /// order and not twice; no two targets have the same hash, no two
    /// mutants make the same edit, and no mutant has two outcomes.
    pub open spec fn wf(self) -> bool {
        &&& 0 <= self.last_target_id
        &&& 0 <= self.last_mutant_id
        &&& forall|i: int|
            0 <= i < self.targets.len() ==> 0 < (#[trigger] self.targets[i]).id
                <= self.last_target_id
        &&& forall|i: int, j: int|
            0 <= i < j < self.targets.len() ==> (#[trigger] self.targets[i]).id != (
            #[trigger] self.targets[j]).id && self.targets[i].file_hash != self.targets[j].file_hash
        &&& forall|i: int|
            0 <= i < self.mutants.len() ==> 0 < (#[trigger] self.mutants[i]).id
                <= self.last_mutant_id
        &&& forall|i: int, j: int|
            0 <= i < j < self.mutants.len() ==> (#[trigger] self.mutants[i]).id != (
            #[trigger] self.mutants[j]).id && !self.mutants[i].same_edit(self.mutants[j])
        &&& forall|i: int, j: int|
            0 <= i < j < self.outcomes.len() ==> (#[trigger] self.outcomes[i]).mutant_id != (
            #[trigger] self.outcomes[j]).mutant_id
    }

    /// The id under which the catalog knows or would take a target: that
    /// of the target with the same hash, or the next id.
    pub open spec fn target_id_for(self, target: TargetView) -> int {
        let at = hash_place(self.targets, target.file_hash, 0);
        if at < self.targets.len() {
            self.targets[at].id as int
        } else {
            self.last_target_id + 1
        }
    }

    /// The catalog once a target is added. A target whose hash is known
    /// moves to the new path and keeps its row; one whose hash is new
    /// gets the next id and a row of its own.
    pub open spec fn with_target(self, target: TargetView) -> Catalog {
        let at = hash_place(self.targets, target.file_hash, 0);
        if at < self.targets.len() {
            Catalog {
                targets: self.targets.update(at, with_path(self.targets[at], target.path)),
                mutants: self.mutants,
                outcomes: self.outcomes,
                last_target_id: self.last_target_id,
                last_mutant_id: self.last_mutant_id,
            }
        } else {
            Catalog {
                targets: self.targets.push(with_id(target, (self.last_target_id + 1) as i64)),
                mutants: self.mutants,
                outcomes: self.outcomes,
                last_target_id: (self.last_target_id + 1) as i64,
                last_mutant_id: self.last_mutant_id,
            }
        }
    }

    /// Whether the catalog holds a mutant that makes the same edit.
    pub open spec fn knows_edit(self, mutant: MutantView) -> bool {
        edit_place(self.mutants, mutant, 0) < self.mutants.len()
    }

    /// The catalog once a mutant is added: as it was where it knows the
    /// edit, and else with the mutant under the next id.
    pub open spec fn with_mutant(self, mutant: MutantView) -> Catalog {
        if self.knows_edit(mutant) {
            self
        } else {
            Catalog {
                targets: self.targets,
                mutants: self.mutants.push(
                    mutant_with_id(mutant, (self.last_mutant_id + 1) as i64),
                ),
                outcomes: self.outcomes,
                last_target_id: self.last_target_id,
                last_mutant_id: (self.last_mutant_id + 1) as i64,
            }
        }
    }

    /// The catalog once an outcome is added: it takes the place of the
    /// outcome that the mutant had, or comes after the others.
    pub open spec fn with_outcome(self, outcome: OutcomeView) -> Catalog {
        let at = outcome_place(self.outcomes, outcome.mutant_id, 0);
        Catalog {
            targets: self.targets,
            mutants: self.mutants,
            outcomes: if at < self.outcomes.len() {
                self.outcomes.update(at, outcome)
            } else {
                self.outcomes.push(outcome)
            },
            last_target_id: self.last_target_id,
            last_mutant_id: self.last_mutant_id,
        }
    }
}

/// What `hash_place` finds: the first target with the hash.
pub proof fn lemma_hash_place(targets: Seq<TargetView>, hash: Seq<u8>, from: int)
    requires
        0 <= from <= targets.len(),
    ensures
        from <= hash_place(targets, hash, from) <= targets.len(),
        hash_place(targets, hash, from) < targets.len() ==> targets[hash_place(
            targets,
            hash,
            from,
        )].file_hash == hash,
        forall|i: int|
            from <= i < hash_place(targets, hash, from) ==> (#[trigger] targets[i]).file_hash
                != hash,
    decreases targets.len() - from,
{
    if from < targets.len() && targets[from].file_hash != hash {
        lemma_hash_place(targets, hash, from + 1);
    }
}

/// What `edit_place` finds: the first mutant that makes the edit.
pub proof fn lemma_edit_place(mutants: Seq<MutantView>, mutant: MutantView, from: int)
    requires
        0 <= from <= mutants.len(),
    ensures
        from <= edit_place(mutants, mutant, from) <= mutants.len(),
        edit_place(mutants, mutant, from) < mutants.len() ==> mutants[edit_place(
            mutants,
            mutant,
            from,
        )].same_edit(mutant),
        forall|i: int|
            from <= i < edit_place(mutants, mutant, from) ==> !(#[trigger] mutants[i]).same_edit(
                mutant,
            ),
    decreases mutants.len() - from,
{
    if from < mutants.len() && !mutants[from].same_edit(mutant) {
        lemma_edit_place(mutants, mutant, from + 1);
    }
}

/// What `outcome_place` finds: the first outcome of the mutant.
pub proof fn lemma_outcome_place(outcomes: Seq<OutcomeView>, mutant_id: i64, from: int)
    requires
        0 <= from <= outcomes.len(),
    ensures
        from <= outcome_place(outcomes, mutant_id, from) <= outcomes.len(),
        outcome_place(outcomes, mutant_id, from) < outcomes.len() ==> outcomes[outcome_place(
            outcomes,
            mutant_id,
            from,
        )].mutant_id == mutant_id,
        forall|i: int|
            from <= i < outcome_place(outcomes, mutant_id, from) ==> (
            #[trigger] outcomes[i]).mutant_id != mutant_id,
    decreases outcomes.len() - from,
{
    if from < outcomes.len() && outcomes[from].mutant_id != mutant_id {
        lemma_outcome_place(outcomes, mutant_id, from + 1);
    }
}

/// What `target_place` finds: the first target with the id.
pub proof fn lemma_target_place(targets: Seq<TargetView>, id: i64, from: int)
    requires
        0 <= from <= targets.len(),
    ensures
        from <= target_place(targets, id, from) <= targets.len(),
        target_place(targets, id, from) < targets.len() ==> targets[target_place(
            targets,
            id,
            from,
        )].id == id,
        forall|i: int| from <= i < target_place(targets, id, from) ==> (#[trigger] targets[i]).id != id,
    decreases targets.len() - from,
{
    if from < targets.len() && targets[from].id != id {
        lemma_target_place(targets, id, from + 1);
    }
}

/// What `mutant_place` finds: the first mutant with the id.
pub proof fn lemma_mutant_place(mutants: Seq<MutantView>, id: i64, from: int)
    requires
        0 <= from <= mutants.len(),
    ensures
        from <= mutant_place(mutants, id, from) <= mutants.len(),
        mutant_place(mutants, id, from) < mutants.len() ==> mutants[mutant_place(
            mutants,
            id,
            from,
        )].id == id,
        forall|i: int| from <= i < mutant_place(mutants, id, from) ==> (#[trigger] mutants[i]).id != id,
    decreases mutants.len() - from,
{
    if from < mutants.len() && mutants[from].id != id {
        lemma_mutant_place(mutants, id, from + 1);
    }
}

/// Adding a target keeps the keys of the catalog.
pub proof fn lemma_with_target_wf(catalog: Catalog, target: TargetView)
    requires
        catalog.wf(),
        catalog.last_target_id < i64::MAX,
    ensures
        catalog.with_target(target).wf(),
{
    lemma_hash_place(catalog.targets, target.file_hash, 0);
    let after = catalog.with_target(target);
    let at = hash_place(catalog.targets, target.file_hash, 0);
    assert forall|i: int| 0 <= i < after.targets.len() implies 0 < (#[trigger] after.targets[i]).id
        <= after.last_target_id by {
        if i < catalog.targets.len() {
            assert(after.targets[i].id == catalog.targets[i].id);
        }
    }
    assert forall|i: int, j: int| 0 <= i < j < after.targets.len() implies (
    #[trigger] after.targets[i]).id != (#[trigger] after.targets[j]).id
        && after.targets[i].file_hash != after.targets[j].file_hash by {
        if j < catalog.targets.len() {
            assert(after.targets[i].id == catalog.targets[i].id);
            assert(after.targets[j].id == catalog.targets[j].id);
            assert(after.targets[i].file_hash == catalog.targets[i].file_hash);
            assert(after.targets[j].file_hash == catalog.targets[j].file_hash);
        } else {
            assert(after.targets[i] == catalog.targets[i]);
        }
    }
}

/// Adding a mutant keeps the keys of the catalog.
pub proof fn lemma_with_mutant_wf(catalog: Catalog, mutant: MutantView)
    requires
        catalog.wf(),
        catalog.last_mutant_id < i64::MAX,
    ensures
        catalog.with_mutant(mutant).wf(),
{
    lemma_edit_place(catalog.mutants, mutant, 0);
    let after = catalog.with_mutant(mutant);
    if !catalog.knows_edit(mutant) {
        let added = mutant_with_id(mutant, (catalog.last_mutant_id + 1) as i64);
        assert forall|i: int| 0 <= i < after.mutants.len() implies 0 < (
        #[trigger] after.mutants[i]).id <= after.last_mutant_id by {
            if i < catalog.mutants.len() {
                assert(after.mutants[i] == catalog.mutants[i]);
            }
        }
        assert forall|i: int, j: int| 0 <= i < j < after.mutants.len() implies (
        #[trigger] after.mutants[i]).id != (#[trigger] after.mutants[j]).id
            && !after.mutants[i].same_edit(after.mutants[j]) by {
            assert(after.mutants[i] == catalog.mutants[i]);
            if j < catalog.mutants.len() {
                assert(after.mutants[j] == catalog.mutants[j]);
            } else {
                assert(after.mutants[j] == added);
                assert(!catalog.mutants[i].same_edit(mutant));
            }
        }
    }
}

/// Adding an outcome keeps the keys of the catalog.
pub proof fn lemma_with_outcome_wf(catalog: Catalog, outcome: OutcomeView)
    requires
        catalog.wf(),
    ensures
        catalog.with_outcome(outcome).wf(),
{
    lemma_outcome_place(catalog.outcomes, outcome.mutant_id, 0);
    let after = catalog.with_outcome(outcome);
    let at = outcome_place(catalog.outcomes, outcome.mutant_id, 0);
    assert forall|i: int, j: int| 0 <= i < j < after.outcomes.len() implies (
    #[trigger] after.outcomes[i]).mutant_id != (#[trigger] after.outcomes[j]).mutant_id by {
        if j < catalog.outcomes.len() {
            assert(after.outcomes[i].mutant_id == catalog.outcomes[i].mutant_id);
            assert(after.outcomes[j].mutant_id == catalog.outcomes[j].mutant_id);
        } else {
            assert(after.outcomes[i] == catalog.outcomes[i]);
        }
    }
}

/// An outcome of the mutant stands at or after the place that
/// `outcome_place` finds.
pub proof fn lemma_outcome_found(outcomes: Seq<OutcomeView>, mutant_id: i64, from: int, at: int)
    requires
        0 <= from <= at < outcomes.len(),
        outcomes[at].mutant_id == mutant_id,
    ensures
        outcome_place(outcomes, mutant_id, from) <= at,
    decreases outcomes.len() - from,
{
    if outcomes[from].mutant_id != mutant_id {
        lemma_outcome_found(outcomes, mutant_id, from + 1, at);
    }
}

/// One outcome for each mutant: once an outcome is added, it is the
/// outcome of its mutant; it takes the place of the outcome that the
/// mutant had, so that the catalog grows only where the mutant had none.
pub proof fn lemma_outcome_replaces(catalog: Catalog, outcome: OutcomeView)
    requires
        catalog.wf(),
    ensures
        outcome_of(catalog.with_outcome(outcome).outcomes, outcome.mutant_id) == Some(outcome),
        catalog.with_outcome(outcome).outcomes.len() == if outcome_of(
            catalog.outcomes,
            outcome.mutant_id,
        ) is Some {
            catalog.outcomes.len()
        } else {
            catalog.outcomes.len() + 1
        },
        catalog.with_outcome(outcome).with_outcome(outcome) == catalog.with_outcome(outcome),
{
    let at = outcome_place(catalog.outcomes, outcome.mutant_id, 0);
    let after = catalog.with_outcome(outcome).outcomes;
    lemma_outcome_place(catalog.outcomes, outcome.mutant_id, 0);
    lemma_outcome_place(after, outcome.mutant_id, 0);
    assert(after[at] == outcome);
    lemma_outcome_found(after, outcome.mutant_id, 0, at);
    let found = outcome_place(after, outcome.mutant_id, 0);
    if found < at {
        assert(after[found] == catalog.outcomes[found]);
    }
    assert(after.update(found, outcome) =~= after);
}

/// Mutant idempotence: once a mutant is added, adding a mutant that makes
/// the same edit changes nothing, and the catalog does not grow.
pub proof fn lemma_mutant_idempotent(catalog: Catalog, mutant: MutantView)
    requires
        catalog.wf(),
    ensures
        catalog.with_mutant(mutant).knows_edit(mutant),
        catalog.with_mutant(mutant).with_mutant(mutant) == catalog.with_mutant(mutant),
{
    let after = catalog.with_mutant(mutant);
    lemma_edit_place(catalog.mutants, mutant, 0);
    if !catalog.knows_edit(mutant) {
        let added = mutant_with_id(mutant, (catalog.last_mutant_id + 1) as i64);
        assert(after.mutants[catalog.mutants.len() as int] == added);
        assert(added.same_edit(mutant));
        lemma_edit_found(after.mutants, mutant, 0, catalog.mutants.len() as int);
    }
}

/// A mutant that makes the edit stands at or after the place that
/// `edit_place` finds.
pub proof fn lemma_edit_found(mutants: Seq<MutantView>, mutant: MutantView, from: int, at: int)
    requires
        0 <= from <= at < mutants.len(),
        mutants[at].same_edit(mutant),
    ensures
        edit_place(mutants, mutant, from) <= at,
    decreases mutants.len() - from,
{
    if !mutants[from].same_edit(mutant) {
        lemma_edit_found(mutants, mutant, from + 1, at);
    }
}

/// A target with the hash stands at or after the place that `hash_place`
/// finds.
pub proof fn lemma_hash_found(targets: Seq<TargetView>, hash: Seq<u8>, from: int, at: int)
    requires
        0 <= from <= at < targets.len(),
        targets[at].file_hash == hash,
    ensures
        hash_place(targets, hash, from) <= at,
    decreases targets.len() - from,
{
    if targets[from].file_hash != hash {
        lemma_hash_found(targets, hash, from + 1, at);
    }
}

/// Target relocation: a target whose hash the catalog knows, added at
/// another path, keeps its id and its row; the row takes the new path,
/// and no row is added.
pub proof fn lemma_target_relocates(catalog: Catalog, target: TargetView)
    requires
        catalog.wf(),
        hash_place(catalog.targets, target.file_hash, 0) < catalog.targets.len(),
    ensures
        catalog.with_target(target).targets.len() == catalog.targets.len(),
        catalog.with_target(target).target_id_for(target) == catalog.target_id_for(target),
        target_of(catalog.with_target(target).targets, catalog.target_id_for(target) as i64)
            matches Some(row) && row.path == target.path && row.file_hash == target.file_hash,
{
    let at = hash_place(catalog.targets, target.file_hash, 0);
    lemma_hash_place(catalog.targets, target.file_hash, 0);
    let after = catalog.with_target(target);
    let id = catalog.targets[at].id;
    assert(after.targets[at].file_hash == target.file_hash);
    lemma_hash_place(after.targets, target.file_hash, 0);
    lemma_hash_found(after.targets, target.file_hash, 0, at);
    let again = hash_place(after.targets, target.file_hash, 0);
    if again < at {
        assert(after.targets[again].file_hash == catalog.targets[again].file_hash);
    }
    lemma_target_place(after.targets, id, 0);
    lemma_target_found(after.targets, id, 0, at);
    let found = target_place(after.targets, id, 0);
    if found < at {
        assert(after.targets[found].id == catalog.targets[found].id);
    }
}

/// A target with the id stands at or after the place that `target_place`
/// finds.
pub proof fn lemma_target_found(targets: Seq<TargetView>, id: i64, from: int, at: int)
    requires
        0 <= from <= at < targets.len(),
        targets[at].id == id,
    ensures
        target_place(targets, id, from) <= at,
    decreases targets.len() - from,
{
    if targets[from].id != id {
        lemma_target_found(targets, id, from + 1, at);
    }
}

/// The catalog.
pub struct SqlStore {
    targets: Vec<Target>,
    mutants: Vec<Mutant>,
    outcomes: Vec<Outcome>,
    last_target_id: i64,
    last_mutant_id: i64,
}

impl View for SqlStore {
    type V = Catalog;

    closed spec fn view(&self) -> Catalog {
        Catalog {
            targets: target_views(self.targets@),
            mutants: mutant_views(self.mutants@),
            outcomes: outcome_views(self.outcomes@),
            last_target_id: self.last_target_id,
            last_mutant_id: self.last_mutant_id,
        }
    }
}

/// Whether two texts have the same bytes.
fn same_text(a: &String, b: &String) -> (r: bool)
    ensures
        r == (bytes_of(a@) == bytes_of(b@)),
        r == (a@ == b@),
{
    let r = str_eq(a.as_str(), b.as_str());
    proof {
        if bytes_of(a@) == bytes_of(b@) {
            lemma_bytes_of_injective(a@, b@);
        }
    }
    r
}

/// Whether two mutants make the same edit of the same target under the
/// same slug.
pub fn same_edit(a: &Mutant, b: &Mutant) -> (r: bool)
    ensures
        r == a@.same_edit(b@),
{
    a.target_id == b.target_id && a.byte_offset == b.byte_offset && same_text(
        &a.old_text,
        &b.old_text,
    ) && same_text(&a.new_text, &b.new_text) && same_text(&a.mutation_slug, &b.mutation_slug)
}

impl SqlStore {
    /// The invariant of the catalog: the keys of its tables hold.
    pub open spec fn wf(&self) -> bool {
        self@.wf()
    }

    /// A catalog without rows.
    pub fn new() -> (r: SqlStore)
        ensures
            r@ == Catalog::empty(),
            r.wf(),
    {
        let r = SqlStore {
            targets: Vec::new(),
            mutants: Vec::new(),
            outcomes: Vec::new(),
            last_target_id: 0,
            last_mutant_id: 0,
        };
        assert(r@.targets =~= Seq::<TargetView>::empty());
        assert(r@.mutants =~= Seq::<MutantView>::empty());
        assert(r@.outcomes =~= Seq::<OutcomeView>::empty());
        r
    }

    /// The place of the first target with the hash.
    fn find_hash(&self, hash: &crate::types::hash::Hash) -> (r: usize)
        ensures
            r == hash_place(self@.targets, hash@, 0),
            r <= self@.targets.len(),
            self@.targets.len() == self.targets@.len(),
    {
        let mut at: usize = 0;
        while at < self.targets.len()
            invariant
                0 <= at <= self.targets@.len(),
                self@.targets.len() == self.targets@.len(),
                hash_place(self@.targets, hash@, 0) == hash_place(self@.targets, hash@, at as int),
            decreases self.targets@.len() - at,
        {
            assert(self@.targets[at as int] == self.targets@[at as int]@);
            if self.targets[at].file_hash.same_as(hash) {
                return at;
            }
            at += 1;
        }
        at
    }

    /// Adds a target and gives its id. A target whose hash is known keeps
    /// its id and its row, which takes the new path; one whose hash is
    /// new gets the next id. Where no id is left, nothing changes.
    pub fn add_target(&mut self, target: Target) -> (r: Result<i64, StoreError>)
        requires
            old(self).wf(),
        ensures
            final(self).wf(),
            old(self)@.target_id_for(target@) <= i64::MAX ==> r == Ok::<i64, StoreError>(
                old(self)@.target_id_for(target@) as i64,
            ) && final(self)@ == old(self)@.with_target(target@),
            old(self)@.target_id_for(target@) > i64::MAX ==> r is Err && r->Err_0 is Full
                && final(self)@ == old(self)@,
    {
        let at = self.find_hash(&target.file_hash);
        proof {
            lemma_hash_place(self@.targets, target@.file_hash, 0);
        }
        if at < self.targets.len() {
            let row = &self.targets[at];
            assert(self@.targets[at as int] == row@);
            let id = row.id;
            let moved = Target {
                id,
                path: target.path,
                file_hash: row.file_hash,
                text: row.text.clone(),
                language: row.language.clone(),
            };
            proof {
                assert(moved@ == with_path(row@, target@.path));
                lemma_with_target_wf_moved(self@, target@);
            }
            self.targets.set(at, moved);
            assert(self@.targets =~= old(self)@.with_target(target@).targets);
            Ok(id)
        } else {
            if self.last_target_id == i64::MAX {
                return Err(StoreError::Full);
            }
            let id: i64 = self.last_target_id + 1;
            let row = Target {
                id,
                path: target.path,
                file_hash: target.file_hash,
                text: target.text,
                language: target.language,
            };
            proof {
                assert(row@ == with_id(target@, id));
                lemma_with_target_wf(self@, target@);
            }
            self.targets.push(row);
            self.last_target_id = id;
            assert(self@.targets =~= old(self)@.with_target(target@).targets);
            Ok(id)
        }
    }

    /// The place of the first mutant that makes the same edit.
    fn find_edit(&self, mutant: &Mutant) -> (r: usize)
        ensures
            r == edit_place(self@.mutants, mutant@, 0),
            r <= self@.mutants.len(),
            self@.mutants.len() == self.mutants@.len(),
    {
        let mut at: usize = 0;
        while at < self.mutants.len()
            invariant
                0 <= at <= self.mutants@.len(),
                self@.mutants.len() == self.mutants@.len(),
                edit_place(self@.mutants, mutant@, 0) == edit_place(
                    self@.mutants,
                    mutant@,
                    at as int,
                ),
            decreases self.mutants@.len() - at,
        {
            assert(self@.mutants[at as int] == self.mutants@[at as int]@);
            if same_edit(&self.mutants[at], mutant) {
                return at;
            }
            at += 1;
        }
        at
    }

    /// Adds a mutant. Where the catalog holds one that makes the same
    /// edit, nothing changes and nothing comes back; else the mutant gets
    /// the next id, which comes back. Where no id is left, nothing
    /// changes.
    pub fn add_mutant(&mut self, mutant: Mutant) -> (r: Result<Option<i64>, StoreError>)
        requires
            old(self).wf(),
        ensures
            final(self).wf(),
            old(self)@.knows_edit(mutant@) ==> r == Ok::<Option<i64>, StoreError>(None)
                && final(self)@ == old(self)@,
            !old(self)@.knows_edit(mutant@) && old(self)@.last_mutant_id < i64::MAX ==> r == Ok::<
                Option<i64>,
                StoreError,
            >(Some((old(self)@.last_mutant_id + 1) as i64)) && final(self)@
                == old(self)@.with_mutant(mutant@),
            !old(self)@.knows_edit(mutant@) && old(self)@.last_mutant_id == i64::MAX ==> r is Err
                && r->Err_0 is Full && final(self)@ == old(self)@,
    {
        let at = self.find_edit(&mutant);
        if at < self.mutants.len() {
            return Ok(None);
        }
        if self.last_mutant_id == i64::MAX {
            return Err(StoreError::Full);
        }
        let id: i64 = self.last_mutant_id + 1;
        let row = Mutant {
            id,
            target_id: mutant.target_id,
            byte_offset: mutant.byte_offset,
            line_offset: mutant.line_offset,
            old_text: mutant.old_text,
            new_text: mutant.new_text,
            mutation_slug: mutant.mutation_slug,
        };
        proof {
            assert(row@ == mutant_with_id(mutant@, id));
            lemma_with_mutant_wf(self@, mutant@);
        }
        self.mutants.push(row);
        self.last_mutant_id = id;
        assert(self@.mutants =~= old(self)@.with_mutant(mutant@).mutants);
        Ok(Some(id))
    }

    /// The place of the first outcome of the mutant.
    fn find_outcome(&self, mutant_id: i64) -> (r: usize)
        ensures
            r == outcome_place(self@.outcomes, mutant_id, 0),
            r <= self@.outcomes.len(),
            self@.outcomes.len() == self.outcomes@.len(),
    {
        let mut at: usize = 0;
        while at < self.outcomes.len()
            invariant
                0 <= at <= self.outcomes@.len(),
                self@.outcomes.len() == self.outcomes@.len(),
                outcome_place(self@.outcomes, mutant_id, 0) == outcome_place(
                    self@.outcomes,
                    mutant_id,
                    at as int,
                ),
            decreases self.outcomes@.len() - at,
        {
            assert(self@.outcomes[at as int] == self.outcomes@[at as int]@);
            if self.outcomes[at].mutant_id == mutant_id {
                return at;
            }
            at += 1;
        }
        at
    }

    /// Adds the outcome of a mutant, in place of the one that the mutant
    /// had, if it had one. The id of the mutant comes back.
    pub fn add_outcome(&mut self, outcome: Outcome) -> (r: i64)
        requires
            old(self).wf(),
        ensures
            final(self).wf(),
            final(self)@ == old(self)@.with_outcome(outcome@),
            r == outcome.mutant_id,
    {
        let id = outcome.mutant_id;
        let at = self.find_outcome(id);
        proof {
            lemma_with_outcome_wf(self@, outcome@);
        }
        if at < self.outcomes.len() {
            self.outcomes.set(at, outcome);
        } else {
            self.outcomes.push(outcome);
        }
        assert(self@.outcomes =~= old(self)@.with_outcome(outcome@).outcomes);
        id
    }
}

/// What is kept of the first rows and the next, given what is kept of the
/// first.
pub proof fn lemma_filter_step<A>(rows: Seq<A>, upto: int, keep: spec_fn(A) -> bool)
    requires
        0 <= upto < rows.len(),
    ensures
        rows.take(upto + 1).filter(keep) == if keep(rows[upto]) {
            rows.take(upto).filter(keep).push(rows[upto])
        } else {
            rows.take(upto).filter(keep)
        },
{
    assert(rows.take(upto + 1) =~= rows.take(upto).push(rows[upto]));
    rows.take(upto).lemma_filter_push(rows[upto], keep);
}

/// The mutant with this id, if there is one.
pub open spec fn mutant_of(mutants: Seq<MutantView>, id: i64) -> Option<MutantView> {
    let at = mutant_place(mutants, id, 0);
    if at < mutants.len() {
        Some(mutants[at])
    } else {
        None
    }
}

/// The test for the mutants of a target.
pub open spec fn of_target(target_id: i64) -> spec_fn(MutantView) -> bool {
    |mutant: MutantView| mutant.target_id == target_id
}

/// The test for the mutants without an outcome.
pub open spec fn untested(outcomes: Seq<OutcomeView>) -> spec_fn(MutantView) -> bool {
    |mutant: MutantView| outcome_of(outcomes, mutant.id) is None
}

/// The test for the mutants whose outcome has this status.
pub open spec fn with_status(outcomes: Seq<OutcomeView>, status: Status) -> spec_fn(
    MutantView,
) -> bool {
    |mutant: MutantView|
        outcome_of(outcomes, mutant.id) matches Some(outcome) && outcome.status == status
}

/// The test for the outcomes of the mutants of a target.
pub open spec fn outcome_of_target(mutants: Seq<MutantView>, target_id: i64) -> spec_fn(
    OutcomeView,
) -> bool {
    |outcome: OutcomeView|
        mutant_of(mutants, outcome.mutant_id) matches Some(mutant) && mutant.target_id
            == target_id
}

/// The test for the outcomes with this status.
pub open spec fn has_status(status: Status) -> spec_fn(OutcomeView) -> bool {
    |outcome: OutcomeView| outcome.status == status
}

impl Catalog {
    /// The catalog once a target is removed, and with it its mutants and
    /// their outcomes.
    pub open spec fn without_target(self, id: i64) -> Catalog {
        Catalog {
            targets: self.targets.filter(|target: TargetView| target.id != id),
            mutants: self.mutants.filter(|mutant: MutantView| mutant.target_id != id),
            outcomes: self.outcomes.filter(
                |outcome: OutcomeView|
                    !(mutant_of(self.mutants, outcome.mutant_id) matches Some(mutant)
                        && mutant.target_id == id),
            ),
            last_target_id: self.last_target_id,
            last_mutant_id: self.last_mutant_id,
        }
    }

    /// The mutants that a run has to test: those without an outcome, and
    /// after them those that ran into the deadline.
    pub open spec fn to_test(self) -> Seq<MutantView> {
        self.mutants.filter(untested(self.outcomes)) + self.mutants.filter(
            with_status(self.outcomes, Status::Timeout),
        )
    }
}

/// The counts of a campaign.
#[derive(Debug, Clone, Copy, PartialEq, Eq, Structural)]
pub struct CampaignSummary {
    /// The outcomes with which the tests ran to an end.
    pub tested: usize,
    pub caught: usize,
    pub uncaught: usize,
    pub skipped: usize,
}

impl SqlStore {
    /// The target with this id.
    pub fn get_target(&self, target_id: i64) -> (r: Result<Target, StoreError>)
        ensures
            match target_of(self@.targets, target_id) {
                Some(target) => r is Ok && r->Ok_0@ == target,
                None => r is Err && r->Err_0 == StoreError::NotFound(target_id),
            },
    {
        let mut at: usize = 0;
        while at < self.targets.len()
            invariant
                0 <= at <= self.targets@.len(),
                self@.targets.len() == self.targets@.len(),
                target_place(self@.targets, target_id, 0) == target_place(
                    self@.targets,
                    target_id,
                    at as int,
                ),
            decreases self.targets@.len() - at,
        {
            assert(self@.targets[at as int] == self.targets@[at as int]@);
            if self.targets[at].id == target_id {
                return Ok(self.targets[at].copy());
            }
            at += 1;
        }
        Err(StoreError::NotFound(target_id))
    }

    /// All targets, in the order in which they came.
    pub fn get_all_targets(&self) -> (r: Vec<Target>)
        ensures
            target_views(r@) == self@.targets,
    {
        let mut out: Vec<Target> = Vec::new();
        let mut at: usize = 0;
        while at < self.targets.len()
            invariant
                0 <= at <= self.targets@.len(),
                out@.len() == at,
                forall|i: int| 0 <= i < at ==> (#[trigger] out@[i])@ == self.targets@[i]@,
            decreases self.targets@.len() - at,
        {
            out.push(self.targets[at].copy());
            at += 1;
        }
        assert(target_views(out@) =~= self@.targets);
        out
    }

    /// The mutant with this id.
    pub fn get_mutant(&self, id: i64) -> (r: Result<Mutant, StoreError>)
        ensures
            match mutant_of(self@.mutants, id) {
                Some(mutant) => r is Ok && r->Ok_0@ == mutant,
                None => r is Err && r->Err_0 == StoreError::NotFound(id),
            },
    {
        let mut at: usize = 0;
        while at < self.mutants.len()
            invariant
                0 <= at <= self.mutants@.len(),
                self@.mutants.len() == self.mutants@.len(),
                mutant_place(self@.mutants, id, 0) == mutant_place(self@.mutants, id, at as int),
            decreases self.mutants@.len() - at,
        {
            assert(self@.mutants[at as int] == self.mutants@[at as int]@);
            if self.mutants[at].id == id {
                return Ok(self.mutants[at].copy());
            }
            at += 1;
        }
        Err(StoreError::NotFound(id))
    }

    /// The outcome of a mutant, if it has one.
    pub fn get_outcome(&self, mutant_id: i64) -> (r: Option<Outcome>)
        ensures
            match outcome_of(self@.outcomes, mutant_id) {
                Some(outcome) => r is Some && r->0@ == outcome,
                None => r is None,
            },
    {
        let at = self.find_outcome(mutant_id);
        if at < self.outcomes.len() {
            assert(self@.outcomes[at as int] == self.outcomes@[at as int]@);
            Some(self.outcomes[at].copy())
        } else {
            None
        }
    }

    /// The status of the outcome of a mutant, if it has one.
    fn status_of(&self, mutant_id: i64) -> (r: Option<Status>)
        ensures
            match outcome_of(self@.outcomes, mutant_id) {
                Some(outcome) => r == Some(outcome.status),
                None => r is None,
            },
    {
        let at = self.find_outcome(mutant_id);
        if at < self.outcomes.len() {
            assert(self@.outcomes[at as int] == self.outcomes@[at as int]@);
            Some(self.outcomes[at].status)
        } else {
            None
        }
    }

    /// The target of a mutant, if the mutant is there.
    fn target_of_mutant(&self, mutant_id: i64) -> (r: Option<i64>)
        ensures
            match mutant_of(self@.mutants, mutant_id) {
                Some(mutant) => r == Some(mutant.target_id),
                None => r is None,
            },
    {
        let mut at: usize = 0;
        while at < self.mutants.len()
            invariant
                0 <= at <= self.mutants@.len(),
                self@.mutants.len() == self.mutants@.len(),
                mutant_place(self@.mutants, mutant_id, 0) == mutant_place(
                    self@.mutants,
                    mutant_id,
                    at as int,
                ),
            decreases self.mutants@.len() - at,
        {
            assert(self@.mutants[at as int] == self.mutants@[at as int]@);
            if self.mutants[at].id == mutant_id {
                return Some(self.mutants[at].target_id);
            }
            at += 1;
        }
        None
    }

    /// The mutants of a target, in the order in which they came.
    pub fn get_mutants(&self, target_id: i64) -> (r: Vec<Mutant>)
        ensures
            mutant_views(r@) == self@.mutants.filter(of_target(target_id)),
    {
        let ghost rows = self@.mutants;
        let ghost keep = of_target(target_id);
        let mut out: Vec<Mutant> = Vec::new();
        let mut at: usize = 0;
        proof {
            assert(rows.take(0) =~= Seq::<MutantView>::empty());
            reveal(Seq::filter);
            assert(mutant_views(out@) =~= rows.take(0).filter(keep));
        }
        while at < self.mutants.len()
            invariant
                0 <= at <= self.mutants@.len(),
                rows == self@.mutants,
                rows.len() == self.mutants@.len(),
                keep == of_target(target_id),
                mutant_views(out@) == rows.take(at as int).filter(keep),
            decreases self.mutants@.len() - at,
        {
            let row = &self.mutants[at];
            proof {
                assert(rows[at as int] == row@);
                lemma_filter_step(rows, at as int, keep);
            }
            if row.target_id == target_id {
                let copy = row.copy();
                assert(mutant_views(out@.push(copy)) =~= mutant_views(out@).push(copy@));
                out.push(copy);
            }
            at += 1;
        }
        assert(rows.take(rows.len() as int) =~= rows);
        out
    }

    /// The outcomes of the mutants of a target.
    pub fn get_outcomes(&self, target_id: i64) -> (r: Vec<Outcome>)
        ensures
            outcome_views(r@) == self@.outcomes.filter(
                outcome_of_target(self@.mutants, target_id),
            ),
    {
        let ghost rows = self@.outcomes;
        let ghost keep = outcome_of_target(self@.mutants, target_id);
        let mut out: Vec<Outcome> = Vec::new();
        let mut at: usize = 0;
        proof {
            assert(rows.take(0) =~= Seq::<OutcomeView>::empty());
            reveal(Seq::filter);
            assert(outcome_views(out@) =~= rows.take(0).filter(keep));
        }
        while at < self.outcomes.len()
            invariant
                0 <= at <= self.outcomes@.len(),
                rows == self@.outcomes,
                rows.len() == self.outcomes@.len(),
                keep == outcome_of_target(self@.mutants, target_id),
                outcome_views(out@) == rows.take(at as int).filter(keep),
            decreases self.outcomes@.len() - at,
        {
            let row = &self.outcomes[at];
            proof {
                assert(rows[at as int] == row@);
                lemma_filter_step(rows, at as int, keep);
            }
            let owner = self.target_of_mutant(row.mutant_id);
            if owner == Some(target_id) {
                let copy = row.copy();
                assert(outcome_views(out@.push(copy)) =~= outcome_views(out@).push(copy@));
                out.push(copy);
            }
            at += 1;
        }
        assert(rows.take(rows.len() as int) =~= rows);
        out
    }

    /// The mutants whose outcome is as `wanted` says: without an outcome
    /// where it says nothing, and else with an outcome of that status.
    fn mutants_by_status(&self, wanted: Option<Status>) -> (r: Vec<Mutant>)
        ensures
            mutant_views(r@) == self@.mutants.filter(
                match wanted {
                    Some(status) => with_status(self@.outcomes, status),
                    None => untested(self@.outcomes),
                },
            ),
    {
        let ghost rows = self@.mutants;
        let ghost keep = match wanted {
            Some(status) => with_status(self@.outcomes, status),
            None => untested(self@.outcomes),
        };
        let mut out: Vec<Mutant> = Vec::new();
        let mut at: usize = 0;
        proof {
            assert(rows.take(0) =~= Seq::<MutantView>::empty());
            reveal(Seq::filter);
            assert(mutant_views(out@) =~= rows.take(0).filter(keep));
        }
        while at < self.mutants.len()
            invariant
                0 <= at <= self.mutants@.len(),
                rows == self@.mutants,
                rows.len() == self.mutants@.len(),
                keep == match wanted {
                    Some(status) => with_status(self@.outcomes, status),
                    None => untested(self@.outcomes),
                },
                mutant_views(out@) == rows.take(at as int).filter(keep),
            decreases self.mutants@.len() - at,
        {
            let row = &self.mutants[at];
            proof {
                assert(rows[at as int] == row@);
                lemma_filter_step(rows, at as int, keep);
            }
            let status = self.status_of(row.id);
            let kept: bool = match wanted {
                Some(wanted) => status == Some(wanted),
                None => status.is_none(),
            };
            if kept {
                let copy = row.copy();
                assert(mutant_views(out@.push(copy)) =~= mutant_views(out@).push(copy@));
                out.push(copy);
            }
            at += 1;
        }
        assert(rows.take(rows.len() as int) =~= rows);
        out
    }

    /// The mutants without an outcome.
    pub fn get_mutants_without_outcomes(&self) -> (r: Vec<Mutant>)
        ensures
            mutant_views(r@) == self@.mutants.filter(untested(self@.outcomes)),
    {
        self.mutants_by_status(None)
    }

    /// The mutants that a run has to test: those without an outcome, and
    /// after them those that ran into the deadline; with the number of
    /// the first and of the second.
    pub fn get_mutants_to_test(&self) -> (r: (Vec<Mutant>, usize, usize))
        ensures
            mutant_views(r.0@) == self@.to_test(),
            r.1 == self@.mutants.filter(untested(self@.outcomes)).len(),
            r.2 == self@.mutants.filter(with_status(self@.outcomes, Status::Timeout)).len(),
    {
        let mut all = self.mutants_by_status(None);
        let mut again = self.mutants_by_status(Some(Status::Timeout));
        let untested_count: usize = all.len();
        let retest_count: usize = again.len();
        let ghost first = mutant_views(all@);
        let ghost second = mutant_views(again@);
        all.append(&mut again);
        assert(mutant_views(all@) =~= first + second);
        (all, untested_count, retest_count)
    }

    /// Of the mutants of a target, how many have no outcome and how many
    /// ran into the deadline.
    pub fn get_mutant_test_counts(&self, target_id: i64) -> (r: (usize, usize))
        ensures
            r.0 == self@.mutants.filter(of_target(target_id)).filter(
                untested(self@.outcomes),
            ).len(),
            r.1 == self@.mutants.filter(of_target(target_id)).filter(
                with_status(self@.outcomes, Status::Timeout),
            ).len(),
    {
        let mutants = self.get_mutants(target_id);
        let ghost rows = mutant_views(mutants@);
        let ghost open = untested(self@.outcomes);
        let ghost late = with_status(self@.outcomes, Status::Timeout);
        let mut untested_count: usize = 0;
        let mut retest_count: usize = 0;
        let mut at: usize = 0;
        proof {
            assert(rows.take(0) =~= Seq::<MutantView>::empty());
            reveal(Seq::filter);
        }
        while at < mutants.len()
            invariant
                0 <= at <= mutants@.len(),
                rows == mutant_views(mutants@),
                open == untested(self@.outcomes),
                late == with_status(self@.outcomes, Status::Timeout),
                untested_count <= at,
                retest_count <= at,
                untested_count == rows.take(at as int).filter(open).len(),
                retest_count == rows.take(at as int).filter(late).len(),
            decreases mutants@.len() - at,
        {
            proof {
                assert(rows[at as int] == mutants@[at as int]@);
                lemma_filter_step(rows, at as int, open);
                lemma_filter_step(rows, at as int, late);
            }
            match self.status_of(mutants[at].id) {
                None => {
                    untested_count += 1;
                },
                Some(Status::Timeout) => {
                    retest_count += 1;
                },
                _ => {},
            }
            at += 1;
        }
        assert(rows.take(rows.len() as int) =~= rows);
        (untested_count, retest_count)
    }

    /// The number of outcomes with a status.
    fn count_status(&self, status: Status) -> (r: usize)
        ensures
            r == self@.outcomes.filter(has_status(status)).len(),
    {
        let ghost rows = self@.outcomes;
        let ghost keep = has_status(status);
        let mut count: usize = 0;
        let mut at: usize = 0;
        proof {
            assert(rows.take(0) =~= Seq::<OutcomeView>::empty());
            reveal(Seq::filter);
        }
        while at < self.outcomes.len()
            invariant
                0 <= at <= self.outcomes@.len(),
                rows == self@.outcomes,
                rows.len() == self.outcomes@.len(),
                keep == has_status(status),
                count <= at,
                count == rows.take(at as int).filter(keep).len(),
            decreases self.outcomes@.len() - at,
        {
            proof {
                assert(rows[at as int] == self.outcomes@[at as int]@);
                lemma_filter_step(rows, at as int, keep);
            }
            if self.outcomes[at].status == status {
                count += 1;
            }
            at += 1;
        }
        assert(rows.take(rows.len() as int) =~= rows);
        count
    }

    /// The counts of the campaign: the outcomes that were caught, those
    /// that were not, the two together, and those that were skipped.
    /// Outcomes that ran into the deadline or did not start count for
    /// nothing.
    pub fn get_campaign_summary(&self) -> (r: CampaignSummary)
        ensures
            r.caught == self@.outcomes.filter(has_status(Status::TestFail)).len(),
            r.uncaught == self@.outcomes.filter(has_status(Status::Uncaught)).len(),
            r.skipped == self@.outcomes.filter(has_status(Status::Skipped)).len(),
            r.tested == if r.caught + r.uncaught > usize::MAX {
                usize::MAX as int
            } else {
                r.caught + r.uncaught
            },
    {
        let caught = self.count_status(Status::TestFail);
        let uncaught = self.count_status(Status::Uncaught);
        let skipped = self.count_status(Status::Skipped);
        CampaignSummary { tested: caught.saturating_add(uncaught), caught, uncaught, skipped }
    }
}

/// What a pattern names on disk, as far as the catalog has to know.
#[derive(Debug, Clone)]
pub enum TargetPattern {
    /// A file, at this path.
    File(String),
    /// A directory, at this path.
    Directory(String),
    /// Neither: the paths that the pattern, read as a glob, expands to;
    /// none where it is no glob.
    Paths(Vec<String>),
}

/// Whether a path lies in a directory: it starts with the path of the
/// directory, and goes on, if it goes on, with a `/`.
pub open spec fn under_dir(path: Seq<char>, dir: Seq<char>) -> bool {
    &&& dir.len() <= path.len()
    &&& path.take(dir.len() as int) == dir
    &&& (path.len() == dir.len() || path[dir.len() as int] == '/' || (dir.len() > 0 && dir.last()
        == '/'))
}

/// Whether a pattern names the path of a target: the file itself, a
/// directory in which it lies, or a glob that expands to it.
pub open spec fn pattern_names(pattern: TargetPattern, path: Seq<char>) -> bool {
    match pattern {
        TargetPattern::File(file) => path == file@,
        TargetPattern::Directory(dir) => under_dir(path, dir@),
        TargetPattern::Paths(paths) => text_views(paths@).contains(path),
    }
}

/// Whether a path lies in a directory.
pub fn is_under_dir(path: &str, dir: &str) -> (r: bool)
    ensures
        r == under_dir(path@, dir@),
{
    let path_chars = crate::chars::to_chars(path);
    let dir_chars = crate::chars::to_chars(dir);
    if dir_chars.len() > path_chars.len() {
        return false;
    }
    let mut at: usize = 0;
    while at < dir_chars.len()
        invariant
            path_chars@ == path@,
            dir_chars@ == dir@,
            0 <= at <= dir_chars@.len() <= path_chars@.len(),
            forall|i: int| 0 <= i < at ==> path_chars@[i] == dir_chars@[i],
        decreases dir_chars@.len() - at,
    {
        if path_chars[at] != dir_chars[at] {
            assert(path_chars@.take(dir_chars@.len() as int)[at as int] != dir_chars@[at as int]);
            return false;
        }
        at += 1;
    }
    assert(path_chars@.take(dir_chars@.len() as int) =~= dir_chars@);
    path_chars.len() == dir_chars.len() || path_chars[dir_chars.len()] == '/' || (dir_chars.len()
        > 0 && dir_chars[dir_chars.len() - 1] == '/')
}

/// Whether a pattern names the path of a target.
pub fn names_path(pattern: &TargetPattern, path: &str) -> (r: bool)
    ensures
        r == pattern_names(*pattern, path@),
{
    match pattern {
        TargetPattern::File(file) => str_eq(path, file.as_str()),
        TargetPattern::Directory(dir) => is_under_dir(path, dir.as_str()),
        TargetPattern::Paths(paths) => {
            let mut at: usize = 0;
            while at < paths.len()
                invariant
                    *pattern == TargetPattern::Paths(*paths),
                    0 <= at <= paths@.len(),
                    forall|i: int| 0 <= i < at ==> (#[trigger] text_views(paths@)[i]) != path@,
                decreases paths@.len() - at,
            {
                if str_eq(paths[at].as_str(), path) {
                    assert(text_views(paths@)[at as int] == path@);
                    assert(text_views(paths@).contains(path@));
                    return true;
                }
                at += 1;
            }
            false
        },
    }
}

/// The ids of the targets that a pattern names.
pub open spec fn named_ids(targets: Seq<TargetView>, pattern: TargetPattern) -> Seq<i64> {
    targets.filter(named_by(pattern)).map_values(id_of())
}

/// The test for the targets that a pattern names.
pub open spec fn named_by(pattern: TargetPattern) -> spec_fn(TargetView) -> bool {
    |target: TargetView| pattern_names(pattern, target.path)
}

/// The id of a target.
pub open spec fn id_of() -> spec_fn(TargetView) -> i64 {
    |target: TargetView| target.id
}

/// Whether the counts are those of the mutants of a target: how many
/// there are, how many have an outcome of each status and how many have
/// none, caught and uncaught together as far as `usize` reaches, and how
/// the mutants fared slug by slug.
pub open spec fn stats_of(catalog: Catalog, target_id: i64, stats: TargetStats) -> bool {
    let own = catalog.mutants.filter(of_target(target_id));
    &&& stats.total_mutants == own.len()
    &&& stats.caught == own.filter(with_status(catalog.outcomes, Status::TestFail)).len()
    &&& stats.uncaught == own.filter(with_status(catalog.outcomes, Status::Uncaught)).len()
    &&& stats.timeout == own.filter(with_status(catalog.outcomes, Status::Timeout)).len()
    &&& stats.skipped == own.filter(with_status(catalog.outcomes, Status::Skipped)).len()
    &&& stats.build_fail == own.filter(with_status(catalog.outcomes, Status::BuildFail)).len()
    &&& stats.untested == own.filter(untested(catalog.outcomes)).len()
    &&& stats.tested == if stats.caught + stats.uncaught > usize::MAX {
        usize::MAX as int
    } else {
        stats.caught + stats.uncaught
    }
    &&& tallies_of(tally_views(stats.severity_stats@), catalog.fared(Some(target_id)))
}

/// What is asked of the mutants that a query lists.
pub struct MutantQuery {
    /// The targets to list mutants of; nothing stands for all.
    pub target_ids: Option<Seq<i64>>,
    /// A 1-based line that the mutant has to touch.
    pub line: Option<u32>,
    /// The slug that the mutant has to have.
    pub slug: Option<Seq<char>>,
    /// Whether only mutants with an outcome are asked for.
    pub tested: bool,
    /// Whether only mutants without an outcome are asked for.
    pub untested: bool,
}

/// What is asked of the outcomes that a query lists.
pub struct OutcomeQuery {
    pub target_ids: Option<Seq<i64>>,
    /// The name of the status that the outcome has to have.
    pub status: Option<Seq<char>>,
    /// The language that the target has to have.
    pub language: Option<Seq<char>>,
    pub slug: Option<Seq<char>>,
    pub line: Option<u32>,
}

impl Catalog {
    /// Whether a query for mutants lists the mutant: its target is in the
    /// catalog, and it is what the query asks for. A query that asks for
    /// tested and for untested mutants at once asks for both kinds.
    pub open spec fn lists_mutant(self, query: MutantQuery, mutant: MutantView) -> bool {
        &&& target_of(self.targets, mutant.target_id) is Some
        &&& query.tested && !query.untested ==> outcome_of(self.outcomes, mutant.id) is Some
        &&& query.untested && !query.tested ==> outcome_of(self.outcomes, mutant.id) is None
        &&& query.target_ids matches Some(ids) ==> ids.contains(mutant.target_id)
        &&& query.slug matches Some(slug) ==> mutant.mutation_slug == slug
        &&& query.line matches Some(line) ==> mutant.on_line(line)
    }

    /// Whether a query for outcomes lists the mutant: it has a target and
    /// an outcome in the catalog, and the three are what the query asks
    /// for.
    pub open spec fn lists_outcome(self, query: OutcomeQuery, mutant: MutantView) -> bool {
        &&& target_of(self.targets, mutant.target_id) is Some
        &&& outcome_of(self.outcomes, mutant.id) is Some
        &&& query.status matches Some(status) ==> outcome_of(
            self.outcomes,
            mutant.id,
        )->0.status.name() == status
        &&& query.language matches Some(language) ==> target_of(
            self.targets,
            mutant.target_id,
        )->0.language == language
        &&& query.target_ids matches Some(ids) ==> ids.contains(mutant.target_id)
        &&& query.slug matches Some(slug) ==> mutant.mutation_slug == slug
        &&& query.line matches Some(line) ==> mutant.on_line(line)
    }

    /// The test of a query for mutants.
    pub open spec fn mutant_test(self, query: MutantQuery) -> spec_fn(MutantView) -> bool {
        |mutant: MutantView| self.lists_mutant(query, mutant)
    }

    /// The test of a query for outcomes.
    pub open spec fn outcome_test(self, query: OutcomeQuery) -> spec_fn(MutantView) -> bool {
        |mutant: MutantView| self.lists_outcome(query, mutant)
    }

    /// The slug and the status of each outcome that ran to an end, for
    /// the mutants of a target or, where none is named, for all.
    pub open spec fn fared(self, target_id: Option<i64>) -> Seq<Fared> {
        self.mutants.filter(self.ran_to_end(target_id)).map_values(self.how_fared())
    }

    /// The test for the mutants whose outcome ran to an end, of a target
    /// or, where none is named, of all.
    pub open spec fn ran_to_end(self, target_id: Option<i64>) -> spec_fn(MutantView) -> bool {
        |mutant: MutantView|
            outcome_of(self.outcomes, mutant.id) matches Some(outcome)
                && outcome.status.is_eligible() && (target_id matches Some(id) ==> mutant.target_id
                == id)
    }

    /// The slug of a mutant with the status of its outcome.
    pub open spec fn how_fared(self) -> spec_fn(MutantView) -> Fared {
        |mutant: MutantView|
            (Fared {
                slug: mutant.mutation_slug,
                status: outcome_of(self.outcomes, mutant.id)->0.status,
            })
    }

    /// A mutant with its target.
    pub open spec fn with_its_target(self) -> spec_fn(MutantView) -> (MutantView, TargetView) {
        |mutant: MutantView| (mutant, target_of(self.targets, mutant.target_id)->0)
    }

    /// A mutant with its target and its outcome.
    pub open spec fn with_its_rows(self) -> spec_fn(MutantView) -> (
        MutantView,
        TargetView,
        OutcomeView,
    ) {
        |mutant: MutantView|
            (
                mutant,
                target_of(self.targets, mutant.target_id)->0,
                outcome_of(self.outcomes, mutant.id)->0,
            )
    }
}

/// What an optional list of ids says.
pub open spec fn ids_view(ids: Option<Vec<i64>>) -> Option<Seq<i64>> {
    match ids {
        Some(ids) => Some(ids@),
        None => None,
    }
}

/// Whether an id is in a list.
fn has_id(ids: &Vec<i64>, id: i64) -> (r: bool)
    ensures
        r == ids@.contains(id),
{
    let mut at: usize = 0;
    while at < ids.len()
        invariant
            0 <= at <= ids@.len(),
            forall|i: int| 0 <= i < at ==> ids@[i] != id,
        decreases ids@.len() - at,
    {
        if ids[at] == id {
            return true;
        }
        at += 1;
    }
    false
}

/// The mutants with their targets.
pub open spec fn pair_views(pairs: Seq<(Mutant, Target)>) -> Seq<(MutantView, TargetView)> {
    pairs.map_values(|pair: (Mutant, Target)| (pair.0@, pair.1@))
}

/// The mutants with their targets and outcomes.
pub open spec fn triple_views(triples: Seq<(Mutant, Target, Outcome)>) -> Seq<
    (MutantView, TargetView, OutcomeView),
> {
    triples.map_values(|triple: (Mutant, Target, Outcome)| (triple.0@, triple.1@, triple.2@))
}

impl SqlStore {
    /// The ids of the targets that a pattern names; nothing where there
    /// is no pattern, which stands for all targets.
    pub fn match_target_ids(&self, pattern: Option<&TargetPattern>) -> (r: Option<Vec<i64>>)
        ensures
            ids_view(r) == match pattern {
                Some(pattern) => Some(named_ids(self@.targets, *pattern)),
                None => None,
            },
    {
        match pattern {
            None => None,
            Some(pattern) => {
                let ghost rows = self@.targets;
                let ghost keep = named_by(*pattern);
                let ghost ids_of = id_of();
                let mut ids: Vec<i64> = Vec::new();
                let mut at: usize = 0;
                proof {
                    assert(rows.take(0) =~= Seq::<TargetView>::empty());
                    reveal(Seq::filter);
                    assert(ids@ =~= rows.take(0).filter(keep).map_values(ids_of));
                }
                while at < self.targets.len()
                    invariant
                        0 <= at <= self.targets@.len(),
                        rows == self@.targets,
                        rows.len() == self.targets@.len(),
                        keep == named_by(*pattern),
                        ids_of == id_of(),
                        ids@ == rows.take(at as int).filter(keep).map_values(ids_of),
                    decreases self.targets@.len() - at,
                {
                    let row = &self.targets[at];
                    proof {
                        assert(rows[at as int] == row@);
                        lemma_filter_step(rows, at as int, keep);
                    }
                    if names_path(pattern, row.path.as_str()) {
                        proof {
                            let kept = rows.take(at as int).filter(keep);
                            assert(kept.push(row@).map_values(ids_of) =~= kept.map_values(
                                ids_of,
                            ).push(row.id));
                        }
                        ids.push(row.id);
                    }
                    at += 1;
                }
                proof {
                    assert(rows.take(rows.len() as int) =~= rows);

                }
                Some(ids)
            },
        }
    }

    /// The row of a target, by its id.
    fn target_row(&self, id: i64) -> (r: Option<usize>)
        ensures
            match r {
                Some(at) => at < self.targets@.len() && target_of(self@.targets, id) == Some(
                    self.targets@[at as int]@,
                ),
                None => target_of(self@.targets, id) is None,
            },
    {
        let mut at: usize = 0;
        while at < self.targets.len()
            invariant
                0 <= at <= self.targets@.len(),
                self@.targets.len() == self.targets@.len(),
                target_place(self@.targets, id, 0) == target_place(self@.targets, id, at as int),
            decreases self.targets@.len() - at,
        {
            assert(self@.targets[at as int] == self.targets@[at as int]@);
            if self.targets[at].id == id {
                return Some(at);
            }
            at += 1;
        }
        None
    }

    /// The mutants that a query lists, each with its target, in the
    /// order of the mutants.
    pub fn get_mutants_filtered(
        &self,
        target: Option<&TargetPattern>,
        line: Option<u32>,
        mutation_type: Option<&str>,
        tested: bool,
        untested: bool,
    ) -> (r: Vec<(Mutant, Target)>)
        ensures
            pair_views(r@) == self@.mutants.filter(
                self@.mutant_test(
                    MutantQuery {
                        target_ids: match target {
                            Some(pattern) => Some(named_ids(self@.targets, *pattern)),
                            None => None,
                        },
                        line,
                        slug: match mutation_type {
                            Some(slug) => Some(slug@),
                            None => None,
                        },
                        tested,
                        untested,
                    },
                ),
            ).map_values(self@.with_its_target()),
    {
        let target_ids = self.match_target_ids(target);
        let ghost query = MutantQuery {
            target_ids: ids_view(target_ids),
            line,
            slug: match mutation_type {
                Some(slug) => Some(slug@),
                None => None,
            },
            tested,
            untested,
        };
        let ghost rows = self@.mutants;
        let ghost keep = self@.mutant_test(query);
        let ghost pair = self@.with_its_target();
        let mut out: Vec<(Mutant, Target)> = Vec::new();
        let mut at: usize = 0;
        proof {
            assert(rows.take(0) =~= Seq::<MutantView>::empty());
            reveal(Seq::filter);
            assert(pair_views(out@) =~= rows.take(0).filter(keep).map_values(pair));
        }
        while at < self.mutants.len()
            invariant
                0 <= at <= self.mutants@.len(),
                rows == self@.mutants,
                rows.len() == self.mutants@.len(),
                query.target_ids == ids_view(target_ids),
                query.line == line,
                query.slug == match mutation_type {
                    Some(slug) => Some(slug@),
                    None => None,
                },
                query.tested == tested,
                query.untested == untested,
                keep == self@.mutant_test(query),
                pair == self@.with_its_target(),
                pair_views(out@) == rows.take(at as int).filter(keep).map_values(pair),
            decreases self.mutants@.len() - at,
        {
            let row = &self.mutants[at];
            proof {
                assert(rows[at as int] == row@);
                lemma_filter_step(rows, at as int, keep);
            }
            let mut listed: bool = true;
            if tested != untested {
                let done = self.status_of(row.id).is_some();
                if tested && !done {
                    listed = false;
                }
                if untested && done {
                    listed = false;
                }
            }
            match &target_ids {
                Some(ids) => {
                    if !has_id(ids, row.target_id) {
                        listed = false;
                    }
                },
                None => {},
            }
            match mutation_type {
                Some(slug) => {
                    if !str_eq(row.mutation_slug.as_str(), slug) {
                        listed = false;
                    }
                },
                None => {},
            }
            match line {
                Some(line) => {
                    if !row.matches_line(line) {
                        listed = false;
                    }
                },
                None => {},
            }
            let owner = self.target_row(row.target_id);
            match owner {
                Some(owner) => {
                    if listed {
                        let entry = (row.copy(), self.targets[owner].copy());
                        proof {
                            let kept = rows.take(at as int).filter(keep);
                            assert(kept.push(row@).map_values(pair) =~= kept.map_values(pair).push(
                                pair(row@),
                            ));
                            assert(pair_views(out@.push(entry)) =~= pair_views(out@).push(
                                (entry.0@, entry.1@),
                            ));
                        }
                        out.push(entry);
                    }
                },
                None => {},
            }
            at += 1;
        }
        assert(rows.take(rows.len() as int) =~= rows);
        out
    }

    /// The mutants with an outcome that a query lists, each with its
    /// target and its outcome, in the order of the mutants.
    pub fn get_outcomes_filtered(
        &self,
        target: Option<&TargetPattern>,
        status: Option<&str>,
        language: Option<&str>,
        mutation_type: Option<&str>,
        line: Option<u32>,
    ) -> (r: Vec<(Mutant, Target, Outcome)>)
        ensures
            triple_views(r@) == self@.mutants.filter(
                self@.outcome_test(
                    OutcomeQuery {
                        target_ids: match target {
                            Some(pattern) => Some(named_ids(self@.targets, *pattern)),
                            None => None,
                        },
                        status: match status {
                            Some(status) => Some(status@),
                            None => None,
                        },
                        language: match language {
                            Some(language) => Some(language@),
                            None => None,
                        },
                        slug: match mutation_type {
                            Some(slug) => Some(slug@),
                            None => None,
                        },
                        line,
                    },
                ),
            ).map_values(self@.with_its_rows()),
    {
        let target_ids = self.match_target_ids(target);
        let ghost query = OutcomeQuery {
            target_ids: ids_view(target_ids),
            status: match status {
                Some(status) => Some(status@),
                None => None,
            },
            language: match language {
                Some(language) => Some(language@),
                None => None,
            },
            slug: match mutation_type {
                Some(slug) => Some(slug@),
                None => None,
            },
            line,
        };
        let ghost rows = self@.mutants;
        let ghost keep = self@.outcome_test(query);
        let ghost triple = self@.with_its_rows();
        let mut out: Vec<(Mutant, Target, Outcome)> = Vec::new();
        let mut at: usize = 0;
        proof {
            assert(rows.take(0) =~= Seq::<MutantView>::empty());
            reveal(Seq::filter);
            assert(triple_views(out@) =~= rows.take(0).filter(keep).map_values(triple));
        }
        while at < self.mutants.len()
            invariant
                0 <= at <= self.mutants@.len(),
                rows == self@.mutants,
                rows.len() == self.mutants@.len(),
                query.target_ids == ids_view(target_ids),
                query.status == match status {
                    Some(status) => Some(status@),
                    None => None,
                },
                query.language == match language {
                    Some(language) => Some(language@),
                    None => None,
                },
                query.slug == match mutation_type {
                    Some(slug) => Some(slug@),
                    None => None,
                },
                query.line == line,
                keep == self@.outcome_test(query),
                triple == self@.with_its_rows(),
                triple_views(out@) == rows.take(at as int).filter(keep).map_values(triple),
            decreases self.mutants@.len() - at,
        {
            let row = &self.mutants[at];
            proof {
                assert(rows[at as int] == row@);
                lemma_filter_step(rows, at as int, keep);
            }
            let owner = self.target_row(row.target_id);
            let outcome = self.get_outcome(row.id);
            match (owner, outcome) {
                (Some(owner), Some(outcome)) => {
                    let mut listed: bool = true;
                    match status {
                        Some(status) => {
                            if !str_eq(outcome.status.as_str(), status) {
                                listed = false;
                            }
                        },
                        None => {},
                    }
                    match language {
                        Some(language) => {
                            if !str_eq(self.targets[owner].language.as_str(), language) {
                                listed = false;
                            }
                        },
                        None => {},
                    }
                    match &target_ids {
                        Some(ids) => {
                            if !has_id(ids, row.target_id) {
                                listed = false;
                            }
                        },
                        None => {},
                    }
                    match mutation_type {
                        Some(slug) => {
                            if !str_eq(row.mutation_slug.as_str(), slug) {
                                listed = false;
                            }
                        },
                        None => {},
                    }
                    match line {
                        Some(line) => {
                            if !row.matches_line(line) {
                                listed = false;
                            }
                        },
                        None => {},
                    }
                    if listed {
                        let entry = (row.copy(), self.targets[owner].copy(), outcome);
                        proof {
                            let kept = rows.take(at as int).filter(keep);
                            assert(kept.push(row@).map_values(triple) =~= kept.map_values(
                                triple,
                            ).push(triple(row@)));
                            assert(triple_views(out@.push(entry)) =~= triple_views(out@).push(
                                (entry.0@, entry.1@, entry.2@),
                            ));
                        }
                        out.push(entry);
                    }
                },
                _ => {},
            }
            at += 1;
        }
        assert(rows.take(rows.len() as int) =~= rows);
        out
    }

    /// The slug and the status of each outcome that ran to an end, for
    /// the mutants of a target or, where none is named, for all.
    fn fared(&self, target_id: Option<i64>) -> (r: Vec<(String, Status)>)
        ensures
            fared_views(r@) == self@.fared(target_id),
    {
        let ghost rows = self@.mutants;
        let ghost keep = self@.ran_to_end(target_id);
        let ghost tell = self@.how_fared();
        let mut out: Vec<(String, Status)> = Vec::new();
        let mut at: usize = 0;
        proof {
            assert(rows.take(0) =~= Seq::<MutantView>::empty());
            reveal(Seq::filter);
            assert(fared_views(out@) =~= rows.take(0).filter(keep).map_values(tell));
        }
        while at < self.mutants.len()
            invariant
                0 <= at <= self.mutants@.len(),
                rows == self@.mutants,
                rows.len() == self.mutants@.len(),
                keep == self@.ran_to_end(target_id),
                tell == self@.how_fared(),
                fared_views(out@) == rows.take(at as int).filter(keep).map_values(tell),
            decreases self.mutants@.len() - at,
        {
            let row = &self.mutants[at];
            proof {
                assert(rows[at as int] == row@);
                lemma_filter_step(rows, at as int, keep);
            }
            let of_target: bool = match target_id {
                Some(id) => row.target_id == id,
                None => true,
            };
            match self.status_of(row.id) {
                Some(status) => {
                    if status.is_eligible() && of_target {
                        let entry = (row.mutation_slug.clone(), status);
                        proof {
                            let kept = rows.take(at as int).filter(keep);
                            assert(kept.push(row@).map_values(tell) =~= kept.map_values(tell).push(
                                tell(row@),
                            ));
                            assert(fared_views(out@.push(entry)) =~= fared_views(out@).push(
                                Fared { slug: entry.0@, status: entry.1 },
                            ));
                        }
                        out.push(entry);
                    }
                },
                None => {},
            }
            at += 1;
        }
        assert(rows.take(rows.len() as int) =~= rows);
        out
    }

    /// How the mutants of the whole campaign fared, slug by slug.
    pub fn get_campaign_severity_stats(&self) -> (r: CampaignSeverityStats)
        ensures
            tallies_of(tally_views(r.severity_stats@), self@.fared(None)),
    {
        let fared = self.fared(None);
        CampaignSeverityStats { severity_stats: tally_slugs(&fared) }
    }

    /// The number of outcomes of the mutants of a target with a status.
    fn count_for_target(&self, target_id: i64, status: Status) -> (r: usize)
        ensures
            r == self@.mutants.filter(of_target(target_id)).filter(
                with_status(self@.outcomes, status),
            ).len(),
            r <= self@.mutants.filter(of_target(target_id)).len(),
    {
        let mutants = self.get_mutants(target_id);
        let ghost rows = mutant_views(mutants@);
        let ghost keep = with_status(self@.outcomes, status);
        let mut count: usize = 0;
        let mut at: usize = 0;
        proof {
            assert(rows.take(0) =~= Seq::<MutantView>::empty());
            reveal(Seq::filter);
        }
        while at < mutants.len()
            invariant
                0 <= at <= mutants@.len(),
                rows == mutant_views(mutants@),
                keep == with_status(self@.outcomes, status),
                count <= at,
                count == rows.take(at as int).filter(keep).len(),
            decreases mutants@.len() - at,
        {
            proof {
                assert(rows[at as int] == mutants@[at as int]@);
                lemma_filter_step(rows, at as int, keep);
            }
            if self.status_of(mutants[at].id) == Some(status) {
                count += 1;
            }
            at += 1;
        }
        assert(rows.take(rows.len() as int) =~= rows);
        count
    }

    /// The counts of the mutants of a target.
    pub fn get_target_stats(&self, target_id: i64) -> (r: TargetStats)
        ensures
            stats_of(self@, target_id, r),
    {
        let total_mutants = self.get_mutants(target_id).len();
        let caught = self.count_for_target(target_id, Status::TestFail);
        let uncaught = self.count_for_target(target_id, Status::Uncaught);
        let timeout = self.count_for_target(target_id, Status::Timeout);
        let skipped = self.count_for_target(target_id, Status::Skipped);
        let build_fail = self.count_for_target(target_id, Status::BuildFail);
        let (untested, _) = self.get_mutant_test_counts(target_id);
        let fared = self.fared(Some(target_id));
        TargetStats {
            total_mutants,
            tested: caught.saturating_add(uncaught),
            untested,
            caught,
            uncaught,
            timeout,
            skipped,
            build_fail,
            severity_stats: tally_slugs(&fared),
        }
    }
}

/// What is kept of rows of which no two clash holds no two that clash,
/// and every row that is kept was there.
pub proof fn lemma_filter_keeps_apart<A>(
    rows: Seq<A>,
    keep: spec_fn(A) -> bool,
    clash: spec_fn(A, A) -> bool,
)
    requires
        forall|i: int, j: int| 0 <= i < j < rows.len() ==> !clash(rows[i], rows[j]),
    ensures
        forall|i: int, j: int|
            0 <= i < j < rows.filter(keep).len() ==> !clash(
                rows.filter(keep)[i],
                rows.filter(keep)[j],
            ),
        forall|i: int| 0 <= i < rows.filter(keep).len() ==> rows.contains(rows.filter(keep)[i]),
    decreases rows.len(),
{
    reveal(Seq::filter);
    if rows.len() > 0 {
        let rest = rows.drop_last();
        let last = rows.last();
        assert forall|i: int, j: int| 0 <= i < j < rest.len() implies !clash(rest[i], rest[j]) by {
            assert(rest[i] == rows[i] && rest[j] == rows[j]);
        }
        lemma_filter_keeps_apart(rest, keep, clash);
        let kept = rows.filter(keep);
        let before = rest.filter(keep);
        assert forall|i: int| 0 <= i < kept.len() implies rows.contains(kept[i]) by {
            if i < before.len() {
                assert(kept[i] == before[i]);
                let k = choose|k: int| 0 <= k < rest.len() && rest[k] == before[i];
                assert(rows[k] == kept[i]);
            } else {
                assert(kept[i] == last);
                assert(rows[rows.len() - 1] == last);
            }
        }
        assert forall|i: int, j: int| 0 <= i < j < kept.len() implies !clash(kept[i], kept[j]) by {
            if j < before.len() {
                assert(kept[i] == before[i] && kept[j] == before[j]);
            } else {
                assert(kept[i] == before[i]);
                let k = choose|k: int| 0 <= k < rest.len() && rest[k] == before[i];
                assert(rows[k] == kept[i]);
                assert(!clash(rows[k], rows[rows.len() - 1]));
            }
        }
    }
}

/// Removing a target keeps the keys of the catalog.
pub proof fn lemma_without_target_wf(catalog: Catalog, id: i64)
    requires
        catalog.wf(),
    ensures
        catalog.without_target(id).wf(),
{
    let after = catalog.without_target(id);
    let keep_target = |target: TargetView| target.id != id;
    let keep_mutant = |mutant: MutantView| mutant.target_id != id;
    let keep_outcome = |outcome: OutcomeView|
        !(mutant_of(catalog.mutants, outcome.mutant_id) matches Some(mutant) && mutant.target_id
            == id);
    lemma_filter_keeps_apart(
        catalog.targets,
        keep_target,
        |a: TargetView, b: TargetView| a.id == b.id || a.file_hash == b.file_hash,
    );
    lemma_filter_keeps_apart(
        catalog.mutants,
        keep_mutant,
        |a: MutantView, b: MutantView| a.id == b.id || a.same_edit(b),
    );
    lemma_filter_keeps_apart(
        catalog.outcomes,
        keep_outcome,
        |a: OutcomeView, b: OutcomeView| a.mutant_id == b.mutant_id,
    );
    assert forall|i: int| 0 <= i < after.targets.len() implies 0 < (#[trigger] after.targets[i]).id
        <= after.last_target_id by {
        let k = choose|k: int| 0 <= k < catalog.targets.len() && catalog.targets[k] == after.targets[i];
        assert(0 < catalog.targets[k].id);
    }
    assert forall|i: int| 0 <= i < after.mutants.len() implies 0 < (#[trigger] after.mutants[i]).id
        <= after.last_mutant_id by {
        let k = choose|k: int| 0 <= k < catalog.mutants.len() && catalog.mutants[k] == after.mutants[i];
        assert(0 < catalog.mutants[k].id);
    }
}

impl SqlStore {
    /// Removes a target, and with it its mutants and their outcomes.
    pub fn remove_target(&mut self, target_id: i64)
        requires
            old(self).wf(),
        ensures
            final(self).wf(),
            final(self)@ == old(self)@.without_target(target_id),
    {
        let ghost before = self@;
        let ghost keep_target = |target: TargetView| target.id != target_id;
        let ghost keep_mutant = |mutant: MutantView| mutant.target_id != target_id;
        let ghost keep_outcome = |outcome: OutcomeView|
            !(mutant_of(before.mutants, outcome.mutant_id) matches Some(mutant) && mutant.target_id
                == target_id);
        let mut outcomes: Vec<Outcome> = Vec::new();
        let mut at: usize = 0;
        proof {
            reveal(Seq::filter);
            assert(before.outcomes.take(0) =~= Seq::<OutcomeView>::empty());
            assert(outcome_views(outcomes@) =~= before.outcomes.take(0).filter(keep_outcome));
        }
        while at < self.outcomes.len()
            invariant
                self@ == before,
                before.outcomes.len() == self.outcomes@.len(),
                0 <= at <= self.outcomes@.len(),
                keep_outcome == |outcome: OutcomeView|
                    !(mutant_of(before.mutants, outcome.mutant_id) matches Some(mutant)
                        && mutant.target_id == target_id),
                outcome_views(outcomes@) == before.outcomes.take(at as int).filter(keep_outcome),
            decreases self.outcomes@.len() - at,
        {
            let row = &self.outcomes[at];
            proof {
                assert(before.outcomes[at as int] == row@);
                lemma_filter_step(before.outcomes, at as int, keep_outcome);
            }
            if self.target_of_mutant(row.mutant_id) != Some(target_id) {
                let copy = row.copy();
                assert(outcome_views(outcomes@.push(copy)) =~= outcome_views(outcomes@).push(copy@));
                outcomes.push(copy);
            }
            at += 1;
        }
        assert(before.outcomes.take(before.outcomes.len() as int) =~= before.outcomes);
        let mut mutants: Vec<Mutant> = Vec::new();
        at = 0;
        proof {
            assert(before.mutants.take(0) =~= Seq::<MutantView>::empty());
            assert(mutant_views(mutants@) =~= before.mutants.take(0).filter(keep_mutant));
        }
        while at < self.mutants.len()
            invariant
                self@ == before,
                before.mutants.len() == self.mutants@.len(),
                0 <= at <= self.mutants@.len(),
                keep_mutant == |mutant: MutantView| mutant.target_id != target_id,
                mutant_views(mutants@) == before.mutants.take(at as int).filter(keep_mutant),
            decreases self.mutants@.len() - at,
        {
            let row = &self.mutants[at];
            proof {
                assert(before.mutants[at as int] == row@);
                lemma_filter_step(before.mutants, at as int, keep_mutant);
            }
            if row.target_id != target_id {
                let copy = row.copy();
                assert(mutant_views(mutants@.push(copy)) =~= mutant_views(mutants@).push(copy@));
                mutants.push(copy);
            }
            at += 1;
        }
        assert(before.mutants.take(before.mutants.len() as int) =~= before.mutants);
        let mut targets: Vec<Target> = Vec::new();
        at = 0;
        proof {
            assert(before.targets.take(0) =~= Seq::<TargetView>::empty());
            assert(target_views(targets@) =~= before.targets.take(0).filter(keep_target));
        }
        while at < self.targets.len()
            invariant
                self@ == before,
                before.targets.len() == self.targets@.len(),
                0 <= at <= self.targets@.len(),
                keep_target == |target: TargetView| target.id != target_id,
                target_views(targets@) == before.targets.take(at as int).filter(keep_target),
            decreases self.targets@.len() - at,
        {
            let row = &self.targets[at];
            proof {
                assert(before.targets[at as int] == row@);
                lemma_filter_step(before.targets, at as int, keep_target);
            }
            if row.id != target_id {
                let copy = row.copy();
                assert(target_views(targets@.push(copy)) =~= target_views(targets@).push(copy@));
                targets.push(copy);
            }
            at += 1;
        }
        assert(before.targets.take(before.targets.len() as int) =~= before.targets);
        proof {
            lemma_without_target_wf(before, target_id);
        }
        self.targets = targets;
        self.mutants = mutants;
        self.outcomes = outcomes;
    }
}

impl Catalog {
    /// Whether a target can come as a row of its own, under the id that
    /// it has: the id is positive, and no target has the id or the hash.
    pub open spec fn takes_target(self, target: TargetView) -> bool {
        &&& target.id > 0
        &&& forall|i: int|
            0 <= i < self.targets.len() ==> (#[trigger] self.targets[i]).id != target.id
                && self.targets[i].file_hash != target.file_hash
    }

    /// Whether a mutant can come as a row of its own, under the id that
    /// it has: the id is positive, and no mutant has the id or makes the
    /// same edit.
    pub open spec fn takes_mutant(self, mutant: MutantView) -> bool {
        &&& mutant.id > 0
        &&& forall|i: int|
            0 <= i < self.mutants.len() ==> (#[trigger] self.mutants[i]).id != mutant.id
                && !self.mutants[i].same_edit(mutant)
    }

    /// The catalog with one more row of a target.
    pub open spec fn with_target_row(self, target: TargetView) -> Catalog {
        Catalog {
            targets: self.targets.push(target),
            mutants: self.mutants,
            outcomes: self.outcomes,
            last_target_id: if target.id > self.last_target_id {
                target.id
            } else {
                self.last_target_id
            },
            last_mutant_id: self.last_mutant_id,
        }
    }

    /// The catalog with one more row of a mutant.
    pub open spec fn with_mutant_row(self, mutant: MutantView) -> Catalog {
        Catalog {
            targets: self.targets,
            mutants: self.mutants.push(mutant),
            outcomes: self.outcomes,
            last_target_id: self.last_target_id,
            last_mutant_id: if mutant.id > self.last_mutant_id {
                mutant.id
            } else {
                self.last_mutant_id
            },
        }
    }
}

impl SqlStore {
    /// Takes the row of a target as it was stored, under the id that it
    /// has. Where the keys of the catalog do not allow it, nothing
    /// changes, and `false` comes back.
    pub fn insert_target_row(&mut self, target: Target) -> (r: bool)
        requires
            old(self).wf(),
        ensures
            final(self).wf(),
            r == old(self)@.takes_target(target@),
            r ==> final(self)@ == old(self)@.with_target_row(target@),
            !r ==> final(self)@ == old(self)@,
    {
        if target.id <= 0 {
            return false;
        }
        let mut at: usize = 0;
        while at < self.targets.len()
            invariant
                self@ == old(self)@,
                self.wf(),
                target.id > 0,
                self@.targets.len() == self.targets@.len(),
                0 <= at <= self.targets@.len(),
                forall|i: int|
                    0 <= i < at ==> (#[trigger] self@.targets[i]).id != target.id
                        && self@.targets[i].file_hash != target@.file_hash,
            decreases self.targets@.len() - at,
        {
            assert(self@.targets[at as int] == self.targets@[at as int]@);
            if self.targets[at].id == target.id || self.targets[at].file_hash.same_as(
                &target.file_hash,
            ) {
                return false;
            }
            at += 1;
        }
        let ghost before = self@;
        if target.id > self.last_target_id {
            self.last_target_id = target.id;
        }
        self.targets.push(target);
        proof {
            let after = before.with_target_row(target@);
            assert(self@.targets =~= after.targets);
            assert forall|i: int| 0 <= i < after.targets.len() implies 0 < (
            #[trigger] after.targets[i]).id <= after.last_target_id by {
                if i < before.targets.len() {
                    assert(after.targets[i] == before.targets[i]);
                }
            }
            assert forall|i: int, j: int| 0 <= i < j < after.targets.len() implies (
            #[trigger] after.targets[i]).id != (#[trigger] after.targets[j]).id
                && after.targets[i].file_hash != after.targets[j].file_hash by {
                assert(after.targets[i] == before.targets[i]);
                if j < before.targets.len() {
                    assert(after.targets[j] == before.targets[j]);
                }
            }
        }
        true
    }

    /// Takes the row of a mutant as it was stored, under the id that it
    /// has. Where the keys of the catalog do not allow it, nothing
    /// changes, and `false` comes back.
    pub fn insert_mutant_row(&mut self, mutant: Mutant) -> (r: bool)
        requires
            old(self).wf(),
        ensures
            final(self).wf(),
            r == old(self)@.takes_mutant(mutant@),
            r ==> final(self)@ == old(self)@.with_mutant_row(mutant@),
            !r ==> final(self)@ == old(self)@,
    {
        if mutant.id <= 0 {
            return false;
        }
        let mut at: usize = 0;
        while at < self.mutants.len()
            invariant
                self@ == old(self)@,
                self.wf(),
                mutant.id > 0,
                self@.mutants.len() == self.mutants@.len(),
                0 <= at <= self.mutants@.len(),
                forall|i: int|
                    0 <= i < at ==> (#[trigger] self@.mutants[i]).id != mutant.id
                        && !self@.mutants[i].same_edit(mutant@),
            decreases self.mutants@.len() - at,
        {
            assert(self@.mutants[at as int] == self.mutants@[at as int]@);
            if self.mutants[at].id == mutant.id || same_edit(&self.mutants[at], &mutant) {
                return false;
            }
            at += 1;
        }
        let ghost before = self@;
        if mutant.id > self.last_mutant_id {
            self.last_mutant_id = mutant.id;
        }
        self.mutants.push(mutant);
        proof {
            let after = before.with_mutant_row(mutant@);
            assert(self@.mutants =~= after.mutants);
            assert forall|i: int| 0 <= i < after.mutants.len() implies 0 < (
            #[trigger] after.mutants[i]).id <= after.last_mutant_id by {
                if i < before.mutants.len() {
                    assert(after.mutants[i] == before.mutants[i]);
                }
            }
            assert forall|i: int, j: int| 0 <= i < j < after.mutants.len() implies (
            #[trigger] after.mutants[i]).id != (#[trigger] after.mutants[j]).id
                && !after.mutants[i].same_edit(after.mutants[j]) by {
                assert(after.mutants[i] == before.mutants[i]);
                if j < before.mutants.len() {
                    assert(after.mutants[j] == before.mutants[j]);
                }
            }
        }
        true
    }
}

/// A row of the table of targets as it is stored: the hash in hex.
pub fn decode_target(
    id: i64,
    path: String,
    file_hash: String,
    text: String,
    language: String,
) -> (r: Result<Target, StoreError>)
    ensures
        match crate::types::hash::Hash::try_from_spec(file_hash@) {
            Ok(hash) => r is Ok && r->Ok_0@ == (TargetView {
                id,
                path: path@,
                file_hash: hash,
                text: text@,
                language: language@,
            }),
            Err(_) => r is Err && r->Err_0 is InvalidHash,
        },
{
    match crate::types::hash::Hash::try_from(file_hash) {
        Ok(hash) => Ok(Target { id, path, file_hash: hash, text, language }),
        Err(error) => Err(StoreError::InvalidHash(error)),
    }
}

/// A row of the table of mutants as it is stored: offsets as 64-bit
/// numbers, of which the low 32 bits count.
pub fn decode_mutant(
    id: i64,
    target_id: i64,
    byte_offset: i64,
    line_offset: i64,
    old_text: String,
    new_text: String,
    mutation_slug: String,
) -> (r: Mutant)
    ensures
        r@ == (MutantView {
            id,
            target_id,
            byte_offset: byte_offset as u32,
            line_offset: line_offset as u32,
            old_text: bytes_of(old_text@),
            new_text: bytes_of(new_text@),
            mutation_slug: mutation_slug@,
        }),
{
    Mutant {
        id,
        target_id,
        byte_offset: #[verifier::truncate]
        (byte_offset as u32),
        line_offset: #[verifier::truncate]
        (line_offset as u32),
        old_text,
        new_text,
        mutation_slug,
    }
}

/// A row of the table of outcomes as it is stored: the status by its
/// name, the time in the form of RFC 3339, the duration as a 64-bit
/// number, of which the low 32 bits count.
pub fn decode_outcome(
    mutant_id: i64,
    status: &str,
    output: String,
    time: &str,
    duration_ms: i64,
) -> (r: Result<Outcome, StoreError>)
    ensures
        match (Status::named(status@), crate::types::outcome::rfc3339_instant(time@)) {
            (Some(status), Some(time)) => r is Ok && r->Ok_0@ == (OutcomeView {
                mutant_id,
                status,
                output: output@,
                time,
                duration_ms: duration_ms as u32,
            }),
            (None, _) => r is Err && (r->Err_0 matches StoreError::InvalidStatus(text) && text@
                == status@),
            (Some(_), None) => r is Err && (r->Err_0 matches StoreError::InvalidTime(text) && text@
                == time@),
        },
{
    match Status::from_str(status) {
        None => Err(StoreError::InvalidStatus(status.to_string())),
        Some(status) => match Timestamp::parse_from_rfc3339(time) {
            None => Err(StoreError::InvalidTime(time.to_string())),
            Some(time) => Ok(
                Outcome {
                    mutant_id,
                    status,
                    output,
                    time,
                    duration_ms: #[verifier::truncate]
                    (duration_ms as u32),
                },
            ),
        },
    }
}

/// Moving a target to another path keeps the keys of the catalog.
pub proof fn lemma_with_target_wf_moved(catalog: Catalog, target: TargetView)
    requires
        catalog.wf(),
        hash_place(catalog.targets, target.file_hash, 0) < catalog.targets.len(),
    ensures
        catalog.with_target(target).wf(),
{
    lemma_hash_place(catalog.targets, target.file_hash, 0);
    let after = catalog.with_target(target);
    assert forall|i: int| 0 <= i < after.targets.len() implies 0 < (#[trigger] after.targets[i]).id
        <= after.last_target_id by {
        assert(after.targets[i].id == catalog.targets[i].id);
    }
    assert forall|i: int, j: int| 0 <= i < j < after.targets.len() implies (
    #[trigger] after.targets[i]).id != (#[trigger] after.targets[j]).id
        && after.targets[i].file_hash != after.targets[j].file_hash by {
        assert(after.targets[i].id == catalog.targets[i].id);
        assert(after.targets[j].id == catalog.targets[j].id);
        assert(after.targets[i].file_hash == catalog.targets[i].file_hash);
        assert(after.targets[j].file_hash == catalog.targets[j].file_hash);
    }
}

} // verus!
