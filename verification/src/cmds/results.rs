//! Showing outcomes: which are shown, in which order, how they are
//! counted, and what a SARIF report holds.

use crate::chars::said;
use crate::engine::rules::mutant_views;
use crate::runner::{severity_for, severity_or_low};
use crate::store::{
    lemma_filter_step, outcome_of, triple_views, Catalog, OutcomeQuery, SqlStore, TargetPattern,
};
use crate::text::bytes_of;
use crate::types::error::StoreError;
use crate::types::mutant::{Mutant, MutantView};
use crate::types::mutation::{Mutation, MutationSeverity};
use crate::types::outcome::{Outcome, OutcomeView, Status};
use crate::types::target::{Target, TargetView};
use vstd::prelude::*;
use vstd::string::*;

verus! {

/// What `results` is asked to show.
#[derive(Debug, Clone)]
pub struct ResultsFilters {
    pub target: Option<String>,
    pub verbose: bool,
    pub id: Option<i64>,
    pub all: bool,
    pub status: Option<String>,
    pub language: Option<String>,
    pub mutation_type: Option<String>,
    pub line: Option<u32>,
    pub file: Option<String>,
    pub format: String,
}

impl ResultsFilters {
    /// Whether the outcomes are picked by what they are, not target by
    /// target: a status, a language, a slug, a line or a file is asked
    /// for.
    pub open spec fn spec_uses_filters(&self) -> bool {
        self.status is Some || self.language is Some || self.mutation_type is Some
            || self.line is Some || self.file is Some
    }

    /// Whether the outcomes are picked by what they are.
    #[verifier::when_used_as_spec(spec_uses_filters)]
    pub fn uses_filters(&self) -> (r: bool)
        ensures
            r == self.spec_uses_filters(),
    {
        self.status.is_some() || self.language.is_some() || self.mutation_type.is_some()
            || self.line.is_some() || self.file.is_some()
    }
}

/// Counts of outcomes for a catch rate: those with which the tests ran
/// to an end, and those among them that were caught. Outcomes that were
/// skipped, ran into the deadline or did not start count for nothing.
#[derive(Debug, Clone, Copy, PartialEq, Eq, Structural)]
pub struct OutcomeCounter {
    pub eligible: u32,
    pub caught: u32,
}

/// One more, as far as `u32` reaches.
pub open spec fn one_more(count: u32) -> u32 {
    if count == u32::MAX {
        count
    } else {
        (count + 1) as u32
    }
}

impl OutcomeCounter {
    /// The counter once an outcome of this status is counted.
    pub open spec fn with(self, status: Status) -> OutcomeCounter {
        OutcomeCounter {
            eligible: if status.is_eligible() {
                one_more(self.eligible)
            } else {
                self.eligible
            },
            caught: if status == Status::TestFail {
                one_more(self.caught)
            } else {
                self.caught
            },
        }
    }

    /// A counter that has counted nothing.
    pub fn new() -> (r: OutcomeCounter)
        ensures
            r.eligible == 0 && r.caught == 0,
    {
        OutcomeCounter { eligible: 0, caught: 0 }
    }

    /// Counts an outcome of this status.
    pub fn record(&mut self, status: &Status)
        ensures
            *final(self) == old(self).with(*status),
    {
        if status.is_eligible() {
            self.eligible = self.eligible.saturating_add(1);
            if *status == Status::TestFail {
                self.caught = self.caught.saturating_add(1);
            }
        }
    }
}

/// The name of the status that a text names, whatever the case of its
/// letters; nothing where it names none, or where there is no text.
pub open spec fn whole_status(text: Option<Seq<char>>) -> Option<Seq<char>> {
    match text {
        Some(text) => match Status::named(text) {
            Some(status) => Some(status.name()),
            None => None,
        },
        None => None,
    }
}

/// The name of the status that a text names, whatever the case of its
/// letters; nothing where it names none, or where there is no text.
pub fn normalize_status(status_str: Option<String>) -> (r: Option<String>)
    ensures
        said(r) == whole_status(said(status_str)),
{
    match status_str {
        Some(text) => match Status::from_str(text.as_str()) {
            Some(status) => Some(status.to_string()),
            None => None,
        },
        None => None,
    }
}

/// The place for a mutant at this offset among mutants in the order of
/// their offsets: after those that start no later.
pub open spec fn place_for(sorted: Seq<MutantView>, byte_offset: u32, from: int) -> int
    decreases sorted.len() - from,
{
    if from < 0 || from >= sorted.len() || sorted[from].byte_offset > byte_offset {
        from
    } else {
        place_for(sorted, byte_offset, from + 1)
    }
}

/// The mutants in the order of their offsets, those with the same offset
/// in the order in which they came.
pub open spec fn by_offset(mutants: Seq<MutantView>) -> Seq<MutantView>
    decreases mutants.len(),
{
    if mutants.len() == 0 {
        Seq::empty()
    } else {
        let rest = by_offset(mutants.drop_last());
        rest.insert(place_for(rest, mutants.last().byte_offset, 0), mutants.last())
    }
}

/// Whether the offsets of the mutants do not fall.
pub open spec fn rising(mutants: Seq<MutantView>) -> bool {
    forall|i: int, j: int|
        0 <= i < j < mutants.len() ==> (#[trigger] mutants[i]).byte_offset <= (
        #[trigger] mutants[j]).byte_offset
}

/// Where `place_for` puts a mutant, those before start no later and the
/// one after starts later.
pub proof fn lemma_place_for(sorted: Seq<MutantView>, byte_offset: u32, from: int)
    requires
        0 <= from <= sorted.len(),
    ensures
        from <= place_for(sorted, byte_offset, from) <= sorted.len(),
        forall|i: int|
            from <= i < place_for(sorted, byte_offset, from) ==> (#[trigger] sorted[i]).byte_offset
                <= byte_offset,
        place_for(sorted, byte_offset, from) < sorted.len() ==> sorted[place_for(
            sorted,
            byte_offset,
            from,
        )].byte_offset > byte_offset,
    decreases sorted.len() - from,
{
    if from < sorted.len() && sorted[from].byte_offset <= byte_offset {
        lemma_place_for(sorted, byte_offset, from + 1);
    }
}

/// The mutants in the order of their offsets are the same mutants, and
/// their offsets do not fall.
pub proof fn lemma_by_offset(mutants: Seq<MutantView>)
    ensures
        rising(by_offset(mutants)),
        by_offset(mutants).len() == mutants.len(),
        by_offset(mutants).to_multiset() == mutants.to_multiset(),
    decreases mutants.len(),
{
    if mutants.len() > 0 {
        let rest = by_offset(mutants.drop_last());
        let last = mutants.last();
        lemma_by_offset(mutants.drop_last());
        let place = place_for(rest, last.byte_offset, 0);
        lemma_place_for(rest, last.byte_offset, 0);
        let all = rest.insert(place, last);
        assert forall|i: int, j: int| 0 <= i < j < all.len() implies (
        #[trigger] all[i]).byte_offset <= (#[trigger] all[j]).byte_offset by {
            if place < rest.len() {
                assert(rest[place].byte_offset > last.byte_offset);
            }
            if i < place && j > place {
                assert(all[i] == rest[i]);
                assert(all[j] == rest[j - 1]);
            } else if i < place && j < place {
                assert(all[i] == rest[i] && all[j] == rest[j]);
            } else if i > place {
                assert(all[i] == rest[i - 1]);
                assert(all[j] == rest[j - 1]);
            } else if i == place {
                assert(all[j] == rest[j - 1]);
                assert(rest[place].byte_offset <= rest[j - 1].byte_offset || j - 1 == place);
            } else {
                assert(all[i] == rest[i]);
            }
        }
        vstd::seq_lib::to_multiset_insert(rest, place, last);
        assert(mutants.drop_last().push(last) =~= mutants);
        vstd::seq_lib::to_multiset_build(mutants.drop_last(), last);
    } else {
        assert(mutants =~= Seq::<MutantView>::empty());
    }
}

/// The mutants in the order of their offsets, those with the same offset
/// in the order in which they came.
pub fn sort_by_offset(mutants: Vec<Mutant>) -> (r: Vec<Mutant>)
    ensures
        mutant_views(r@) == by_offset(mutant_views(mutants@)),
        rising(mutant_views(r@)),
        mutant_views(r@).to_multiset() == mutant_views(mutants@).to_multiset(),
{
    let ghost rows = mutant_views(mutants@);
    let mut out: Vec<Mutant> = Vec::new();
    let mut at: usize = 0;
    proof {
        assert(rows.take(0) =~= Seq::<MutantView>::empty());
        assert(mutant_views(out@) =~= by_offset(rows.take(0)));
    }
    while at < mutants.len()
        invariant
            0 <= at <= mutants@.len(),
            rows == mutant_views(mutants@),
            mutant_views(out@) == by_offset(rows.take(at as int)),
            out@.len() == at,
        decreases mutants@.len() - at,
    {
        let row = &mutants[at];
        let ghost sorted = mutant_views(out@);
        let mut place: usize = 0;
        while place < out.len() && out[place].byte_offset <= row.byte_offset
            invariant
                0 <= place <= out@.len(),
                sorted == mutant_views(out@),
                place_for(sorted, row.byte_offset, 0) == place_for(
                    sorted,
                    row.byte_offset,
                    place as int,
                ),
            decreases out@.len() - place,
        {
            assert(sorted[place as int] == out@[place as int]@);
            place += 1;
        }
        proof {
            if place < out@.len() {
                assert(sorted[place as int] == out@[place as int]@);
            }
            assert(rows[at as int] == row@);
            assert(rows.take(at + 1).drop_last() =~= rows.take(at as int));
            assert(rows.take(at + 1).last() == row@);
        }
        let copy = row.copy();
        assert(mutant_views(out@.insert(place as int, copy)) =~= sorted.insert(place as int, copy@));
        out.insert(place, copy);
        at += 1;
    }
    proof {
        assert(rows.take(rows.len() as int) =~= rows);
        lemma_by_offset(rows);
    }
    out
}

/// Whether an outcome is shown where outcomes are listed target by
/// target: all are where all are asked for or the listing is verbose,
/// and else those that were not caught.
pub open spec fn shown(all: bool, verbose: bool, status: Status) -> bool {
    all || verbose || status == Status::Uncaught
}

/// The test for the mutants whose outcome is shown.
pub open spec fn shows(catalog: Catalog, all: bool, verbose: bool) -> spec_fn(MutantView) -> bool {
    |mutant: MutantView|
        outcome_of(catalog.outcomes, mutant.id) matches Some(outcome) && shown(
            all,
            verbose,
            outcome.status,
        )
}

/// A mutant with a target and the outcome that the catalog holds for it.
pub open spec fn with_outcome_of(catalog: Catalog, target: TargetView) -> spec_fn(MutantView) -> (
    MutantView,
    TargetView,
    OutcomeView,
) {
    |mutant: MutantView| (mutant, target, outcome_of(catalog.outcomes, mutant.id)->0)
}

/// The outcomes to show for one target: its mutants in the order of
/// their offsets, as far as they have an outcome that is shown, each with
/// the target and the outcome.
pub open spec fn target_rows(catalog: Catalog, target: TargetView, all: bool, verbose: bool) -> Seq<
    (MutantView, TargetView, OutcomeView),
> {
    by_offset(catalog.mutants.filter(crate::store::of_target(target.id))).filter(
        shows(catalog, all, verbose),
    ).map_values(with_outcome_of(catalog, target))
}

/// The outcomes to show for the first `upto` of the targets, target by
/// target.
pub open spec fn listed_rows(
    catalog: Catalog,
    targets: Seq<TargetView>,
    all: bool,
    verbose: bool,
    upto: int,
) -> Seq<(MutantView, TargetView, OutcomeView)>
    decreases upto,
{
    if upto <= 0 {
        Seq::empty()
    } else {
        listed_rows(catalog, targets, all, verbose, upto - 1) + target_rows(
            catalog,
            targets[upto - 1],
            all,
            verbose,
        )
    }
}

/// The outcomes to show for one target.
pub fn target_results(store: &SqlStore, target: &Target, all: bool, verbose: bool) -> (r: Vec<
    (Mutant, Target, Outcome),
>)
    ensures
        triple_views(r@) == target_rows(store@, target@, all, verbose),
{
    let found = store.get_mutants(target.id);
    let mutants = sort_by_offset(found);
    let ghost rows = mutant_views(mutants@);
    let ghost keep = shows(store@, all, verbose);
    let ghost tell = with_outcome_of(store@, target@);
    let mut out: Vec<(Mutant, Target, Outcome)> = Vec::new();
    let mut at: usize = 0;
    proof {
        assert(rows.take(0) =~= Seq::<MutantView>::empty());
        reveal(Seq::filter);
        assert(triple_views(out@) =~= rows.take(0).filter(keep).map_values(tell));
    }
    while at < mutants.len()
        invariant
            0 <= at <= mutants@.len(),
            rows == mutant_views(mutants@),
            keep == shows(store@, all, verbose),
            tell == with_outcome_of(store@, target@),
            triple_views(out@) == rows.take(at as int).filter(keep).map_values(tell),
        decreases mutants@.len() - at,
    {
        let row = &mutants[at];
        proof {
            assert(rows[at as int] == row@);
            lemma_filter_step(rows, at as int, keep);
        }
        match store.get_outcome(row.id) {
            Some(outcome) => {
                if all || verbose || outcome.status == Status::Uncaught {
                    let entry = (row.copy(), target.copy(), outcome);
                    proof {
                        let kept = rows.take(at as int).filter(keep);
                        assert(kept.push(row@).map_values(tell) =~= kept.map_values(tell).push(
                            tell(row@),
                        ));
                        assert(triple_views(out@.push(entry)) =~= triple_views(out@).push(
                            (entry.0@, entry.1@, entry.2@),
                        ));
                    }
                    out.push(entry);
                }
            },
            None => {},
        }
        at += 1;
    }
    assert(rows.take(rows.len() as int) =~= rows);
    out
}

/// The counters of one target: one over all its outcomes, and one over
/// those of each severity.
#[derive(Debug, Clone, Copy, PartialEq, Eq, Structural)]
pub struct TargetCounters {
    pub overall: OutcomeCounter,
    pub high: OutcomeCounter,
    pub medium: OutcomeCounter,
    pub low: OutcomeCounter,
}

impl TargetCounters {
    /// The counters once an outcome of this status is counted for a
    /// mutation of this severity.
    pub open spec fn with(self, severity: MutationSeverity, status: Status) -> TargetCounters {
        TargetCounters {
            overall: self.overall.with(status),
            high: if severity == MutationSeverity::High {
                self.high.with(status)
            } else {
                self.high
            },
            medium: if severity == MutationSeverity::Medium {
                self.medium.with(status)
            } else {
                self.medium
            },
            low: if severity == MutationSeverity::Low {
                self.low.with(status)
            } else {
                self.low
            },
        }
    }

    /// Counters that have counted nothing.
    pub open spec fn none() -> TargetCounters {
        let zero = OutcomeCounter { eligible: 0, caught: 0 };
        TargetCounters { overall: zero, high: zero, medium: zero, low: zero }
    }
}

/// The counters over the outcomes of the first `upto` of the mutants,
/// each counted by the severity that the table gives its slug.
pub open spec fn counters_of(
    catalog: Catalog,
    table: Seq<Mutation>,
    mutants: Seq<MutantView>,
    upto: int,
) -> TargetCounters
    decreases upto,
{
    if upto <= 0 {
        TargetCounters::none()
    } else {
        let before = counters_of(catalog, table, mutants, upto - 1);
        match outcome_of(catalog.outcomes, mutants[upto - 1].id) {
            Some(outcome) => before.with(
                severity_or_low(table, mutants[upto - 1].mutation_slug),
                outcome.status,
            ),
            None => before,
        }
    }
}

/// The counters of one target: every outcome of its mutants is counted,
/// shown or not, by the severity that the table of its language gives
/// the mutant's slug.
pub fn count_outcomes(store: &SqlStore, target: &Target, table: &Vec<Mutation>) -> (r:
    TargetCounters)
    ensures
        r == counters_of(
            store@,
            table@,
            store@.mutants.filter(crate::store::of_target(target.id)),
            store@.mutants.filter(crate::store::of_target(target.id)).len() as int,
        ),
{
    let mutants = store.get_mutants(target.id);
    let ghost rows = mutant_views(mutants@);
    let mut out = TargetCounters {
        overall: OutcomeCounter::new(),
        high: OutcomeCounter::new(),
        medium: OutcomeCounter::new(),
        low: OutcomeCounter::new(),
    };
    let mut at: usize = 0;
    while at < mutants.len()
        invariant
            0 <= at <= mutants@.len(),
            rows == mutant_views(mutants@),
            out == counters_of(store@, table@, rows, at as int),
        decreases mutants@.len() - at,
    {
        let row = &mutants[at];
        assert(rows[at as int] == row@);
        match store.get_outcome(row.id) {
            Some(outcome) => {
                out.overall.record(&outcome.status);
                match severity_for(table, row.mutation_slug.as_str()) {
                    MutationSeverity::High => out.high.record(&outcome.status),
                    MutationSeverity::Medium => out.medium.record(&outcome.status),
                    MutationSeverity::Low => out.low.record(&outcome.status),
                }
            },
            None => {},
        }
        at += 1;
    }
    out
}

/// The test for the entries whose target lies at a path that holds the
/// text.
pub open spec fn in_file(file: Seq<char>) -> spec_fn((MutantView, TargetView, OutcomeView)) -> bool {
    |entry: (MutantView, TargetView, OutcomeView)|
        crate::text::contains_bytes(bytes_of(entry.1.path), bytes_of(file))
}

/// The entries whose target lies at a path that holds the text.
pub fn keep_in_file(data: Vec<(Mutant, Target, Outcome)>, file: &str) -> (r: Vec<
    (Mutant, Target, Outcome),
>)
    ensures
        triple_views(r@) == triple_views(data@).filter(in_file(file@)),
{
    let ghost rows = triple_views(data@);
    let ghost keep = in_file(file@);
    let mut out: Vec<(Mutant, Target, Outcome)> = Vec::new();
    let mut at: usize = 0;
    proof {
        assert(rows.take(0) =~= Seq::<(MutantView, TargetView, OutcomeView)>::empty());
        reveal(Seq::filter);
        assert(triple_views(out@) =~= rows.take(0).filter(keep));
    }
    while at < data.len()
        invariant
            0 <= at <= data@.len(),
            rows == triple_views(data@),
            keep == in_file(file@),
            triple_views(out@) == rows.take(at as int).filter(keep),
        decreases data@.len() - at,
    {
        let entry = &data[at];
        proof {
            assert(rows[at as int] == (entry.0@, entry.1@, entry.2@));
            lemma_filter_step(rows, at as int, keep);
        }
        if crate::text::str_contains(entry.1.path.as_str(), file) {
            let copy = (entry.0.copy(), entry.1.copy(), entry.2.copy());
            assert(triple_views(out@.push(copy)) =~= triple_views(out@).push(
                (copy.0@, copy.1@, copy.2@),
            ));
            out.push(copy);
        }
        at += 1;
    }
    assert(rows.take(rows.len() as int) =~= rows);
    out
}

/// The outcomes that `results` shows.
///
/// Where an id is asked for: the mutant with the id, if it is there and
/// has an outcome; its target has to be there. Where the outcomes are
/// picked by what they are: those that the catalog lists for the
/// status, with its name made whole, the language, the slug, the line
/// and the targets that `pattern` names, as far as the path of their
/// target holds the text of `file`. Else: the outcomes to show for
/// `targets`, target by target.
pub fn get_results_data(
    store: &SqlStore,
    filters: &ResultsFilters,
    pattern: Option<&TargetPattern>,
    targets: &Vec<Target>,
) -> (r: Result<Vec<(Mutant, Target, Outcome)>, StoreError>)
    ensures
        filters.id matches Some(id) ==> match crate::store::mutant_of(store@.mutants, id) {
            None => r is Ok && r->Ok_0@.len() == 0,
            Some(mutant) => match crate::store::target_of(store@.targets, mutant.target_id) {
                None => r is Err && r->Err_0 == StoreError::NotFound(mutant.target_id),
                Some(target) => r is Ok && triple_views(r->Ok_0@) == match outcome_of(
                    store@.outcomes,
                    id,
                ) {
                    Some(outcome) => seq![(mutant, target, outcome)],
                    None => Seq::empty(),
                },
            },
        },
        filters.id is None && !filters.uses_filters() ==> r is Ok && triple_views(r->Ok_0@)
            == listed_rows(
            store@,
            crate::store::target_views(targets@),
            filters.all,
            filters.verbose,
            targets@.len() as int,
        ),
        filters.id is None && filters.uses_filters() ==> r is Ok && triple_views(r->Ok_0@) == {
            let listed = store@.mutants.filter(
                store@.outcome_test(
                    OutcomeQuery {
                        target_ids: match pattern {
                            Some(pattern) => Some(crate::store::named_ids(store@.targets, *pattern)),
                            None => None,
                        },
                        status: whole_status(said(filters.status)),
                        language: said(filters.language),
                        slug: said(filters.mutation_type),
                        line: filters.line,
                    },
                ),
            ).map_values(store@.with_its_rows());
            match filters.file {
                Some(file) => listed.filter(in_file(file@)),
                None => listed,
            }
        },
{
    match filters.id {
        Some(id) => {
            return match store.get_mutant(id) {
                Err(_) => {
                    let none: Vec<(Mutant, Target, Outcome)> = Vec::new();
                    Ok(none)
                },
                Ok(mutant) => match store.get_target(mutant.target_id) {
                    Err(error) => Err(error),
                    Ok(target) => {
                        let mut found: Vec<(Mutant, Target, Outcome)> = Vec::new();
                        match store.get_outcome(mutant.id) {
                            Some(outcome) => {
                                proof {
                                    crate::store::lemma_mutant_place(store@.mutants, id, 0);
                                }
                                found.push((mutant, target, outcome));
                                assert(triple_views(found@) =~= seq![
                                    (found@[0].0@, found@[0].1@, found@[0].2@),
                                ]);
                            },
                            None => {
                                proof {
                                    crate::store::lemma_mutant_place(store@.mutants, id, 0);
                                }
                                assert(triple_views(found@) =~= Seq::<
                                    (MutantView, TargetView, OutcomeView),
                                >::empty());
                            },
                        }
                        Ok(found)
                    },
                },
            };
        },
        None => {},
    }
    if filters.uses_filters() {
        let status = normalize_status(crate::types::config::copy_text(&filters.status));
        let listed = store.get_outcomes_filtered(
            pattern,
            match &status {
                Some(status) => Some(status.as_str()),
                None => None,
            },
            match &filters.language {
                Some(language) => Some(language.as_str()),
                None => None,
            },
            match &filters.mutation_type {
                Some(slug) => Some(slug.as_str()),
                None => None,
            },
            filters.line,
        );
        return match &filters.file {
            Some(file) => Ok(keep_in_file(listed, file.as_str())),
            None => Ok(listed),
        };
    }
    let ghost rows = crate::store::target_views(targets@);
    let mut out: Vec<(Mutant, Target, Outcome)> = Vec::new();
    let mut at: usize = 0;
    assert(triple_views(out@) =~= listed_rows(store@, rows, filters.all, filters.verbose, 0));
    while at < targets.len()
        invariant
            0 <= at <= targets@.len(),
            rows == crate::store::target_views(targets@),
            triple_views(out@) == listed_rows(
                store@,
                rows,
                filters.all,
                filters.verbose,
                at as int,
            ),
        decreases targets@.len() - at,
    {
        let mut more = target_results(store, &targets[at], filters.all, filters.verbose);
        let ghost first = triple_views(out@);
        let ghost second = triple_views(more@);
        assert(rows[at as int] == targets@[at as int]@);
        out.append(&mut more);
        assert(triple_views(out@) =~= first + second);
        at += 1;
    }
    Ok(out)
}

/// A result of a SARIF report: an uncaught mutant as a warning.
#[derive(Debug, Clone)]
pub struct SarifResult {
    /// The slug of the mutant.
    pub rule_id: String,
    pub level: String,
    pub message: String,
    /// The path of the target.
    pub uri: String,
    /// The 1-based line on which the mutant starts.
    pub start_line: u32,
}

/// What a result of a SARIF report says.
pub struct SarifResultView {
    pub rule_id: Seq<char>,
    pub level: Seq<char>,
    pub message: Seq<char>,
    pub uri: Seq<char>,
    pub start_line: u32,
}

impl View for SarifResult {
    type V = SarifResultView;

    open spec fn view(&self) -> SarifResultView {
        SarifResultView {
            rule_id: self.rule_id@,
            level: self.level@,
            message: self.message@,
            uri: self.uri@,
            start_line: self.start_line,
        }
    }
}

/// A run of a SARIF report.
#[derive(Debug, Clone)]
pub struct SarifRun {
    pub tool_name: String,
    pub tool_version: String,
    pub information_uri: String,
    pub results: Vec<SarifResult>,
}

/// A SARIF report.
#[derive(Debug, Clone)]
pub struct SarifReport {
    pub version: String,
    pub schema: String,
    pub runs: Vec<SarifRun>,
}

/// The test for the entries whose mutant was not caught.
pub open spec fn is_uncaught() -> spec_fn((MutantView, TargetView, OutcomeView)) -> bool {
    |entry: (MutantView, TargetView, OutcomeView)| entry.2.status == Status::Uncaught
}

/// The message of a warning: what text was replaced by what.
pub open spec fn sarif_message(mutant: MutantView) -> Seq<char> {
    "Uncaught mutant: '"@ + vstd::utf8::decode_utf8(mutant.old_text) + "' -> '"@
        + vstd::utf8::decode_utf8(mutant.new_text) + "'"@
}

/// The result of a SARIF report for an uncaught mutant.
pub fn warning_for(mutant: &Mutant, target: &Target) -> (r: SarifResult)
    ensures
        r@ == (SarifResultView {
            rule_id: mutant.mutation_slug@,
            level: "warning"@,
            message: sarif_message(mutant@),
            uri: target.path@,
            start_line: mutant@.start_line() as u32,
        }),
        r.start_line >= 1,
{
    proof {
        vstd::utf8::encode_utf8_decode_utf8(mutant.old_text@);
        vstd::utf8::encode_utf8_decode_utf8(mutant.new_text@);
    }
    let mut message = "Uncaught mutant: '".to_string();
    message.append(mutant.old_text.as_str());
    message.append("' -> '");
    message.append(mutant.new_text.as_str());
    message.append("'");
    let lines = mutant.get_lines();
    SarifResult {
        rule_id: mutant.mutation_slug.clone(),
        level: "warning".to_string(),
        message,
        uri: target.path.clone(),
        start_line: lines.0,
    }
}

/// The SARIF report over the outcomes: one run, with a warning for each
/// mutant that was not caught and for no other, each on a line from 1
/// on.
pub fn sarif_report(data: &Vec<(Mutant, Target, Outcome)>, tool_version: &str) -> (r: SarifReport)
    ensures
        r.version@ == "2.1.0"@,
        r.schema@ == "https://json.schemastore.org/sarif-2.1.0.json"@,
        r.runs@.len() == 1,
        r.runs@[0].tool_name@ == "mewt"@,
        r.runs@[0].tool_version@ == tool_version@,
        r.runs@[0].information_uri@ == "https://github.com/trailofbits/mewt"@,
        r.runs@[0].results@.len() == triple_views(data@).filter(is_uncaught()).len(),
        forall|i: int|
            0 <= i < r.runs@[0].results@.len() ==> {
                let entry = triple_views(data@).filter(is_uncaught())[i];
                let result = #[trigger] r.runs@[0].results@[i];
                &&& result.rule_id@ == entry.0.mutation_slug
                &&& result.level@ == "warning"@
                &&& result.message@ == sarif_message(entry.0)
                &&& result.uri@ == entry.1.path
                &&& result.start_line == entry.0.start_line()
                &&& result.start_line >= 1
            },
{
    let ghost rows = triple_views(data@);
    let ghost keep = is_uncaught();
    let mut results: Vec<SarifResult> = Vec::new();
    let mut at: usize = 0;
    proof {
        assert(rows.take(0) =~= Seq::<(MutantView, TargetView, OutcomeView)>::empty());
        reveal(Seq::filter);
    }
    while at < data.len()
        invariant
            0 <= at <= data@.len(),
            rows == triple_views(data@),
            keep == is_uncaught(),
            results@.len() == rows.take(at as int).filter(keep).len(),
            forall|i: int|
                0 <= i < results@.len() ==> {
                    let entry = rows.take(at as int).filter(keep)[i];
                    let result = #[trigger] results@[i];
                    &&& result.rule_id@ == entry.0.mutation_slug
                    &&& result.level@ == "warning"@
                    &&& result.message@ == sarif_message(entry.0)
                    &&& result.uri@ == entry.1.path
                    &&& result.start_line == entry.0.start_line()
                    &&& result.start_line >= 1
                },
        decreases data@.len() - at,
    {
        let entry = &data[at];
        proof {
            assert(rows[at as int] == (entry.0@, entry.1@, entry.2@));
            lemma_filter_step(rows, at as int, keep);
        }
        if entry.2.status == Status::Uncaught {
            results.push(warning_for(&entry.0, &entry.1));
        }
        at += 1;
    }
    assert(rows.take(rows.len() as int) =~= rows);
    let run = SarifRun {
        tool_name: "mewt".to_string(),
        tool_version: tool_version.to_string(),
        information_uri: "https://github.com/trailofbits/mewt".to_string(),
        results,
    };
    let mut runs: Vec<SarifRun> = Vec::new();
    runs.push(run);
    SarifReport {
        version: "2.1.0".to_string(),
        schema: "https://json.schemastore.org/sarif-2.1.0.json".to_string(),
        runs,
    }
}

} // verus!
