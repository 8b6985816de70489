//! Counts over the catalog.

use crate::text::str_eq;
use crate::types::outcome::Status;
use vstd::prelude::*;

verus! {

/// How the mutants of one slug fared: how many ran to an end, and how
/// many of those were caught.
#[derive(Debug, Clone)]
pub struct SlugTally {
    pub slug: String,
    pub eligible: usize,
    pub caught: usize,
}

/// What a tally says.
pub struct SlugTallyView {
    pub slug: Seq<char>,
    pub eligible: nat,
    pub caught: nat,
}

impl View for SlugTally {
    type V = SlugTallyView;

    open spec fn view(&self) -> SlugTallyView {
        SlugTallyView {
            slug: self.slug@,
            eligible: self.eligible as nat,
            caught: self.caught as nat,
        }
    }
}

/// The slug and the status of an outcome.
pub struct Fared {
    pub slug: Seq<char>,
    pub status: Status,
}

/// How many of the outcomes of a slug ran to an end.
pub open spec fn eligible_count(outcomes: Seq<Fared>, slug: Seq<char>) -> nat {
    outcomes.filter(|fared: Fared| fared.slug == slug && fared.status.is_eligible()).len()
}

/// How many of the outcomes of a slug were caught.
pub open spec fn caught_count(outcomes: Seq<Fared>, slug: Seq<char>) -> nat {
    outcomes.filter(|fared: Fared| fared.slug == slug && fared.status == Status::TestFail).len()
}

/// Whether the tallies are those of the outcomes: one for each slug with
/// an outcome that ran to an end, none twice, each with the counts of its
/// slug.
pub open spec fn tallies_of(tallies: Seq<SlugTallyView>, outcomes: Seq<Fared>) -> bool {
    &&& forall|i: int, j: int|
        0 <= i < j < tallies.len() ==> (#[trigger] tallies[i]).slug != (#[trigger] tallies[j]).slug
    &&& forall|i: int|
        0 <= i < tallies.len() ==> (#[trigger] tallies[i]).eligible == eligible_count(
            outcomes,
            tallies[i].slug,
        ) && tallies[i].caught == caught_count(outcomes, tallies[i].slug) && tallies[i].eligible
            > 0
    &&& forall|slug: Seq<char>|
        eligible_count(outcomes, slug) > 0 ==> exists|i: int|
            0 <= i < tallies.len() && (#[trigger] tallies[i]).slug == slug
}

/// What the tallies say.
pub open spec fn tally_views(tallies: Seq<SlugTally>) -> Seq<SlugTallyView> {
    tallies.map_values(|tally: SlugTally| tally@)
}

/// The counts of the mutants of a target.
#[derive(Debug, Clone)]
pub struct TargetStats {
    pub total_mutants: usize,
    /// Caught and uncaught together.
    pub tested: usize,
    /// The mutants that no outcome accounts for.
    pub untested: usize,
    pub caught: usize,
    pub uncaught: usize,
    pub timeout: usize,
    pub skipped: usize,
    pub build_fail: usize,
    /// For each slug with an outcome that ran to an end, how its mutants
    /// fared.
    pub severity_stats: Vec<SlugTally>,
}

/// How the mutants of the whole campaign fared, slug by slug.
#[derive(Debug, Clone)]
pub struct CampaignSeverityStats {
    pub severity_stats: Vec<SlugTally>,
}

/// What the outcomes with their slugs say.
pub open spec fn fared_views(outcomes: Seq<(String, Status)>) -> Seq<Fared> {
    outcomes.map_values(|pair: (String, Status)| Fared { slug: pair.0@, status: pair.1 })
}

/// The counts of one more outcome, given those of the others.
pub proof fn lemma_counts_push(outcomes: Seq<Fared>, fared: Fared, slug: Seq<char>)
    ensures
        eligible_count(outcomes.push(fared), slug) == eligible_count(outcomes, slug) + if fared.slug
            == slug && fared.status.is_eligible() {
            1nat
        } else {
            0nat
        },
        caught_count(outcomes.push(fared), slug) == caught_count(outcomes, slug) + if fared.slug
            == slug && fared.status == Status::TestFail {
            1nat
        } else {
            0nat
        },
        eligible_count(outcomes, slug) <= outcomes.len(),
        caught_count(outcomes, slug) <= eligible_count(outcomes, slug),
    decreases outcomes.len(),
{
    let eligible = |fared: Fared| fared.slug == slug && fared.status.is_eligible();
    let caught = |fared: Fared| fared.slug == slug && fared.status == Status::TestFail;
    outcomes.lemma_filter_push(fared, eligible);
    outcomes.lemma_filter_push(fared, caught);
    outcomes.lemma_filter_len(eligible);
    if outcomes.len() > 0 {
        let rest = outcomes.drop_last();
        lemma_counts_push(rest, outcomes.last(), slug);
        assert(rest.push(outcomes.last()) =~= outcomes);
    } else {
        reveal(Seq::filter);
    }
}

/// How the mutants fared, slug by slug, in the order in which the slugs
/// first ran to an end.
pub fn tally_slugs(outcomes: &Vec<(String, Status)>) -> (r: Vec<SlugTally>)
    ensures
        tallies_of(tally_views(r@), fared_views(outcomes@)),
{
    let ghost all = fared_views(outcomes@);
    let mut tallies: Vec<SlugTally> = Vec::new();
    let mut at: usize = 0;
    proof {
        assert(all.take(0) =~= Seq::<Fared>::empty());
        reveal(Seq::filter);
        assert(tally_views(tallies@) =~= Seq::<SlugTallyView>::empty());
    }
    while at < outcomes.len()
        invariant
            0 <= at <= outcomes@.len(),
            all == fared_views(outcomes@),
            tallies_of(tally_views(tallies@), all.take(at as int)),
        decreases outcomes@.len() - at,
    {
        let slug = &outcomes[at].0;
        let status = outcomes[at].1;
        let ghost seen = all.take(at as int);
        let ghost fared = all[at as int];
        let ghost before = tally_views(tallies@);
        proof {
            assert(fared == Fared { slug: slug@, status });
            assert(all.take(at + 1) =~= seen.push(fared));
            assert forall|other: Seq<char>| true implies eligible_count(seen.push(fared), other)
                == eligible_count(seen, other) + if fared.slug == other
                && fared.status.is_eligible() {
                1nat
            } else {
                0nat
            } && caught_count(seen.push(fared), other) == caught_count(seen, other)
                + if fared.slug == other && fared.status == Status::TestFail {
                1nat
            } else {
                0nat
            } && eligible_count(seen, other) <= seen.len() && caught_count(seen, other)
                <= eligible_count(seen, other) by {
                lemma_counts_push(seen, fared, other);
            }
        }
        if status.is_eligible() {
            let mut found: usize = 0;
            while found < tallies.len() && !str_eq(tallies[found].slug.as_str(), slug.as_str())
                invariant
                    0 <= found <= tallies@.len(),
                    forall|k: int| 0 <= k < found ==> (#[trigger] tallies@[k]).slug@ != slug@,
                decreases tallies@.len() - found,
            {
                found += 1;
            }
            let caught: usize = if status == Status::TestFail {
                1
            } else {
                0
            };
            if found < tallies.len() {
                let old_tally = &tallies[found];
                assert(before[found as int] == old_tally@);
                assert(old_tally.eligible < usize::MAX && old_tally.caught < usize::MAX);
                let updated = SlugTally {
                    slug: old_tally.slug.clone(),
                    eligible: old_tally.eligible + 1,
                    caught: old_tally.caught + caught,
                };
                tallies.set(found, updated);
                proof {
                    let after = tally_views(tallies@);
                    assert(after =~= before.update(found as int, updated@));
                    assert forall|i: int| 0 <= i < after.len() implies (
                    #[trigger] after[i]).eligible == eligible_count(
                        seen.push(fared),
                        after[i].slug,
                    ) && after[i].caught == caught_count(seen.push(fared), after[i].slug)
                        && after[i].eligible > 0 by {
                        if i != found {
                            assert(after[i] == before[i]);
                            assert(before[i].slug != before[found as int].slug);
                        }
                    }
                    assert forall|i: int, j: int| 0 <= i < j < after.len() implies (
                    #[trigger] after[i]).slug != (#[trigger] after[j]).slug by {
                        assert(after[i].slug == before[i].slug);
                        assert(after[j].slug == before[j].slug);
                    }
                    assert forall|other: Seq<char>|
                        eligible_count(seen.push(fared), other) > 0 implies exists|i: int|
                        0 <= i < after.len() && (#[trigger] after[i]).slug == other by {
                        if other == slug@ {
                            assert(after[found as int].slug == other);
                        } else {
                            let i = choose|i: int|
                                0 <= i < before.len() && (#[trigger] before[i]).slug == other;
                            assert(after[i].slug == other);
                        }
                    }
                }
            } else {
                let added = SlugTally { slug: slug.clone(), eligible: 1, caught };
                tallies.push(added);
                proof {
                    let after = tally_views(tallies@);
                    assert(after =~= before.push(added@));
                    if eligible_count(seen, slug@) > 0 {
                        let i = choose|i: int|
                            0 <= i < before.len() && (#[trigger] before[i]).slug == slug@;
                        assert(tallies@[i]@ == before[i]);
                        assert(false);
                    }
                    assert forall|i: int| 0 <= i < after.len() implies (
                    #[trigger] after[i]).eligible == eligible_count(
                        seen.push(fared),
                        after[i].slug,
                    ) && after[i].caught == caught_count(seen.push(fared), after[i].slug)
                        && after[i].eligible > 0 by {
                        if i < before.len() {
                            assert(after[i] == before[i]);
                            assert(tallies@[i]@ == before[i]);
                        }
                    }
                    assert forall|i: int, j: int| 0 <= i < j < after.len() implies (
                    #[trigger] after[i]).slug != (#[trigger] after[j]).slug by {
                        assert(after[i] == before[i]);
                        assert(tallies@[i]@ == before[i]);
                        if j < before.len() {
                            assert(after[j] == before[j]);
                        }
                    }
                    assert forall|other: Seq<char>|
                        eligible_count(seen.push(fared), other) > 0 implies exists|i: int|
                        0 <= i < after.len() && (#[trigger] after[i]).slug == other by {
                        if other == slug@ {
                            assert(after[before.len() as int].slug == other);
                        } else {
                            let i = choose|i: int|
                                0 <= i < before.len() && (#[trigger] before[i]).slug == other;
                            assert(after[i].slug == other);
                        }
                    }
                }
            }
        } else {
            proof {
                let after = tally_views(tallies@);
                assert forall|i: int| 0 <= i < after.len() implies (
                #[trigger] after[i]).eligible == eligible_count(seen.push(fared), after[i].slug)
                    && after[i].caught == caught_count(seen.push(fared), after[i].slug)
                    && after[i].eligible > 0 by {}
                assert forall|other: Seq<char>|
                    eligible_count(seen.push(fared), other) > 0 implies exists|i: int|
                    0 <= i < after.len() && (#[trigger] after[i]).slug == other by {
                    let i = choose|i: int|
                        0 <= i < before.len() && (#[trigger] before[i]).slug == other;
                    assert(after[i].slug == other);
                }
            }
        }
        at += 1;
    }
    assert(all.take(all.len() as int) =~= all);
    tallies
}

} // verus!
