//! The status of a campaign: the counts of each target, their sums, and
//! the counts behind the catch rates of each severity.

use crate::engine::traits::LanguageEngine;
use crate::registry::{Engine, LanguageRegistry};
use crate::store::{target_views, SqlStore};
use crate::types::mutation::{severity_of, Mutation, MutationSeverity};
use crate::types::stats::{tally_views, SlugTally, SlugTallyView, TargetStats};
use crate::types::target::TargetView;
use vstd::prelude::*;

verus! {

/// A count as far as `usize` reaches.
pub open spec fn capped(count: nat) -> usize {
    if count > usize::MAX {
        usize::MAX
    } else {
        count as usize
    }
}

/// The counts behind a catch rate: the outcomes with which the tests ran
/// to an end, and those among them that were caught.
#[derive(Debug, Clone, Copy, PartialEq, Eq, Structural)]
pub struct CatchCounts {
    pub eligible: usize,
    pub caught: usize,
}

/// The counts behind the catch rates of the three severities.
#[derive(Debug, Clone, Copy, PartialEq, Eq, Structural)]
pub struct SeverityCounts {
    pub high: CatchCounts,
    pub medium: CatchCounts,
    pub low: CatchCounts,
}

/// The severity of a slug: that which the first of the tables that has
/// the slug gives it.
pub open spec fn severity_among(tables: Seq<Seq<Mutation>>, slug: Seq<char>, from: int) -> Option<
    MutationSeverity,
>
    decreases tables.len() - from,
{
    if from < 0 || from >= tables.len() {
        None
    } else if severity_of(tables[from], slug) is Some {
        severity_of(tables[from], slug)
    } else {
        severity_among(tables, slug, from + 1)
    }
}

/// How many outcomes of the first `upto` tallies ran to an end under
/// slugs of this severity.
pub open spec fn eligible_sum(
    tallies: Seq<SlugTallyView>,
    tables: Seq<Seq<Mutation>>,
    severity: MutationSeverity,
    upto: int,
) -> nat
    decreases upto,
{
    if upto <= 0 {
        0
    } else {
        eligible_sum(tallies, tables, severity, upto - 1) + if severity_among(
            tables,
            tallies[upto - 1].slug,
            0,
        ) == Some(severity) {
            tallies[upto - 1].eligible
        } else {
            0
        }
    }
}

/// How many outcomes of the first `upto` tallies were caught under slugs
/// of this severity.
pub open spec fn caught_sum(
    tallies: Seq<SlugTallyView>,
    tables: Seq<Seq<Mutation>>,
    severity: MutationSeverity,
    upto: int,
) -> nat
    decreases upto,
{
    if upto <= 0 {
        0
    } else {
        caught_sum(tallies, tables, severity, upto - 1) + if severity_among(
            tables,
            tallies[upto - 1].slug,
            0,
        ) == Some(severity) {
            tallies[upto - 1].caught
        } else {
            0
        }
    }
}

/// The counts of a severity over all tallies.
pub open spec fn counts_of(
    tallies: Seq<SlugTallyView>,
    tables: Seq<Seq<Mutation>>,
    severity: MutationSeverity,
) -> CatchCounts {
    CatchCounts {
        eligible: capped(eligible_sum(tallies, tables, severity, tallies.len() as int)),
        caught: capped(caught_sum(tallies, tables, severity, tallies.len() as int)),
    }
}

/// The tables of the rulebooks.
pub open spec fn tables_of(engines: Seq<Engine>) -> Seq<Seq<Mutation>> {
    engines.map_values(|engine: Engine| engine.table())
}

/// What the tables say.
pub open spec fn table_views(tables: Seq<&Vec<Mutation>>) -> Seq<Seq<Mutation>> {
    tables.map_values(|table: &Vec<Mutation>| table@)
}

/// The severity of a slug: that which the first of the tables that has
/// the slug gives it.
fn find_among(tables: &Vec<&Vec<Mutation>>, slug: &str) -> (r: Option<MutationSeverity>)
    ensures
        r == severity_among(table_views(tables@), slug@, 0),
{
    let mut at: usize = 0;
    while at < tables.len()
        invariant
            0 <= at <= tables@.len(),
            severity_among(table_views(tables@), slug@, 0) == severity_among(
                table_views(tables@),
                slug@,
                at as int,
            ),
        decreases tables@.len() - at,
    {
        assert(table_views(tables@)[at as int] == tables@[at as int]@);
        let found = crate::engine::traits::find_severity(tables[at], slug);
        if found.is_some() {
            return found;
        }
        at += 1;
    }
    None
}

/// The counts behind the catch rates of the three severities: the
/// tallies of the slugs, summed severity by severity. A slug that none
/// of the tables has counts for nothing.
pub fn compute_severity_counts(tallies: &Vec<SlugTally>, tables: &Vec<&Vec<Mutation>>) -> (r:
    SeverityCounts)
    ensures
        r.high == counts_of(tally_views(tallies@), table_views(tables@), MutationSeverity::High),
        r.medium == counts_of(
            tally_views(tallies@),
            table_views(tables@),
            MutationSeverity::Medium,
        ),
        r.low == counts_of(tally_views(tallies@), table_views(tables@), MutationSeverity::Low),
{
    let ghost rows = tally_views(tallies@);
    let ghost known = table_views(tables@);
    let mut high = CatchCounts { eligible: 0, caught: 0 };
    let mut medium = CatchCounts { eligible: 0, caught: 0 };
    let mut low = CatchCounts { eligible: 0, caught: 0 };
    let mut at: usize = 0;
    while at < tallies.len()
        invariant
            0 <= at <= tallies@.len(),
            rows == tally_views(tallies@),
            known == table_views(tables@),
            high.eligible == capped(eligible_sum(rows, known, MutationSeverity::High, at as int)),
            high.caught == capped(caught_sum(rows, known, MutationSeverity::High, at as int)),
            medium.eligible == capped(
                eligible_sum(rows, known, MutationSeverity::Medium, at as int),
            ),
            medium.caught == capped(caught_sum(rows, known, MutationSeverity::Medium, at as int)),
            low.eligible == capped(eligible_sum(rows, known, MutationSeverity::Low, at as int)),
            low.caught == capped(caught_sum(rows, known, MutationSeverity::Low, at as int)),
        decreases tallies@.len() - at,
    {
        let tally = &tallies[at];
        assert(rows[at as int] == tally@);
        match find_among(tables, tally.slug.as_str()) {
            Some(MutationSeverity::High) => {
                high.eligible = high.eligible.saturating_add(tally.eligible);
                high.caught = high.caught.saturating_add(tally.caught);
            },
            Some(MutationSeverity::Medium) => {
                medium.eligible = medium.eligible.saturating_add(tally.eligible);
                medium.caught = medium.caught.saturating_add(tally.caught);
            },
            Some(MutationSeverity::Low) => {
                low.eligible = low.eligible.saturating_add(tally.eligible);
                low.caught = low.caught.saturating_add(tally.caught);
            },
            None => {},
        }
        at += 1;
    }
    SeverityCounts { high, medium, low }
}

/// The counts of one target in the report.
#[derive(Debug, Clone)]
pub struct TargetReport {
    pub path: String,
    pub stats: TargetStats,
    /// The counts behind the catch rates; none where no rulebook is
    /// registered for the language of the target.
    pub severity: Option<SeverityCounts>,
}

/// The sums of the counts of all targets.
#[derive(Debug, Clone, Copy, PartialEq, Eq, Structural)]
pub struct CampaignTotals {
    pub total_targets: usize,
    pub total_mutants: usize,
    pub tested: usize,
    pub untested: usize,
    pub caught: usize,
    pub uncaught: usize,
    pub timeout: usize,
    pub skipped: usize,
    /// The mutants but for those that were skipped: what the progress of
    /// the campaign is measured against.
    pub not_skipped: usize,
}

/// The report of `status`.
#[derive(Debug, Clone)]
pub struct StatusReport {
    pub targets: Vec<TargetReport>,
    pub campaign: CampaignTotals,
    /// The counts behind the catch rates of the campaign; none where no
    /// rulebook is registered.
    pub severity: Option<SeverityCounts>,
}

/// Sums of the counts of targets, as numbers without bound.
pub struct Sums {
    pub total_mutants: nat,
    pub tested: nat,
    pub untested: nat,
    pub caught: nat,
    pub uncaught: nat,
    pub timeout: nat,
    pub skipped: nat,
}

/// The sums of the counts of the first `upto` reports.
pub open spec fn sums_of(reports: Seq<TargetReport>, upto: int) -> Sums
    decreases upto,
{
    if upto <= 0 {
        Sums {
            total_mutants: 0,
            tested: 0,
            untested: 0,
            caught: 0,
            uncaught: 0,
            timeout: 0,
            skipped: 0,
        }
    } else {
        let rest = sums_of(reports, upto - 1);
        let stats = reports[upto - 1].stats;
        Sums {
            total_mutants: rest.total_mutants + stats.total_mutants as nat,
            tested: rest.tested + stats.tested as nat,
            untested: rest.untested + stats.untested as nat,
            caught: rest.caught + stats.caught as nat,
            uncaught: rest.uncaught + stats.uncaught as nat,
            timeout: rest.timeout + stats.timeout as nat,
            skipped: rest.skipped + stats.skipped as nat,
        }
    }
}

/// Whether the totals are the sums, each as far as `usize` reaches.
pub open spec fn totals_are(totals: CampaignTotals, sums: Sums) -> bool {
    &&& totals.total_mutants == capped(sums.total_mutants)
    &&& totals.tested == capped(sums.tested)
    &&& totals.untested == capped(sums.untested)
    &&& totals.caught == capped(sums.caught)
    &&& totals.uncaught == capped(sums.uncaught)
    &&& totals.timeout == capped(sums.timeout)
    &&& totals.skipped == capped(sums.skipped)
}

/// The counts behind the catch rates, for the tallies and the tables.
pub open spec fn severity_counts(tallies: Seq<SlugTallyView>, tables: Seq<Seq<Mutation>>) -> SeverityCounts {
    SeverityCounts {
        high: counts_of(tallies, tables, MutationSeverity::High),
        medium: counts_of(tallies, tables, MutationSeverity::Medium),
        low: counts_of(tallies, tables, MutationSeverity::Low),
    }
}

/// Whether the report is that of the target: its path, its counts, and
/// the counts behind its catch rates by the rulebook of its language,
/// or none where no rulebook is registered for the language.
pub open spec fn reports_target(
    catalog: crate::store::Catalog,
    engines: Seq<Engine>,
    target: TargetView,
    report: TargetReport,
) -> bool {
    let place = crate::registry::named_from(engines, target.language, 0);
    &&& report.path@ == target.path
    &&& crate::store::stats_of(catalog, target.id, report.stats)
    &&& report.severity == if place < engines.len() {
        Some(severity_counts(tally_views(report.stats.severity_stats@), seq![engines[place].table()]))
    } else {
        None
    }
}

/// The report of `status`: the counts of each target of the catalog, in
/// the order of the targets, and their sums. The mutants that count for
/// the progress of the campaign are all but the skipped ones.
pub fn generate_status_report(store: &SqlStore, registry: &LanguageRegistry) -> (r: StatusReport)
    ensures
        r.targets@.len() == store@.targets.len(),
        forall|i: int|
            0 <= i < r.targets@.len() ==> reports_target(
                store@,
                registry@,
                store@.targets[i],
                #[trigger] r.targets@[i],
            ),
        r.campaign.total_targets == store@.targets.len(),
        totals_are(r.campaign, sums_of(r.targets@, r.targets@.len() as int)),
        r.campaign.not_skipped == if r.campaign.total_mutants >= r.campaign.skipped {
            r.campaign.total_mutants - r.campaign.skipped
        } else {
            0
        },
        r.severity is Some <==> registry@.len() > 0,
        r.severity matches Some(counts) ==> exists|tallies: Seq<SlugTallyView>|
            crate::types::stats::tallies_of(tallies, store@.fared(None)) && counts
                == severity_counts(tallies, tables_of(registry@)),
{
    let targets = store.get_all_targets();
    let ghost rows = target_views(targets@);
    let mut reports: Vec<TargetReport> = Vec::new();
    let mut campaign = CampaignTotals {
        total_targets: targets.len(),
        total_mutants: 0,
        tested: 0,
        untested: 0,
        caught: 0,
        uncaught: 0,
        timeout: 0,
        skipped: 0,
        not_skipped: 0,
    };
    let mut at: usize = 0;
    while at < targets.len()
        invariant
            0 <= at <= targets@.len(),
            rows == target_views(targets@),
            rows == store@.targets,
            reports@.len() == at,
            campaign.total_targets == targets@.len(),
            forall|i: int|
                0 <= i < at ==> reports_target(store@, registry@, rows[i], #[trigger] reports@[i]),
            totals_are(campaign, sums_of(reports@, at as int)),
        decreases targets@.len() - at,
    {
        let target = &targets[at];
        assert(rows[at as int] == target@);
        let stats = store.get_target_stats(target.id);
        let severity = match registry.get_engine(target.language.as_str()) {
            Some(engine) => {
                let mut tables: Vec<&Vec<Mutation>> = Vec::new();
                tables.push(engine.get_mutations());
                assert(table_views(tables@) =~= seq![engine.table()]);
                Some(compute_severity_counts(&stats.severity_stats, &tables))
            },
            None => None,
        };
        campaign.total_mutants = campaign.total_mutants.saturating_add(stats.total_mutants);
        campaign.tested = campaign.tested.saturating_add(stats.tested);
        campaign.untested = campaign.untested.saturating_add(stats.untested);
        campaign.caught = campaign.caught.saturating_add(stats.caught);
        campaign.uncaught = campaign.uncaught.saturating_add(stats.uncaught);
        campaign.timeout = campaign.timeout.saturating_add(stats.timeout);
        campaign.skipped = campaign.skipped.saturating_add(stats.skipped);
        let report = TargetReport { path: target.path.clone(), stats, severity };
        let ghost before = reports@;
        reports.push(report);
        proof {
            lemma_sums_push(before, reports@, at as int);
            assert forall|i: int| 0 <= i < at + 1 implies reports_target(
                store@,
                registry@,
                rows[i],
                #[trigger] reports@[i],
            ) by {
                if i < at {
                    assert(reports@[i] == before[i]);
                }
            }
        }
        at += 1;
    }
    campaign.not_skipped = campaign.total_mutants.saturating_sub(campaign.skipped);
    let tables = registry.tables();
    let severity = if tables.len() == 0 {
        None
    } else {
        let tallies = store.get_campaign_severity_stats();
        assert(table_views(tables@) =~= tables_of(registry@));
        let counts = compute_severity_counts(&tallies.severity_stats, &tables);
        proof {
            let found = tally_views(tallies.severity_stats@);
            assert(crate::types::stats::tallies_of(found, store@.fared(None)) && counts
                == severity_counts(found, tables_of(registry@)));
        }
        Some(counts)
    };
    StatusReport { targets: reports, campaign, severity }
}

/// The sums over a list do not depend on what comes after.
pub proof fn lemma_sums_push(before: Seq<TargetReport>, after: Seq<TargetReport>, upto: int)
    requires
        0 <= upto <= before.len() <= after.len(),
        forall|i: int| 0 <= i < before.len() ==> before[i] == after[i],
    ensures
        sums_of(before, upto) == sums_of(after, upto),
    decreases upto,
{
    if upto > 0 {
        lemma_sums_push(before, after, upto - 1);
    }
}

} // verus!
