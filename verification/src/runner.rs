//! The test runner as a state machine. It decides what is done next for
//! a group of mutants that share a test command: the baseline, then for
//! each mutant whether it is skipped, and else that it is written to
//! disk, tested, taken back and recorded. Whoever drives the machine
//! does what it says and reports what came of it.

use crate::engine::rules::mutant_views;
use crate::engine::traits::find_severity;
use crate::store::{outcome_of, Catalog, SqlStore};
use crate::text::bytes_of;
use crate::types::mutant::{Mutant, MutantView};
use crate::types::mutation::{severity_of, Mutation, MutationSeverity};
use crate::types::outcome::{Outcome, OutcomeView, Status, Timestamp};
use crate::types::target::{apply_edit, Target};
use vstd::prelude::*;
use vstd::utf8::valid_utf8;

verus! {

/// How a run of the test command ended.
#[derive(Debug, Clone, Copy, PartialEq, Eq, Structural)]
pub enum TestExit {
    /// The command returned zero.
    Passed,
    /// The command returned something else, in time.
    Failed,
    /// The command was killed at the deadline.
    TimedOut,
    /// The command could not be started, or its output not read.
    SpawnFailed,
}

/// The status that a run of the test command stands for.
pub open spec fn status_for(exit: TestExit) -> Status {
    match exit {
        TestExit::Passed => Status::Uncaught,
        TestExit::Failed => Status::TestFail,
        TestExit::TimedOut => Status::Timeout,
        TestExit::SpawnFailed => Status::BuildFail,
    }
}

/// The status that a run of the test command stands for.
pub fn classify(exit: TestExit) -> (r: Status)
    ensures
        r == status_for(exit),
{
    match exit {
        TestExit::Passed => Status::Uncaught,
        TestExit::Failed => Status::TestFail,
        TestExit::TimedOut => Status::Timeout,
        TestExit::SpawnFailed => Status::BuildFail,
    }
}

/// The severity of a slug in a table, and the lowest where the table
/// does not have it.
pub open spec fn severity_or_low(table: Seq<Mutation>, slug: Seq<char>) -> MutationSeverity {
    match severity_of(table, slug) {
        Some(severity) => severity,
        None => MutationSeverity::Low,
    }
}

/// Whether `other` makes the mutant one to skip: it is another mutant on
/// the same line of the same target, of a higher severity, and it went
/// uncaught.
pub open spec fn outranks(
    catalog: Catalog,
    table: Seq<Mutation>,
    other: MutantView,
    mutant: MutantView,
) -> bool {
    &&& other.target_id == mutant.target_id
    &&& other.line_offset == mutant.line_offset
    &&& other.id != mutant.id
    &&& outcome_of(catalog.outcomes, other.id) matches Some(outcome) && outcome.status
        == Status::Uncaught
    &&& severity_or_low(table, other.mutation_slug).spec_rank() > severity_or_low(
        table,
        mutant.mutation_slug,
    ).spec_rank()
}

/// Whether the mutant is one to skip: the catalog holds a mutant that
/// outranks it.
pub open spec fn skippable(catalog: Catalog, table: Seq<Mutation>, mutant: MutantView) -> bool {
    exists|i: int|
        0 <= i < catalog.mutants.len() && outranks(
            catalog,
            table,
            #[trigger] catalog.mutants[i],
            mutant,
        )
}

/// The severity of a slug in a table, and the lowest where the table
/// does not have it.
pub fn severity_for(table: &Vec<Mutation>, slug: &str) -> (r: MutationSeverity)
    ensures
        r == severity_or_low(table@, slug@),
{
    match find_severity(table, slug) {
        Some(severity) => severity,
        None => MutationSeverity::Low,
    }
}

/// Whether the mutant is one to skip: a mutant of a higher severity on
/// the same line of the same target went uncaught.
pub fn should_skip(store: &SqlStore, table: &Vec<Mutation>, mutant: &Mutant) -> (r: bool)
    ensures
        r == skippable(store@, table@, mutant@),
{
    let own = severity_for(table, mutant.mutation_slug.as_str());
    let peers = store.get_mutants(mutant.target_id);
    let ghost rows = store@.mutants;
    let ghost kept = rows.filter(crate::store::of_target(mutant.target_id));
    let mut at: usize = 0;
    while at < peers.len()
        invariant
            0 <= at <= peers@.len(),
            rows == store@.mutants,
            kept == rows.filter(crate::store::of_target(mutant.target_id)),
            mutant_views(peers@) == kept,
            own == severity_or_low(table@, mutant@.mutation_slug),
            forall|k: int| 0 <= k < at ==> !outranks(store@, table@, #[trigger] kept[k], mutant@),
        decreases peers@.len() - at,
    {
        let peer = &peers[at];
        assert(kept[at as int] == peer@);
        if peer.line_offset == mutant.line_offset && peer.id != mutant.id {
            let uncaught: bool = match store.get_outcome(peer.id) {
                Some(outcome) => outcome.status == Status::Uncaught,
                None => false,
            };
            if uncaught && severity_for(table, peer.mutation_slug.as_str()).outranks(own) {
                proof {
                    rows.lemma_filter_contains_rev(
                        crate::store::of_target(mutant.target_id),
                        peer@,
                    );
                    let i = choose|i: int| 0 <= i < rows.len() && rows[i] == peer@;
                    assert(outranks(store@, table@, rows[i], mutant@));
                }
                return true;
            }
        }
        at += 1;
    }
    proof {
        if skippable(store@, table@, mutant@) {
            let i = choose|i: int|
                0 <= i < rows.len() && outranks(store@, table@, #[trigger] rows[i], mutant@);
            assert(crate::store::of_target(mutant.target_id)(rows[i]));
            rows.lemma_filter_contains(crate::store::of_target(mutant.target_id), i);
            let k = choose|k: int| 0 <= k < kept.len() && kept[k] == rows[i];
            assert(!outranks(store@, table@, kept[k], mutant@));
        }
    }
    false
}

/// How a group ended.
#[derive(Debug, Clone, Copy, PartialEq, Eq, Structural)]
pub enum End {
    /// Every mutant was dealt with.
    Completed,
    /// The run was cancelled, between two steps that leave no file
    /// changed.
    Interrupted,
    /// The tests fail without any mutant: nothing can be learnt.
    BaselineFailed,
    /// A file could not be written back: it may still hold a mutant.
    RestoreFailed,
}

/// Where the runner stands.
#[derive(Debug, Clone, Copy, PartialEq, Eq, Structural)]
pub enum Stage {
    /// Nothing has been done yet.
    Idle,
    /// The baseline runs.
    Baseline,
    /// No mutant is in hand.
    Between,
    /// The mutant is being written to its file.
    Writing { mutant_id: i64 },
    /// The tests run against the mutant.
    Testing { mutant_id: i64 },
    /// The file is being written back.
    Restoring { mutant_id: i64, status: Status },
    /// The outcome is being recorded.
    Recording { mutant_id: i64 },
    /// The group is over.
    Ended(End),
}

impl Stage {
    /// Whether the file of a target may hold a mutant at this stage.
    pub open spec fn file_mutated(self) -> bool {
        match self {
            Stage::Writing { .. } => true,
            Stage::Testing { .. } => true,
            Stage::Restoring { .. } => true,
            Stage::Ended(End::RestoreFailed) => true,
            _ => false,
        }
    }
}

/// What the driver is to do.
#[derive(Debug, Clone)]
pub enum Action {
    /// Run the test command on the unchanged files.
    RunBaseline { command: String },
    /// Hand in the next mutant, or say that none is left.
    Proceed,
    /// Write this text to the file at this path.
    Write { path: String, text: String },
    /// Run the test command, with the deadline in seconds if there is
    /// one.
    RunTest { command: String, timeout: Option<u32> },
    /// Write the original text back to the file at this path. This is
    /// not to be left out, whatever else happens.
    Restore { path: String, text: String },
    /// Persist this outcome, which the catalog in memory holds already.
    Record { outcome: Outcome },
    /// The mutant cannot be applied; nothing was written and nothing is
    /// recorded. Hand in the next mutant.
    Reject { mutant_id: i64 },
    /// Stop: the group is over.
    Finish { end: End },
    /// The report does not fit the stage; nothing has changed.
    Refuse,
}

/// The runner of one group of mutants.
pub struct TestRunner {
    command: String,
    timeout: Option<u32>,
    comprehensive: bool,
    stage: Stage,
    pending: Option<Outcome>,
}

impl TestRunner {
    /// Where the runner stands.
    pub closed spec fn stage(&self) -> Stage {
        self.stage
    }

    /// The test command of the group.
    pub closed spec fn command(&self) -> Seq<char> {
        self.command@
    }

    /// The deadline of the group in seconds, if there is one.
    pub closed spec fn timeout(&self) -> Option<u32> {
        self.timeout
    }

    /// Whether no mutant is skipped for its severity.
    pub closed spec fn comprehensive(&self) -> bool {
        self.comprehensive
    }

    /// The outcome that waits to be recorded once the file is written
    /// back.
    pub closed spec fn pending(&self) -> Option<OutcomeView> {
        match self.pending {
            Some(outcome) => Some(outcome@),
            None => None,
        }
    }

    /// The invariant of the runner: an outcome waits to be recorded from
    /// the moment the tests have run until it is recorded, and it is that
    /// of the mutant in hand.
    pub open spec fn wf(&self) -> bool {
        match self.stage() {
            Stage::Restoring { mutant_id, status } => self.pending() matches Some(outcome)
                && outcome.mutant_id == mutant_id && outcome.status == status,
            _ => self.pending() is None,
        }
    }

    /// A runner for a group with this test command and deadline.
    pub fn new(command: String, timeout: Option<u32>, comprehensive: bool) -> (r: TestRunner)
        ensures
            r.wf(),
            r.stage() == Stage::Idle,
            r.command() == command@,
            r.timeout() == timeout,
            r.comprehensive() == comprehensive,
    {
        TestRunner { command, timeout, comprehensive, stage: Stage::Idle, pending: None }
    }

    /// Where the runner stands.
    pub fn current_stage(&self) -> (r: Stage)
        ensures
            r == self.stage(),
    {
        self.stage
    }

    /// Begins the group: the baseline is to run, unless the run is
    /// cancelled.
    pub fn begin(&mut self, running: bool) -> (r: Action)
        requires
            old(self).wf(),
        ensures
            final(self).wf(),
            final(self).stage() == old(self).stage() || follows(
                old(self).stage(),
                final(self).stage(),
            ),
            final(self).command() == old(self).command(),
            final(self).timeout() == old(self).timeout(),
            final(self).comprehensive() == old(self).comprehensive(),
            old(self).stage() != Stage::Idle ==> r is Refuse && final(self).stage() == old(self).stage(),
            old(self).stage() == Stage::Idle && !running ==> r == (Action::Finish {
                end: End::Interrupted,
            }) && final(self).stage() == Stage::Ended(End::Interrupted),
            old(self).stage() == Stage::Idle && running ==> (r matches Action::RunBaseline {
                command,
            } && command@ == old(self).command()) && final(self).stage() == Stage::Baseline,
    {
        match self.stage {
            Stage::Idle => {
                if !running {
                    self.stage = Stage::Ended(End::Interrupted);
                    Action::Finish { end: End::Interrupted }
                } else {
                    self.stage = Stage::Baseline;
                    Action::RunBaseline { command: self.command.clone() }
                }
            },
            _ => Action::Refuse,
        }
    }

    /// Takes the end of the baseline: where the tests fail without any
    /// mutant, the group is over.
    pub fn baseline_done(&mut self, passed: bool) -> (r: Action)
        requires
            old(self).wf(),
        ensures
            final(self).wf(),
            final(self).stage() == old(self).stage() || follows(
                old(self).stage(),
                final(self).stage(),
            ),
            final(self).command() == old(self).command(),
            final(self).timeout() == old(self).timeout(),
            final(self).comprehensive() == old(self).comprehensive(),
            old(self).stage() != Stage::Baseline ==> r is Refuse && final(self).stage() == old(self).stage(),
            old(self).stage() == Stage::Baseline && passed ==> r is Proceed && final(self).stage()
                == Stage::Between,
            old(self).stage() == Stage::Baseline && !passed ==> r == (Action::Finish {
                end: End::BaselineFailed,
            }) && final(self).stage() == Stage::Ended(End::BaselineFailed),
    {
        match self.stage {
            Stage::Baseline => {
                if passed {
                    self.stage = Stage::Between;
                    Action::Proceed
                } else {
                    self.stage = Stage::Ended(End::BaselineFailed);
                    Action::Finish { end: End::BaselineFailed }
                }
            },
            _ => Action::Refuse,
        }
    }

    /// Takes the next mutant in hand.
    ///
    /// Where the run is cancelled, the group is over. Where the mutant
    /// is one to skip, and the runner is not comprehensive, it is
    /// recorded as skipped, and no test runs. Where it cannot be applied
    /// to the target, it is rejected. Else its text is to be written.
    pub fn take_mutant(
        &mut self,
        store: &mut SqlStore,
        table: &Vec<Mutation>,
        target: &Target,
        mutant: &Mutant,
        running: bool,
        now: Timestamp,
    ) -> (r: Action)
        requires
            old(self).wf(),
            old(store).wf(),
        ensures
            final(self).wf(),
            final(self).stage() == old(self).stage() || follows(
                old(self).stage(),
                final(self).stage(),
            ),
            final(store).wf(),
            final(self).command() == old(self).command(),
            final(self).timeout() == old(self).timeout(),
            final(self).comprehensive() == old(self).comprehensive(),
            old(self).stage() != Stage::Between ==> r is Refuse
                && final(self).stage() == old(self).stage()
                && final(store)@ == old(store)@,
            old(self).stage() == Stage::Between ==> match next_for(
                old(store)@,
                table@,
                *target,
                mutant@,
                running,
                old(self).comprehensive(),
            ) {
                Next::Stop => r == (Action::Finish { end: End::Interrupted })
                    && final(self).stage() == Stage::Ended(End::Interrupted)
                    && final(store)@ == old(store)@,
                Next::Skip => (r matches Action::Record { outcome } && outcome@ == skipped(
                    mutant.id,
                    now,
                )) && final(self).stage() == (Stage::Recording { mutant_id: mutant.id })
                    && final(store)@ == old(store)@.with_outcome(skipped(mutant.id, now)),
                Next::Reject => r == (Action::Reject { mutant_id: mutant.id })
                    && final(self).stage() == Stage::Between
                    && final(store)@ == old(store)@,
                Next::Write => (r matches Action::Write { path, text } && path@ == target.path@
                    && bytes_of(text@) == apply_edit(target.bytes(), mutant@.edit()))
                    && final(self).stage() == (Stage::Writing { mutant_id: mutant.id })
                    && final(store)@ == old(store)@,
            },
    {
        match self.stage {
            Stage::Between => {},
            _ => {
                return Action::Refuse;
            },
        }
        if !running {
            self.stage = Stage::Ended(End::Interrupted);
            return Action::Finish { end: End::Interrupted };
        }
        if !self.comprehensive && should_skip(store, table, mutant) {
            let outcome = Outcome {
                mutant_id: mutant.id,
                status: Status::Skipped,
                output: String::new(),
                time: now,
                duration_ms: 0,
            };
            let record = outcome.copy();
            store.add_outcome(outcome);
            self.stage = Stage::Recording { mutant_id: mutant.id };
            return Action::Record { outcome: record };
        }
        let length: usize = target.text.as_str().as_bytes().len();
        let old_length: usize = mutant.old_text.as_str().as_bytes().len();
        if mutant.byte_offset as usize > length || old_length > length - mutant.byte_offset as usize {
            return Action::Reject { mutant_id: mutant.id };
        }
        match target.mutate(mutant) {
            Ok(text) => {
                self.stage = Stage::Writing { mutant_id: mutant.id };
                Action::Write { path: target.path.clone(), text }
            },
            Err(_) => Action::Reject { mutant_id: mutant.id },
        }
    }

    /// Takes the news of the write: the tests are to run, or, where the
    /// text could not be written, the file is to be written back.
    pub fn written(&mut self, target: &Target, ok: bool, now: Timestamp) -> (r: Action)
        requires
            old(self).wf(),
        ensures
            final(self).wf(),
            final(self).stage() == old(self).stage() || follows(
                old(self).stage(),
                final(self).stage(),
            ),
            final(self).command() == old(self).command(),
            final(self).timeout() == old(self).timeout(),
            final(self).comprehensive() == old(self).comprehensive(),
            !(old(self).stage() is Writing) ==> r is Refuse && final(self).stage() == old(self).stage(),
            old(self).stage() matches Stage::Writing { mutant_id } ==> if ok {
                (r matches Action::RunTest { command, timeout } && command@ == old(self).command()
                    && timeout == old(self).timeout()) && final(self).stage() == (Stage::Testing {
                    mutant_id,
                })
            } else {
                (r matches Action::Restore { path, text } && path@ == target.path@ && text@
                    == target.text@) && final(self).stage() == (Stage::Restoring {
                    mutant_id,
                    status: Status::BuildFail,
                }) && final(self).pending() == Some(
                    OutcomeView {
                        mutant_id,
                        status: Status::BuildFail,
                        output: Seq::empty(),
                        time: now,
                        duration_ms: 0,
                    },
                )
            },
    {
        match self.stage {
            Stage::Writing { mutant_id } => {
                if ok {
                    self.stage = Stage::Testing { mutant_id };
                    Action::RunTest { command: self.command.clone(), timeout: self.timeout }
                } else {
                    self.pending = Some(
                        Outcome {
                            mutant_id,
                            status: Status::BuildFail,
                            output: String::new(),
                            time: now,
                            duration_ms: 0,
                        },
                    );
                    self.stage = Stage::Restoring { mutant_id, status: Status::BuildFail };
                    Action::Restore { path: target.path.clone(), text: target.text.clone() }
                }
            },
            _ => Action::Refuse,
        }
    }

    /// Takes the end of the tests: whatever it is, the file is to be
    /// written back.
    pub fn tested(
        &mut self,
        target: &Target,
        exit: TestExit,
        output: String,
        time: Timestamp,
        duration_ms: u32,
    ) -> (r: Action)
        requires
            old(self).wf(),
        ensures
            final(self).wf(),
            final(self).stage() == old(self).stage() || follows(
                old(self).stage(),
                final(self).stage(),
            ),
            final(self).command() == old(self).command(),
            final(self).timeout() == old(self).timeout(),
            final(self).comprehensive() == old(self).comprehensive(),
            !(old(self).stage() is Testing) ==> r is Refuse && final(self).stage() == old(self).stage(),
            old(self).stage() matches Stage::Testing { mutant_id } ==> (r matches Action::Restore {
                path,
                text,
            } && path@ == target.path@ && text@ == target.text@) && final(self).stage() == (
            Stage::Restoring { mutant_id, status: status_for(exit) }) && final(self).pending()
                == Some(
                OutcomeView {
                    mutant_id,
                    status: status_for(exit),
                    output: output@,
                    time,
                    duration_ms,
                },
            ),
    {
        match self.stage {
            Stage::Testing { mutant_id } => {
                let status = classify(exit);
                self.pending = Some(Outcome { mutant_id, status, output, time, duration_ms });
                self.stage = Stage::Restoring { mutant_id, status };
                Action::Restore { path: target.path.clone(), text: target.text.clone() }
            },
            _ => Action::Refuse,
        }
    }

    /// Takes the news that the file is written back: the outcome goes
    /// into the catalog and is to be persisted. Where the file could not
    /// be written back, the group is over and the file may hold the
    /// mutant.
    pub fn restored(&mut self, store: &mut SqlStore, ok: bool) -> (r: Action)
        requires
            old(self).wf(),
            old(store).wf(),
        ensures
            final(self).wf(),
            final(self).stage() == old(self).stage() || follows(
                old(self).stage(),
                final(self).stage(),
            ),
            final(store).wf(),
            final(self).command() == old(self).command(),
            final(self).timeout() == old(self).timeout(),
            final(self).comprehensive() == old(self).comprehensive(),
            !(old(self).stage() is Restoring) ==> r is Refuse
                && final(self).stage() == old(self).stage()
                && final(store)@ == old(store)@,
            old(self).stage() matches Stage::Restoring { mutant_id, status } ==> if ok {
                (r matches Action::Record { outcome } && Some(outcome@) == old(self).pending())
                    && final(self).stage() == (Stage::Recording { mutant_id }) && final(store)@
                    == old(store)@.with_outcome(old(self).pending()->0)
            } else {
                r == (Action::Finish { end: End::RestoreFailed }) && final(self).stage()
                    == Stage::Ended(End::RestoreFailed) && final(store)@ == old(store)@
            },
    {
        match self.stage {
            Stage::Restoring { mutant_id, status } => {
                let pending = self.pending.take();
                if !ok {
                    self.stage = Stage::Ended(End::RestoreFailed);
                    return Action::Finish { end: End::RestoreFailed };
                }
                let outcome = pending.unwrap();
                let record = outcome.copy();
                store.add_outcome(outcome);
                self.stage = Stage::Recording { mutant_id };
                Action::Record { outcome: record }
            },
            _ => Action::Refuse,
        }
    }

    /// Takes the news that the outcome is persisted: the next mutant can
    /// come.
    pub fn recorded(&mut self) -> (r: Action)
        requires
            old(self).wf(),
        ensures
            final(self).wf(),
            final(self).stage() == old(self).stage() || follows(
                old(self).stage(),
                final(self).stage(),
            ),
            final(self).command() == old(self).command(),
            final(self).timeout() == old(self).timeout(),
            final(self).comprehensive() == old(self).comprehensive(),
            !(old(self).stage() is Recording) ==> r is Refuse && final(self).stage() == old(self).stage(),
            old(self).stage() is Recording ==> r is Proceed && final(self).stage()
                == Stage::Between,
    {
        match self.stage {
            Stage::Recording { .. } => {
                self.stage = Stage::Between;
                Action::Proceed
            },
            _ => Action::Refuse,
        }
    }

    /// Ends the group when no mutant is left.
    pub fn finish(&mut self) -> (r: Action)
        requires
            old(self).wf(),
        ensures
            final(self).wf(),
            final(self).stage() == old(self).stage() || follows(
                old(self).stage(),
                final(self).stage(),
            ),
            final(self).command() == old(self).command(),
            final(self).timeout() == old(self).timeout(),
            final(self).comprehensive() == old(self).comprehensive(),
            old(self).stage() != Stage::Between ==> r is Refuse && final(self).stage() == old(self).stage(),
            old(self).stage() == Stage::Between ==> r == (Action::Finish { end: End::Completed })
                && final(self).stage() == Stage::Ended(End::Completed),
    {
        match self.stage {
            Stage::Between => {
                self.stage = Stage::Ended(End::Completed);
                Action::Finish { end: End::Completed }
            },
            _ => Action::Refuse,
        }
    }
}

/// What becomes of a mutant that is taken in hand.
pub enum Next {
    /// The run is cancelled.
    Stop,
    /// The mutant is skipped for its severity.
    Skip,
    /// The mutant cannot be applied to the target.
    Reject,
    /// The mutant is written to disk.
    Write,
}

/// What becomes of a mutant that is taken in hand: the run stops where
/// it is cancelled; the mutant is skipped where it is skippable and the
/// runner is not comprehensive; it is rejected where it reaches past the
/// text, belongs to another target or leaves no valid text; and else it
/// is written.
pub open spec fn next_for(
    catalog: Catalog,
    table: Seq<Mutation>,
    target: Target,
    mutant: MutantView,
    running: bool,
    comprehensive: bool,
) -> Next {
    if !running {
        Next::Stop
    } else if !comprehensive && skippable(catalog, table, mutant) {
        Next::Skip
    } else if mutant.end() > target.bytes().len() || !target.owns(mutant) || !valid_utf8(
        apply_edit(target.bytes(), mutant.edit()),
    ) {
        Next::Reject
    } else {
        Next::Write
    }
}

/// The outcome of a mutant that is skipped.
pub open spec fn skipped(mutant_id: i64, now: Timestamp) -> OutcomeView {
    OutcomeView {
        mutant_id,
        status: Status::Skipped,
        output: Seq::empty(),
        time: now,
        duration_ms: 0,
    }
}

/// Severity skip: once the catalog holds an uncaught outcome for a
/// mutant, every other mutant of the same target on the same line whose
/// severity is lower is skipped when its turn comes, unless the runner is
/// comprehensive or the run is cancelled.
pub proof fn lemma_skips_after_uncaught(
    catalog: Catalog,
    table: Seq<Mutation>,
    target: Target,
    higher: int,
    outcome: OutcomeView,
    mutant: MutantView,
)
    requires
        catalog.wf(),
        0 <= higher < catalog.mutants.len(),
        outcome.mutant_id == catalog.mutants[higher].id,
        outcome.status == Status::Uncaught,
        mutant.id != catalog.mutants[higher].id,
        mutant.target_id == catalog.mutants[higher].target_id,
        mutant.line_offset == catalog.mutants[higher].line_offset,
        severity_or_low(table, catalog.mutants[higher].mutation_slug).spec_rank() > severity_or_low(
            table,
            mutant.mutation_slug,
        ).spec_rank(),
    ensures
        skippable(catalog.with_outcome(outcome), table, mutant),
        next_for(catalog.with_outcome(outcome), table, target, mutant, true, false) == Next::Skip,
{
    crate::store::lemma_outcome_replaces(catalog, outcome);
    let after = catalog.with_outcome(outcome);
    assert(outranks(after, table, after.mutants[higher], mutant));
}

/// Restoration: whatever the driver reports, a runner that takes the
/// reports one by one comes to an end with no file changed, but for the
/// one end that says that a file could not be written back. From the
/// moment a mutant is written, every way on leads through the stage in
/// which the file is written back.
pub proof fn lemma_files_restored(before: Stage, after: Stage)
    requires
        follows(before, after),
    ensures
        after is Ended && after != Stage::Ended(End::RestoreFailed) ==> !before.file_mutated(),
        before.file_mutated() && !after.file_mutated() ==> before is Restoring && after is Recording,
{
}

/// Whether the runner can go from one stage to the next in one step.
pub open spec fn follows(before: Stage, after: Stage) -> bool {
    match before {
        Stage::Idle => after == Stage::Baseline || after == Stage::Ended(End::Interrupted),
        Stage::Baseline => after == Stage::Between || after == Stage::Ended(End::BaselineFailed),
        Stage::Between => after == Stage::Between || after is Writing || after is Recording
            || after == Stage::Ended(End::Interrupted) || after == Stage::Ended(End::Completed),
        Stage::Writing { mutant_id } => after == (Stage::Testing { mutant_id }) || after == (
        Stage::Restoring { mutant_id, status: Status::BuildFail }),
        Stage::Testing { mutant_id } => after matches Stage::Restoring { mutant_id: id, .. } && id
            == mutant_id,
        Stage::Restoring { mutant_id, .. } => after == (Stage::Recording { mutant_id }) || after
            == Stage::Ended(End::RestoreFailed),
        Stage::Recording { .. } => after == Stage::Between,
        Stage::Ended(_) => false,
    }
}

} // verus!
