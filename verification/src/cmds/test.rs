//! Testing mutants by their ids: which ids are meant, and which mutants
//! share a baseline.

use crate::chars::{numbers_among, others_among, said, split_numbers, text_views, words_from};
use crate::cli::TestArgs;
use crate::store::lemma_filter_step;
use crate::text::str_eq;
use vstd::prelude::*;

verus! {

/// Why no ids can be read.
#[derive(Debug, PartialEq, Eq)]
pub enum IdsError {
    /// Neither ids nor a file of ids is given.
    Missing,
}

/// The text that holds the ids: that of the file where a file is named,
/// and else the list of ids.
pub open spec fn ids_text(args: TestArgs, file_text: Option<Seq<char>>) -> Option<Seq<char>> {
    if args.ids_file is Some {
        file_text
    } else {
        said(args.ids)
    }
}

/// The ids that are to be tested, and the words that are no ids.
///
/// Where a file is named, the caller hands in what it holds. White space
/// and commas part the ids, and words that are no numbers are passed
/// over.
pub fn read_mutant_ids(args: &TestArgs, file_text: Option<&str>) -> (r: Result<
    (Vec<i64>, Vec<String>),
    IdsError,
>)
    ensures
        match ids_text(
            *args,
            match file_text {
                Some(text) => Some(text@),
                None => None,
            },
        ) {
            Some(text) => r is Ok && r->Ok_0.0@ == numbers_among(words_from(text, 0)) && text_views(
                r->Ok_0.1@,
            ) == others_among(words_from(text, 0)),
            None => r == Err::<(Vec<i64>, Vec<String>), IdsError>(IdsError::Missing),
        },
{
    if args.ids_file.is_some() {
        match file_text {
            Some(text) => Ok(split_numbers(text)),
            None => Err(IdsError::Missing),
        }
    } else {
        match &args.ids {
            Some(ids) => Ok(split_numbers(ids.as_str())),
            None => Err(IdsError::Missing),
        }
    }
}

/// A mutant with the test command and the deadline that hold for it.
#[derive(Debug, Clone)]
pub struct Resolved {
    pub mutant_id: i64,
    /// Nothing where no test command holds for the mutant: it cannot be
    /// tested.
    pub command: Option<String>,
    pub timeout: Option<u32>,
}

/// What a resolved mutant says.
pub struct ResolvedView {
    pub mutant_id: i64,
    pub command: Option<Seq<char>>,
    pub timeout: Option<u32>,
}

impl View for Resolved {
    type V = ResolvedView;

    open spec fn view(&self) -> ResolvedView {
        ResolvedView { mutant_id: self.mutant_id, command: said(self.command), timeout: self.timeout }
    }
}

/// The mutants that share a test command and a deadline, and so a
/// baseline.
#[derive(Debug, Clone)]
pub struct Group {
    pub command: String,
    pub timeout: Option<u32>,
    pub mutant_ids: Vec<i64>,
}

/// What a group says.
pub struct GroupView {
    pub command: Seq<char>,
    pub timeout: Option<u32>,
    pub mutant_ids: Seq<i64>,
}

impl View for Group {
    type V = GroupView;

    open spec fn view(&self) -> GroupView {
        GroupView { command: self.command@, timeout: self.timeout, mutant_ids: self.mutant_ids@ }
    }
}

/// What the resolved mutants say.
pub open spec fn resolved_views(entries: Seq<Resolved>) -> Seq<ResolvedView> {
    entries.map_values(|entry: Resolved| entry@)
}

/// What the groups say.
pub open spec fn group_views(groups: Seq<Group>) -> Seq<GroupView> {
    groups.map_values(|group: Group| group@)
}

/// The test for the mutants with this command and deadline.
pub open spec fn shares(command: Seq<char>, timeout: Option<u32>) -> spec_fn(ResolvedView) -> bool {
    |entry: ResolvedView| entry.command == Some(command) && entry.timeout == timeout
}

/// The id of a resolved mutant.
pub open spec fn id_of() -> spec_fn(ResolvedView) -> i64 {
    |entry: ResolvedView| entry.mutant_id
}

/// The ids of the mutants with this command and deadline, in their
/// order.
pub open spec fn members(entries: Seq<ResolvedView>, command: Seq<char>, timeout: Option<u32>) -> Seq<
    i64,
> {
    entries.filter(shares(command, timeout)).map_values(id_of())
}

/// The place of the first mutant, from `from` on, with this command and
/// deadline, or the number of mutants where there is none.
pub open spec fn first_with(
    entries: Seq<ResolvedView>,
    command: Seq<char>,
    timeout: Option<u32>,
    from: int,
) -> int
    decreases entries.len() - from,
{
    if from < 0 || from >= entries.len() {
        entries.len() as int
    } else if entries[from].command == Some(command) && entries[from].timeout == timeout {
        from
    } else {
        first_with(entries, command, timeout, from + 1)
    }
}

/// Where `first_with` points, the command and the deadline stand, and
/// nowhere before.
pub proof fn lemma_first_with(
    entries: Seq<ResolvedView>,
    command: Seq<char>,
    timeout: Option<u32>,
    from: int,
)
    requires
        0 <= from <= entries.len(),
    ensures
        from <= first_with(entries, command, timeout, from) <= entries.len(),
        first_with(entries, command, timeout, from) < entries.len() ==> entries[first_with(
            entries,
            command,
            timeout,
            from,
        )].command == Some(command) && entries[first_with(
            entries,
            command,
            timeout,
            from,
        )].timeout == timeout,
        forall|k: int|
            from <= k < first_with(entries, command, timeout, from) ==> !((
            #[trigger] entries[k]).command == Some(command) && entries[k].timeout == timeout),
    decreases entries.len() - from,
{
    if from < entries.len() && !(entries[from].command == Some(command) && entries[from].timeout
        == timeout) {
        lemma_first_with(entries, command, timeout, from + 1);
    }
}

/// Whether the groups are those of the mutants: the groups come in the
/// order in which their command and deadline first come among the
/// mutants, so that no two groups share them; each holds the mutants
/// with its command and deadline, in their order, and at least one; and
/// every mutant with a command is in a group.
pub open spec fn grouped(groups: Seq<GroupView>, entries: Seq<ResolvedView>) -> bool {
    &&& forall|i: int, j: int|
        0 <= i < j < groups.len() ==> first_with(
            entries,
            (#[trigger] groups[i]).command,
            groups[i].timeout,
            0,
        ) < first_with(entries, (#[trigger] groups[j]).command, groups[j].timeout, 0)
    &&& forall|i: int|
        0 <= i < groups.len() ==> (#[trigger] groups[i]).mutant_ids == members(
            entries,
            groups[i].command,
            groups[i].timeout,
        ) && groups[i].mutant_ids.len() > 0
    &&& forall|k: int|
        0 <= k < entries.len() && (#[trigger] entries[k]).command is Some ==> exists|i: int|
            0 <= i < groups.len() && (#[trigger] groups[i]).command == entries[k].command->0
                && groups[i].timeout == entries[k].timeout
}

/// The ids of the mutants with this command and deadline.
fn collect_members(entries: &Vec<Resolved>, command: &str, timeout: Option<u32>) -> (r: Vec<i64>)
    ensures
        r@ == members(resolved_views(entries@), command@, timeout),
{
    let ghost rows = resolved_views(entries@);
    let ghost keep = shares(command@, timeout);
    let ghost ids = id_of();
    let mut out: Vec<i64> = Vec::new();
    let mut at: usize = 0;
    proof {
        assert(rows.take(0) =~= Seq::<ResolvedView>::empty());
        reveal(Seq::filter);
        assert(out@ =~= rows.take(0).filter(keep).map_values(ids));
    }
    while at < entries.len()
        invariant
            0 <= at <= entries@.len(),
            rows == resolved_views(entries@),
            keep == shares(command@, timeout),
            ids == id_of(),
            out@ == rows.take(at as int).filter(keep).map_values(ids),
        decreases entries@.len() - at,
    {
        let entry = &entries[at];
        proof {
            assert(rows[at as int] == entry@);
            lemma_filter_step(rows, at as int, keep);
        }
        let same: bool = match &entry.command {
            Some(own) => str_eq(own.as_str(), command) && entry.timeout == timeout,
            None => false,
        };
        if same {
            proof {
                let kept = rows.take(at as int).filter(keep);
                assert(kept.push(entry@).map_values(ids) =~= kept.map_values(ids).push(
                    entry.mutant_id,
                ));
            }
            out.push(entry.mutant_id);
        }
        at += 1;
    }
    assert(rows.take(rows.len() as int) =~= rows);
    out
}

/// The groups of the mutants, in the order in which their commands first
/// come. Mutants without a command are in no group.
pub fn group_by_command(entries: &Vec<Resolved>) -> (r: Vec<Group>)
    ensures
        grouped(group_views(r@), resolved_views(entries@)),
{
    let ghost rows = resolved_views(entries@);
    let mut groups: Vec<Group> = Vec::new();
    let mut at: usize = 0;
    assert(group_views(groups@) =~= Seq::<GroupView>::empty());
    while at < entries.len()
        invariant
            0 <= at <= entries@.len(),
            rows == resolved_views(entries@),
            forall|i: int, j: int|
                0 <= i < j < groups@.len() ==> first_with(
                    rows,
                    (#[trigger] groups@[i])@.command,
                    groups@[i].timeout,
                    0,
                ) < first_with(rows, (#[trigger] groups@[j])@.command, groups@[j].timeout, 0),
            forall|i: int|
                0 <= i < groups@.len() ==> first_with(
                    rows,
                    (#[trigger] groups@[i])@.command,
                    groups@[i].timeout,
                    0,
                ) < at,
            forall|i: int|
                0 <= i < groups@.len() ==> (#[trigger] groups@[i])@.mutant_ids == members(
                    rows,
                    groups@[i]@.command,
                    groups@[i].timeout,
                ) && groups@[i]@.mutant_ids.len() > 0,
            forall|k: int|
                0 <= k < at && (#[trigger] rows[k]).command is Some ==> exists|i: int|
                    0 <= i < groups@.len() && (#[trigger] groups@[i])@.command == rows[k].command->0
                        && groups@[i].timeout == rows[k].timeout,
        decreases entries@.len() - at,
    {
        let entry = &entries[at];
        assert(rows[at as int] == entry@);
        match &entry.command {
            None => {},
            Some(command) => {
                let mut found: usize = 0;
                while found < groups.len() && !(str_eq(groups[found].command.as_str(), command.as_str())
                    && groups[found].timeout == entry.timeout)
                    invariant
                        0 <= found <= groups@.len(),
                        forall|i: int|
                            0 <= i < found ==> !((#[trigger] groups@[i])@.command == command@
                                && groups@[i].timeout == entry.timeout),
                    decreases groups@.len() - found,
                {
                    found += 1;
                }
                if found == groups.len() {
                    let mutant_ids = collect_members(entries, command.as_str(), entry.timeout);
                    proof {
                        let keep = shares(command@, entry.timeout);
                        assert(keep(rows[at as int]));
                        rows.lemma_filter_contains(keep, at as int);
                        assert(rows.filter(keep).len() > 0);
                    }
                    let ghost before = groups@;
                    proof {
                        lemma_first_with(rows, command@, entry.timeout, 0);
                        let first = first_with(rows, command@, entry.timeout, 0);
                        if first < at {
                            let i = choose|i: int|
                                0 <= i < groups@.len() && (#[trigger] groups@[i])@.command
                                    == rows[first].command->0 && groups@[i].timeout
                                    == rows[first].timeout;
                            assert(false);
                        }
                        assert(first == at);
                    }
                    groups.push(
                        Group { command: command.clone(), timeout: entry.timeout, mutant_ids },
                    );
                    proof {
                        assert forall|i: int, j: int| 0 <= i < j < groups@.len() implies first_with(
                            rows,
                            (#[trigger] groups@[i])@.command,
                            groups@[i].timeout,
                            0,
                        ) < first_with(
                            rows,
                            (#[trigger] groups@[j])@.command,
                            groups@[j].timeout,
                            0,
                        ) by {
                            assert(groups@[i] == before[i]);
                            if j < before.len() {
                                assert(groups@[j] == before[j]);
                            }
                        }
                        assert forall|i: int| 0 <= i < groups@.len() implies first_with(
                            rows,
                            (#[trigger] groups@[i])@.command,
                            groups@[i].timeout,
                            0,
                        ) < at + 1 by {
                            if i < before.len() {
                                assert(groups@[i] == before[i]);
                            }
                        }
                        assert forall|k: int|
                            0 <= k < at + 1 && (#[trigger] rows[k]).command is Some implies exists|
                            i: int,
                        |
                            0 <= i < groups@.len() && (#[trigger] groups@[i])@.command
                                == rows[k].command->0 && groups@[i].timeout == rows[k].timeout by {
                            if k < at {
                                let i = choose|i: int|
                                    0 <= i < before.len() && (#[trigger] before[i])@.command
                                        == rows[k].command->0 && before[i].timeout
                                        == rows[k].timeout;
                                assert(groups@[i] == before[i]);
                            } else {
                                assert(groups@[before.len() as int]@.command == command@);
                            }
                        }
                    }
                }
            },
        }
        at += 1;
    }
    proof {
        let said = group_views(groups@);
        assert forall|i: int, j: int| 0 <= i < j < said.len() implies first_with(
            rows,
            (#[trigger] said[i]).command,
            said[i].timeout,
            0,
        ) < first_with(rows, (#[trigger] said[j]).command, said[j].timeout, 0) by {
            assert(said[i] == groups@[i]@ && said[j] == groups@[j]@);
        }
        assert forall|i: int| 0 <= i < said.len() implies (#[trigger] said[i]).mutant_ids
            == members(rows, said[i].command, said[i].timeout) && said[i].mutant_ids.len()
            > 0 by {
            assert(said[i] == groups@[i]@);
        }
        assert forall|k: int|
            0 <= k < rows.len() && (#[trigger] rows[k]).command is Some implies exists|i: int|
            0 <= i < said.len() && (#[trigger] said[i]).command == rows[k].command->0
                && said[i].timeout == rows[k].timeout by {
            let i = choose|i: int|
                0 <= i < groups@.len() && (#[trigger] groups@[i])@.command == rows[k].command->0
                    && groups@[i].timeout == rows[k].timeout;
            assert(said[i] == groups@[i]@);
        }
    }
    groups
}

} // verus!
