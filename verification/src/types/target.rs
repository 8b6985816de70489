//! Targets: source files as they were when the catalog took them in.

use crate::chars::text_views;
use crate::engine::parser::{records_fit, syntax_of};
use crate::engine::rules::{mutant_views, SlugRule};
use crate::engine::traits::{mutants_fit, proposals, reads, LanguageEngine};
use crate::engine::tree::{records_form_tree, tell, NodeRecord, SyntaxTree};
use crate::registry::{named_from, taking_from, LanguageRegistry};
use crate::text::{append_bytes, bytes_of, str_eq, string_from_utf8};
use crate::types::config::{is_slug_enabled, slug_enabled};
use crate::types::mutant::{Mutant, MutantView, PartialMutantView};
use crate::types::mutation::Mutation;
use vstd::prelude::*;
use vstd::utf8::valid_utf8;

verus! {

/// A source file: where it lies, the hash of its text, the text, and the
/// name of its language.
#[derive(Debug, Clone)]
pub struct Target {
    pub id: i64,
    pub path: String,
    pub file_hash: crate::types::hash::Hash,
    pub text: String,
    pub language: String,
}

/// What a target says.
pub struct TargetView {
    pub id: i64,
    pub path: Seq<char>,
    pub file_hash: Seq<u8>,
    pub text: Seq<char>,
    pub language: Seq<char>,
}

impl View for Target {
    type V = TargetView;

    open spec fn view(&self) -> TargetView {
        TargetView {
            id: self.id,
            path: self.path@,
            file_hash: self.file_hash@,
            text: self.text@,
            language: self.language@,
        }
    }
}

/// Why no mutants can be made for a target.
#[derive(Debug)]
pub enum GenerateError {
    /// No rulebook is registered for the language of the target, which
    /// is handed back.
    NoEngine(String),
}

impl GenerateError {
    /// The error as a message.
    pub fn to_string(&self) -> (r: String)
        ensures
            match self {
                GenerateError::NoEngine(language) => r@ == "No engine found for language: "@
                    + language@,
            },
    {
        match self {
            GenerateError::NoEngine(language) => {
                let mut message = "No engine found for language: ".to_string();
                message.append(language.as_str());
                message
            },
        }
    }
}

/// The test for the mutants whose slug is among those to apply.
pub open spec fn enabled(mutations: Option<Seq<Seq<char>>>) -> spec_fn(MutantView) -> bool {
    |mutant: MutantView| slug_enabled(mutant.mutation_slug, mutations)
}

/// What an optional list of slugs says.
pub open spec fn slugs_said(mutations: Option<&[String]>) -> Option<Seq<Seq<char>>> {
    match mutations {
        Some(list) => Some(text_views(list@)),
        None => None,
    }
}

/// Whether the mutants are those that come of a target: among what the
/// rulebook proposes for what the parser made of the text, those whose
/// slug is among the slugs to apply. Where the parser gave nothing, or
/// what it gave is no tree over the text, there are none.
pub open spec fn generated(
    parsed: Option<Seq<NodeRecord>>,
    target: Target,
    table: Seq<Mutation>,
    rules: Seq<SlugRule>,
    slugs: Option<Seq<Seq<char>>>,
    mutants: Seq<MutantView>,
) -> bool {
    if parsed is Some && records_form_tree(parsed->0) && records_fit(parsed->0, target.bytes()) {
        exists|tree: SyntaxTree| #[trigger]
            reads(tree, target) && tree@.len() == parsed->0.len() && tell(tree@, parsed->0)
                && mutants == proposals(tree, target, table, rules).filter(enabled(slugs))
    } else {
        mutants.len() == 0
    }
}

/// The mutants whose slug is among those to apply; all of them where no
/// list names the slugs.
pub fn keep_enabled(mutants: Vec<Mutant>, mutations: Option<&[String]>) -> (r: Vec<Mutant>)
    ensures
        mutant_views(r@) == mutant_views(mutants@).filter(enabled(slugs_said(mutations))),
{
    let ghost rows = mutant_views(mutants@);
    let ghost keep = enabled(slugs_said(mutations));
    let mut out: Vec<Mutant> = Vec::new();
    let mut at: usize = 0;
    proof {
        assert(rows.take(0) =~= Seq::<MutantView>::empty());
        reveal(Seq::filter);
        assert(mutant_views(out@) =~= rows.take(0).filter(keep));
    }
    while at < mutants.len()
        invariant
            0 <= at <= mutants@.len(),
            rows == mutant_views(mutants@),
            keep == enabled(slugs_said(mutations)),
            mutant_views(out@) == rows.take(at as int).filter(keep),
        decreases mutants@.len() - at,
    {
        let row = &mutants[at];
        proof {
            assert(rows[at as int] == row@);
            crate::store::lemma_filter_step(rows, at as int, keep);
        }
        if is_slug_enabled(row.mutation_slug.as_str(), mutations) {
            let copy = row.copy();
            assert(mutant_views(out@.push(copy)) =~= mutant_views(out@).push(copy@));
            out.push(copy);
        }
        at += 1;
    }
    assert(rows.take(rows.len() as int) =~= rows);
    out
}

/// The test for the targets at a path.
pub open spec fn at_path(path: Seq<char>) -> spec_fn(TargetView) -> bool {
    |target: TargetView| target.path == path
}

/// Why a mutant cannot be applied to a target.
#[derive(Debug)]
pub enum MutateError {
    /// The mutant belongs to another target.
    WrongTarget { mutant_target: i64, target: i64 },
    /// What comes of the edit is no valid UTF-8 text.
    InvalidText,
}

/// The bytes with the edit made: what stands before the offset, the new
/// text, and what stands after the old text.
pub open spec fn apply_edit(bytes: Seq<u8>, edit: PartialMutantView) -> Seq<u8> {
    bytes.take(edit.byte_offset as int) + edit.new_text + bytes.skip(edit.end())
}

/// The edit that undoes `edit`.
pub open spec fn inverse(edit: PartialMutantView) -> PartialMutantView {
    PartialMutantView {
        byte_offset: edit.byte_offset,
        line_offset: edit.line_offset,
        old_text: edit.new_text,
        new_text: edit.old_text,
    }
}

/// Whether the old text of the edit is what the bytes hold at its offset.
pub open spec fn edit_matches(bytes: Seq<u8>, edit: PartialMutantView) -> bool {
    &&& edit.end() <= bytes.len()
    &&& bytes.subrange(edit.byte_offset as int, edit.end()) == edit.old_text
}

/// Round trip: an edit whose old text is what the text holds at its
/// offset, made and then undone, leaves the text as it was, byte for
/// byte.
pub proof fn lemma_round_trip(bytes: Seq<u8>, edit: PartialMutantView)
    requires
        edit_matches(bytes, edit),
    ensures
        edit_matches(apply_edit(bytes, edit), inverse(edit)),
        apply_edit(apply_edit(bytes, edit), inverse(edit)) == bytes,
{
    let offset = edit.byte_offset as int;
    let mutated = apply_edit(bytes, edit);
    let back = inverse(edit);
    assert(mutated.subrange(offset, offset + edit.new_text.len()) =~= edit.new_text);
    assert(mutated.take(offset) =~= bytes.take(offset));
    assert(mutated.skip(back.end()) =~= bytes.skip(edit.end()));
    assert(apply_edit(mutated, back) =~= bytes);
}

impl Target {
    /// A copy of the target.
    pub fn copy(&self) -> (r: Target)
        ensures
            r@ == self@,
    {
        Target {
            id: self.id,
            path: self.path.clone(),
            file_hash: self.file_hash,
            text: self.text.clone(),
            language: self.language.clone(),
        }
    }

    /// The mutants of the target: what the rulebook of its language
    /// proposes for the tree that the parser makes of the text, as far as
    /// the slugs are among those to apply, and none where the parser
    /// makes no tree. Each is a true edit of the text of the target.
    pub fn generate_mutants(&self, registry: &LanguageRegistry, mutations: Option<&[String]>) -> (r:
        Result<Vec<Mutant>, GenerateError>)
        ensures
            named_from(registry@, self.language@, 0) == registry@.len() ==> (r matches Err(
                GenerateError::NoEngine(language),
            ) && language@ == self.language@),
            named_from(registry@, self.language@, 0) < registry@.len() ==> r is Ok && mutants_fit(
                *self,
                registry@[named_from(registry@, self.language@, 0)].table(),
                r->Ok_0@,
            ) && (forall|i: int|
                0 <= i < r->Ok_0@.len() ==> slug_enabled(
                    (#[trigger] r->Ok_0@[i]).mutation_slug@,
                    slugs_said(mutations),
                )) && generated(
                syntax_of(
                    registry@[named_from(registry@, self.language@, 0)].grammar_for(*self),
                    self.text@,
                ),
                *self,
                registry@[named_from(registry@, self.language@, 0)].table(),
                registry@[named_from(registry@, self.language@, 0)].rulebook(),
                slugs_said(mutations),
                mutant_views(r->Ok_0@),
            ),
    {
        let engine = match registry.get_engine(self.language.as_str()) {
            Some(engine) => engine,
            None => {
                return Err(GenerateError::NoEngine(self.language.clone()));
            },
        };
        let all = engine.apply_all_mutations(self);
        let kept = keep_enabled(all, mutations);
        proof {
            if mutant_views(all@).len() == 0 {
                assert(mutant_views(all@) =~= Seq::<MutantView>::empty());
                reveal(Seq::filter);
                assert(mutant_views(kept@).len() == 0);
            }
            let rows = mutant_views(all@);
            let keep = enabled(slugs_said(mutations));
            assert forall|i: int| 0 <= i < kept@.len() implies {
                &&& crate::engine::patterns::valid_edit(self.bytes(), (#[trigger] kept@[i])@.edit())
                &&& kept@[i].target_id == self.id
                &&& exists|k: int|
                    0 <= k < engine.table().len() && (#[trigger] engine.table()[k]).slug@
                        == kept@[i].mutation_slug@
                &&& slug_enabled(kept@[i].mutation_slug@, slugs_said(mutations))
            } by {
                assert(mutant_views(kept@)[i] == kept@[i]@);
                rows.lemma_filter_pred(keep, i);
                rows.lemma_filter_contains_rev(keep, kept@[i]@);
                let k = choose|k: int| 0 <= k < rows.len() && rows[k] == kept@[i]@;
                assert(rows[k] == all@[k]@);
                assert(crate::engine::patterns::valid_edit(self.bytes(), all@[k]@.edit()));
                let t = choose|t: int|
                    0 <= t < engine.table().len() && (#[trigger] engine.table()[t]).slug@
                        == all@[k].mutation_slug@;
                assert(engine.table()[t].slug@ == kept@[i].mutation_slug@);
            }
        }
        Ok(kept)
    }

    /// The target that a file makes: its language by its extension, and
    /// its hash that of its text. Nothing where no rulebook takes the
    /// extension. The id is 0 until the catalog gives one.
    pub fn from_file(path: String, text: String, registry: &LanguageRegistry) -> (r: Option<Target>)
        ensures
            match crate::chars::path_extension(path@) {
                None => r is None,
                Some(extension) => if taking_from(registry@, extension, 0) < registry@.len() {
                    r is Some && r->0@ == (TargetView {
                        id: 0,
                        path: path@,
                        file_hash: crate::types::hash::sha256(bytes_of(text@)),
                        text: text@,
                        language: registry@[taking_from(registry@, extension, 0)].title(),
                    })
                } else {
                    r is None
                },
            },
    {
        let language = match registry.language_from_path(path.as_str()) {
            Some(engine) => engine.name().to_string(),
            None => {
                return None;
            },
        };
        let file_hash = crate::types::hash::Hash::digest(text.clone());
        Some(Target { id: 0, path, file_hash, text, language })
    }

    /// The targets at a path, or all of them where no path is given.
    pub fn filter_by_path(targets: Vec<Target>, target_path: Option<&str>) -> (r: Vec<Target>)
        ensures
            crate::store::target_views(r@) == match target_path {
                Some(path) => crate::store::target_views(targets@).filter(at_path(path@)),
                None => crate::store::target_views(targets@),
            },
    {
        match target_path {
            None => targets,
            Some(path) => {
                let ghost rows = crate::store::target_views(targets@);
                let ghost keep = at_path(path@);
                let mut out: Vec<Target> = Vec::new();
                let mut at: usize = 0;
                proof {
                    assert(rows.take(0) =~= Seq::<TargetView>::empty());
                    reveal(Seq::filter);
                    assert(crate::store::target_views(out@) =~= rows.take(0).filter(keep));
                }
                while at < targets.len()
                    invariant
                        0 <= at <= targets@.len(),
                        rows == crate::store::target_views(targets@),
                        keep == at_path(path@),
                        crate::store::target_views(out@) == rows.take(at as int).filter(keep),
                    decreases targets@.len() - at,
                {
                    let row = &targets[at];
                    proof {
                        assert(rows[at as int] == row@);
                        crate::store::lemma_filter_step(rows, at as int, keep);
                    }
                    if str_eq(row.path.as_str(), path) {
                        let copy = row.copy();
                        assert(crate::store::target_views(out@.push(copy))
                            =~= crate::store::target_views(out@).push(copy@));
                        out.push(copy);
                    }
                    at += 1;
                }
                assert(rows.take(rows.len() as int) =~= rows);
                out
            },
        }
    }

    /// The bytes of the text.
    pub open spec fn bytes(&self) -> Seq<u8> {
        bytes_of(self.text@)
    }

    /// Whether the mutant is one of this target: it names the target, or
    /// no target yet.
    pub open spec fn owns(&self, mutant: MutantView) -> bool {
        mutant.target_id == self.id || mutant.target_id == 0
    }

    /// The text with the mutant applied.
    ///
    /// A mutant of another target is refused, whatever its span. The
    /// span of a mutant of this target has to lie within the text; one
    /// that leaves no valid UTF-8 text behind is refused.
    pub fn mutate(&self, mutant: &Mutant) -> (r: Result<String, MutateError>)
        requires
            self.owns(mutant@) ==> mutant@.end() <= self.bytes().len(),
        ensures
            !self.owns(mutant@) ==> r == Err::<String, MutateError>(
                MutateError::WrongTarget { mutant_target: mutant.target_id, target: self.id },
            ),
            self.owns(mutant@) && !valid_utf8(apply_edit(self.bytes(), mutant@.edit())) ==> r == Err::<
                String,
                MutateError,
            >(MutateError::InvalidText),
            self.owns(mutant@) && valid_utf8(apply_edit(self.bytes(), mutant@.edit())) ==> r is Ok
                && bytes_of(r->Ok_0@) == apply_edit(self.bytes(), mutant@.edit()),
    {
        if mutant.target_id != self.id && mutant.target_id != 0 {
            return Err(
                MutateError::WrongTarget { mutant_target: mutant.target_id, target: self.id },
            );
        }
        let content = self.text.as_str().as_bytes();
        let length: usize = content.len();
        let offset: usize = mutant.byte_offset as usize;
        let old_length: usize = mutant.old_text.as_str().as_bytes().len();
        assert(mutant@.end() == offset + old_length);
        assert(offset + old_length <= content@.len());
        let mut mutated: Vec<u8> = Vec::new();
        let mut at: usize = 0;
        assert(mutated@ =~= content@.take(0));
        while at < offset
            invariant
                0 <= at <= offset <= content@.len(),
                offset + old_length <= content@.len() == length,
                mutated@ == content@.take(at as int),
            decreases offset - at,
        {
            mutated.push(content[at]);
            assert(mutated@ =~= content@.take(at + 1));
            at += 1;
        }
        append_bytes(&mut mutated, mutant.new_text.as_str().as_bytes());
        let ghost head = mutated@;
        at = offset + old_length;
        assert(mutated@ =~= head + content@.subrange(offset + old_length, at as int));
        while at < length
            invariant
                length == content@.len(),
                offset + old_length <= at <= content@.len(),
                mutated@ == head + content@.subrange(offset + old_length, at as int),
            decreases content@.len() - at,
        {
            mutated.push(content[at]);
            assert(mutated@ =~= head + content@.subrange(offset + old_length, at + 1));
            at += 1;
        }
        assert(mutated@ =~= apply_edit(self.bytes(), mutant@.edit()));
        match string_from_utf8(mutated) {
            Some(text) => Ok(text),
            None => Err(MutateError::InvalidText),
        }
    }
}

} // verus!
