//! The registry: the rulebooks that take part, found by the name of a
//! language or by the extension of a path.

use crate::chars::{eq_ignore_ascii_case, extension_of, path_extension, same_but_case};
use crate::engine::parser::{syntax_of, tree_for};
use crate::engine::rules::SlugRule;
use crate::engine::traits::LanguageEngine;
use crate::engine::tree::SyntaxTree;
use crate::languages::javascript::engine::JavaScriptLanguageEngine;
use crate::languages::rust::engine::RustLanguageEngine;
use crate::languages::solidity::engine::SolidityLanguageEngine;
use crate::languages::tolk::engine::TolkLanguageEngine;
use crate::text::bytes_of;
use crate::types::mutant::Mutant;
use crate::types::mutation::Mutation;
use crate::types::target::Target;
use vstd::prelude::*;

verus! {

/// A rulebook of one of the languages.
pub enum Engine {
    JavaScript(JavaScriptLanguageEngine),
    Rust(RustLanguageEngine),
    Solidity(SolidityLanguageEngine),
    Tolk(TolkLanguageEngine),
}

impl LanguageEngine for Engine {
    open spec fn table(&self) -> Seq<Mutation> {
        match self {
            Engine::JavaScript(engine) => engine.table(),
            Engine::Rust(engine) => engine.table(),
            Engine::Solidity(engine) => engine.table(),
            Engine::Tolk(engine) => engine.table(),
        }
    }

    open spec fn title(&self) -> Seq<char> {
        match self {
            Engine::JavaScript(engine) => engine.title(),
            Engine::Rust(engine) => engine.title(),
            Engine::Solidity(engine) => engine.title(),
            Engine::Tolk(engine) => engine.title(),
        }
    }

    open spec fn suffixes(&self) -> Seq<&'static str> {
        match self {
            Engine::JavaScript(engine) => engine.suffixes(),
            Engine::Rust(engine) => engine.suffixes(),
            Engine::Solidity(engine) => engine.suffixes(),
            Engine::Tolk(engine) => engine.suffixes(),
        }
    }

    open spec fn rulebook(&self) -> Seq<SlugRule> {
        match self {
            Engine::JavaScript(engine) => engine.rulebook(),
            Engine::Rust(engine) => engine.rulebook(),
            Engine::Solidity(engine) => engine.rulebook(),
            Engine::Tolk(engine) => engine.rulebook(),
        }
    }

    open spec fn grammar_for(&self, target: Target) -> Seq<char> {
        match self {
            Engine::JavaScript(engine) => engine.grammar_for(target),
            Engine::Rust(engine) => engine.grammar_for(target),
            Engine::Solidity(engine) => engine.grammar_for(target),
            Engine::Tolk(engine) => engine.grammar_for(target),
        }
    }

    fn name(&self) -> (r: &'static str) {
        match self {
            Engine::JavaScript(engine) => engine.name(),
            Engine::Rust(engine) => engine.name(),
            Engine::Solidity(engine) => engine.name(),
            Engine::Tolk(engine) => engine.name(),
        }
    }

    fn extensions(&self) -> (r: Vec<&'static str>) {
        match self {
            Engine::JavaScript(engine) => engine.extensions(),
            Engine::Rust(engine) => engine.extensions(),
            Engine::Solidity(engine) => engine.extensions(),
            Engine::Tolk(engine) => engine.extensions(),
        }
    }

    fn tree_sitter_language(&self) -> (r: tree_sitter::Language) {
        match self {
            Engine::JavaScript(engine) => engine.tree_sitter_language(),
            Engine::Rust(engine) => engine.tree_sitter_language(),
            Engine::Solidity(engine) => engine.tree_sitter_language(),
            Engine::Tolk(engine) => engine.tree_sitter_language(),
        }
    }

    fn get_mutations(&self) -> (r: &Vec<Mutation>) {
        match self {
            Engine::JavaScript(engine) => engine.get_mutations(),
            Engine::Rust(engine) => engine.get_mutations(),
            Engine::Solidity(engine) => engine.get_mutations(),
            Engine::Tolk(engine) => engine.get_mutations(),
        }
    }

    fn apply_all_mutations(&self, target: &Target) -> (r: Vec<Mutant>) {
        match self {
            Engine::JavaScript(engine) => engine.apply_all_mutations(target),
            Engine::Rust(engine) => engine.apply_all_mutations(target),
            Engine::Solidity(engine) => engine.apply_all_mutations(target),
            Engine::Tolk(engine) => engine.apply_all_mutations(target),
        }
    }
}

impl Engine {
    /// The name of the grammar by which a text of the language is parsed
    /// where no file says otherwise.
    pub open spec fn grammar(&self) -> Seq<char> {
        match self {
            Engine::JavaScript(_) => "javascript"@,
            Engine::Rust(_) => "rust"@,
            Engine::Solidity(_) => "solidity"@,
            Engine::Tolk(_) => "tolk"@,
        }
    }

    /// The syntax tree of `source` in the grammar of the language.
    pub fn parse(&self, source: &str) -> (r: Option<SyntaxTree>)
        ensures
            tree_for(syntax_of(self.grammar(), source@), bytes_of(source@), r),
    {
        match self {
            Engine::JavaScript(engine) => engine.parse(source),
            Engine::Rust(engine) => engine.parse(source),
            Engine::Solidity(engine) => engine.parse(source),
            Engine::Tolk(engine) => engine.parse(source),
        }
    }
}

/// Whether the rulebook is that of the language with this name, the case
/// of ASCII letters set aside.
pub open spec fn is_named(engine: Engine, name: Seq<char>) -> bool {
    same_but_case(bytes_of(engine.title()), bytes_of(name))
}

/// Whether the rulebook takes files with this extension, the case of
/// ASCII letters set aside.
pub open spec fn takes_extension(engine: Engine, extension: Seq<char>) -> bool {
    exists|i: int|
        0 <= i < engine.suffixes().len() && same_but_case(
            bytes_of((#[trigger] engine.suffixes()[i])@),
            bytes_of(extension),
        )
}

/// The place of the first rulebook from `from` on with this name, or the
/// number of rulebooks where there is none.
pub open spec fn named_from(engines: Seq<Engine>, name: Seq<char>, from: int) -> int
    decreases engines.len() - from,
{
    if from < 0 || from >= engines.len() {
        engines.len() as int
    } else if is_named(engines[from], name) {
        from
    } else {
        named_from(engines, name, from + 1)
    }
}

/// The place that `named_from` finds lies at or after `from` and within
/// the rulebooks, or is their number; where it lies within, the rulebook
/// there has the name.
pub proof fn lemma_named_from(engines: Seq<Engine>, name: Seq<char>, from: int)
    requires
        0 <= from <= engines.len(),
    ensures
        from <= named_from(engines, name, from) <= engines.len(),
        named_from(engines, name, from) < engines.len() ==> is_named(
            engines[named_from(engines, name, from)],
            name,
        ),
    decreases engines.len() - from,
{
    if from < engines.len() && !is_named(engines[from], name) {
        lemma_named_from(engines, name, from + 1);
    }
}

/// The place of the first rulebook from `from` on that takes the
/// extension, or the number of rulebooks where there is none.
pub open spec fn taking_from(engines: Seq<Engine>, extension: Seq<char>, from: int) -> int
    decreases engines.len() - from,
{
    if from < 0 || from >= engines.len() {
        engines.len() as int
    } else if takes_extension(engines[from], extension) {
        from
    } else {
        taking_from(engines, extension, from + 1)
    }
}

/// The rulebooks that take part, in the order in which they came.
pub struct LanguageRegistry {
    engines: Vec<Engine>,
}

impl View for LanguageRegistry {
    type V = Seq<Engine>;

    closed spec fn view(&self) -> Seq<Engine> {
        self.engines@
    }
}

impl Default for LanguageRegistry {
    fn default() -> (r: LanguageRegistry)
        ensures
            r@ == Seq::<Engine>::empty(),
    {
        LanguageRegistry::new()
    }
}

impl LanguageRegistry {
    /// A registry without rulebooks.
    pub fn new() -> (r: LanguageRegistry)
        ensures
            r@ == Seq::<Engine>::empty(),
    {
        LanguageRegistry { engines: Vec::new() }
    }

    /// Adds a rulebook after those that are there.
    pub fn register(&mut self, engine: Engine)
        ensures
            final(self)@ == old(self)@.push(engine),
    {
        self.engines.push(engine);
    }

    /// The first rulebook whose language has this name, the case of
    /// ASCII letters set aside.
    pub fn get_engine(&self, language_name: &str) -> (r: Option<&Engine>)
        ensures
            match r {
                Some(engine) => named_from(self@, language_name@, 0) < self@.len() && *engine
                    == self@[named_from(self@, language_name@, 0)],
                None => named_from(self@, language_name@, 0) == self@.len(),
            },
    {
        let mut at: usize = 0;
        while at < self.engines.len()
            invariant
                0 <= at <= self@.len(),
                named_from(self@, language_name@, 0) == named_from(self@, language_name@, at as int),
            decreases self@.len() - at,
        {
            if eq_ignore_ascii_case(self.engines[at].name(), language_name) {
                return Some(&self.engines[at]);
            }
            at += 1;
        }
        None
    }

    /// The first rulebook that takes the extension of the path; none
    /// where the path has no extension.
    pub fn language_from_path(&self, path: &str) -> (r: Option<&Engine>)
        ensures
            match path_extension(path@) {
                None => r is None,
                Some(extension) => match r {
                    Some(engine) => taking_from(self@, extension, 0) < self@.len() && *engine
                        == self@[taking_from(self@, extension, 0)],
                    None => taking_from(self@, extension, 0) == self@.len(),
                },
            },
    {
        match extension_of(path) {
            None => None,
            Some(extension) => {
                let mut at: usize = 0;
                while at < self.engines.len()
                    invariant
                        0 <= at <= self@.len(),
                        path_extension(path@) == Some(extension@),
                        taking_from(self@, extension@, 0) == taking_from(
                            self@,
                            extension@,
                            at as int,
                        ),
                    decreases self@.len() - at,
                {
                    if Self::takes(&self.engines[at], extension.as_str()) {
                        return Some(&self.engines[at]);
                    }
                    at += 1;
                }
                None
            },
        }
    }

    /// Whether the rulebook takes files with this extension.
    fn takes(engine: &Engine, extension: &str) -> (r: bool)
        ensures
            r == takes_extension(*engine, extension@),
    {
        let suffixes = engine.extensions();
        let mut i: usize = 0;
        while i < suffixes.len()
            invariant
                0 <= i <= suffixes@.len(),
                suffixes@ == engine.suffixes(),
                forall|k: int|
                    0 <= k < i ==> !same_but_case(
                        bytes_of((#[trigger] suffixes@[k])@),
                        bytes_of(extension@),
                    ),
            decreases suffixes@.len() - i,
        {
            if eq_ignore_ascii_case(suffixes[i], extension) {
                return true;
            }
            i += 1;
        }
        false
    }

    /// The names of the languages, in the order of their rulebooks.
    pub fn all_languages(&self) -> (r: Vec<&'static str>)
        ensures
            r@.len() == self@.len(),
            forall|i: int| 0 <= i < r@.len() ==> (#[trigger] r@[i])@ == self@[i].title(),
    {
        let mut names: Vec<&'static str> = Vec::new();
        let mut at: usize = 0;
        while at < self.engines.len()
            invariant
                0 <= at <= self@.len(),
                names@.len() == at,
                forall|i: int| 0 <= i < at ==> (#[trigger] names@[i])@ == self@[i].title(),
            decreases self@.len() - at,
        {
            names.push(self.engines[at].name());
            at += 1;
        }
        names
    }

    /// The tables of mutations of the rulebooks, in their order.
    pub fn tables(&self) -> (r: Vec<&Vec<Mutation>>)
        ensures
            r@.len() == self@.len(),
            forall|i: int| 0 <= i < r@.len() ==> (#[trigger] r@[i])@ == self@[i].table(),
    {
        let mut tables: Vec<&Vec<Mutation>> = Vec::new();
        let mut at: usize = 0;
        while at < self.engines.len()
            invariant
                0 <= at <= self@.len(),
                tables@.len() == at,
                forall|i: int| 0 <= i < at ==> (#[trigger] tables@[i])@ == self@[i].table(),
            decreases self@.len() - at,
        {
            tables.push(self.engines[at].get_mutations());
            at += 1;
        }
        tables
    }

    /// The syntax tree of `source` in the language with this name: what
    /// the parser makes of it under the grammar of the first rulebook with
    /// the name, where that is a tree whose nodes span whole characters of
    /// `source`. Nothing comes back where no rulebook has the name.
    pub fn parse(&self, language_name: &str, source: &str) -> (r: Option<SyntaxTree>)
        ensures
            named_from(self@, language_name@, 0) == self@.len() ==> r is None,
            named_from(self@, language_name@, 0) < self@.len() ==> tree_for(
                syntax_of(self@[named_from(self@, language_name@, 0)].grammar(), source@),
                bytes_of(source@),
                r,
            ),
            r matches Some(tree) ==> tree.wf() && tree.fits(bytes_of(source@)),
    {
        match self.get_engine(language_name) {
            None => None,
            Some(engine) => engine.parse(source),
        }
    }
}

} // verus!
