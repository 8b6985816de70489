//! Mutants: single textual edits against a target.

use crate::chars::{decimal, number_text};
use crate::text::{bytes_of, count_line_feeds, line_feeds};
use vstd::prelude::*;
use vstd::string::*;

verus! {

/// An edit that a rewrite pattern proposes, before it belongs to a target
/// and a slug.
#[derive(Debug, Clone)]
pub struct PartialMutant {
    pub byte_offset: u32,
    pub line_offset: u32,
    pub old_text: String,
    pub new_text: String,
}

/// What a partial mutant says, with its texts as bytes.
pub struct PartialMutantView {
    pub byte_offset: u32,
    pub line_offset: u32,
    pub old_text: Seq<u8>,
    pub new_text: Seq<u8>,
}

impl View for PartialMutant {
    type V = PartialMutantView;

    open spec fn view(&self) -> PartialMutantView {
        PartialMutantView {
            byte_offset: self.byte_offset,
            line_offset: self.line_offset,
            old_text: bytes_of(self.old_text@),
            new_text: bytes_of(self.new_text@),
        }
    }
}

impl PartialMutantView {
    /// The first byte past the span that the edit replaces.
    pub open spec fn end(self) -> int {
        self.byte_offset + self.old_text.len()
    }
}

/// One textual edit against one target.
#[derive(Debug, Clone)]
pub struct Mutant {
    pub id: i64,
    pub target_id: i64,
    pub byte_offset: u32,
    pub line_offset: u32,
    pub old_text: String,
    pub new_text: String,
    pub mutation_slug: String,
}

/// What a mutant says, with its texts as bytes.
pub struct MutantView {
    pub id: i64,
    pub target_id: i64,
    pub byte_offset: u32,
    pub line_offset: u32,
    pub old_text: Seq<u8>,
    pub new_text: Seq<u8>,
    pub mutation_slug: Seq<char>,
}

impl View for Mutant {
    type V = MutantView;

    open spec fn view(&self) -> MutantView {
        MutantView {
            id: self.id,
            target_id: self.target_id,
            byte_offset: self.byte_offset,
            line_offset: self.line_offset,
            old_text: bytes_of(self.old_text@),
            new_text: bytes_of(self.new_text@),
            mutation_slug: self.mutation_slug@,
        }
    }
}

impl MutantView {
    /// The first byte past the span that the mutant replaces.
    pub open spec fn end(self) -> int {
        self.byte_offset + self.old_text.len()
    }

    /// The edit alone, without target and slug.
    pub open spec fn edit(self) -> PartialMutantView {
        PartialMutantView {
            byte_offset: self.byte_offset,
            line_offset: self.line_offset,
            old_text: self.old_text,
            new_text: self.new_text,
        }
    }

    /// The 1-based line on which the mutant starts.
    pub open spec fn start_line(self) -> int {
        if self.line_offset == u32::MAX {
            u32::MAX as int
        } else {
            self.line_offset + 1
        }
    }

    /// The 1-based line on which the replaced text ends: the start line
    /// and one more for every line feed in the replaced text, as far as
    /// `u32` reaches.
    pub open spec fn end_line(self) -> int {
        let end = self.start_line() + line_feeds(self.old_text);
        if end > u32::MAX {
            u32::MAX as int
        } else {
            end
        }
    }

    /// Whether the mutant touches the 1-based line `line`.
    pub open spec fn on_line(self, line: u32) -> bool {
        self.start_line() <= line <= self.end_line()
    }

    /// The tuple by which the catalog tells mutants apart.
    pub open spec fn same_edit(self, other: MutantView) -> bool {
        &&& self.target_id == other.target_id
        &&& self.byte_offset == other.byte_offset
        &&& self.old_text == other.old_text
        &&& self.new_text == other.new_text
        &&& self.mutation_slug == other.mutation_slug
    }
}

impl Mutant {
    /// A copy of the mutant.
    pub fn copy(&self) -> (r: Mutant)
        ensures
            r@ == self@,
    {
        Mutant {
            id: self.id,
            target_id: self.target_id,
            byte_offset: self.byte_offset,
            line_offset: self.line_offset,
            old_text: self.old_text.clone(),
            new_text: self.new_text.clone(),
            mutation_slug: self.mutation_slug.clone(),
        }
    }

    /// The mutant of `target_id` and `slug` that makes the edit `partial`.
    /// Its id is 0 until the catalog gives it one.
    pub fn from_partial(partial: PartialMutant, target_id: i64, slug: &str) -> (r: Mutant)
        ensures
            r@.id == 0,
            r@.target_id == target_id,
            r@.mutation_slug == slug@,
            r@.edit() == partial@,
    {
        Mutant {
            id: 0,
            target_id,
            byte_offset: partial.byte_offset,
            line_offset: partial.line_offset,
            old_text: partial.old_text,
            new_text: partial.new_text,
            mutation_slug: slug.to_string(),
        }
    }

    /// The mutant in a line of text: its slug, the path of the target and
    /// the line on which it starts, and what text it puts in place of
    /// what.
    pub fn display(&self, target: &crate::types::target::Target) -> (r: String)
        ensures
            r@ == "["@ + self.mutation_slug@ + "] "@ + target.path@ + ":"@ + decimal(
                self@.start_line() as nat,
            ) + " '"@ + self.old_text@ + "' -> '"@ + self.new_text@ + "'"@,
    {
        let mut line = "[".to_string();
        line.append(self.mutation_slug.as_str());
        line.append("] ");
        line.append(target.path.as_str());
        line.append(":");
        let lines = self.get_lines();
        line.append(number_text(lines.0 as u64).as_str());
        line.append(" '");
        line.append(self.old_text.as_str());
        line.append("' -> '");
        line.append(self.new_text.as_str());
        line.append("'");
        line
    }

    /// The first and the last 1-based line that the mutant touches.
    pub fn get_lines(&self) -> (r: (u32, u32))
        ensures
            r.0 == self@.start_line(),
            r.1 == self@.end_line(),
            1 <= r.0 <= r.1,
    {
        let start_line: u32 = self.line_offset.saturating_add(1);
        let bytes = self.old_text.as_str().as_bytes();
        let feeds: usize = count_line_feeds(bytes, bytes.len());
        let end_line: u32 = if feeds > (u32::MAX - start_line) as usize {
            u32::MAX
        } else {
            start_line + feeds as u32
        };
        (start_line, end_line)
    }

    /// Whether the mutant touches the 1-based line `line`.
    pub fn matches_line(&self, line: u32) -> (r: bool)
        ensures
            r == self@.on_line(line),
    {
        let (start_line, end_line) = self.get_lines();
        line >= start_line && line <= end_line
    }
}

} // verus!
