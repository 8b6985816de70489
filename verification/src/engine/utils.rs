//! What the rewrite patterns ask of a tree and its source text.

use crate::engine::tree::{hangs, is_ancestor, SyntaxNode, SyntaxTree};
use crate::text::{bytes_of, count_line_feeds, line_feeds_before, slice_text, str_eq};
use vstd::prelude::*;

verus! {

/// The bytes of the source that the node at `at` spans.
pub open spec fn node_bytes(nodes: Seq<SyntaxNode>, bytes: Seq<u8>, at: int) -> Seq<u8> {
    bytes.subrange(nodes[at].start_byte as int, nodes[at].end_byte as int)
}

/// Whether the node at `at` is a comment.
pub open spec fn is_comment(nodes: Seq<SyntaxNode>, at: int) -> bool {
    nodes[at].kind@ == "comment"@
}

/// Whether the node at `at` is a comment or has one among its ancestors.
pub open spec fn in_comment(nodes: Seq<SyntaxNode>, at: int) -> bool
    decreases at,
{
    if 0 <= at < nodes.len() {
        is_comment(nodes, at) || (0 <= nodes[at].parent < at && in_comment(
            nodes,
            nodes[at].parent as int,
        ))
    } else {
        false
    }
}

/// A node outside of comments is no comment and has none above it.
pub proof fn lemma_outside_comments(nodes: Seq<SyntaxNode>, at: int, comment: int)
    requires
        0 <= at < nodes.len(),
        !in_comment(nodes, at),
        0 <= comment < nodes.len(),
        is_comment(nodes, comment),
    ensures
        comment != at,
        !is_ancestor(nodes, comment, at),
    decreases at,
{
    if is_ancestor(nodes, comment, at) {
        let parent = nodes[at].parent as int;
        if parent != comment {
            lemma_outside_comments(nodes, parent, comment);
        }
    }
}

/// The text of the node at `at`.
pub fn node_text<'a>(tree: &SyntaxTree, at: usize, source: &'a str) -> (r: &'a str)
    requires
        tree.fits(bytes_of(source@)),
        at < tree@.len(),
    ensures
        bytes_of(r@) == node_bytes(tree@, bytes_of(source@), at as int),
{
    let node = tree.node(at);
    slice_text(source, node.start_byte, node.end_byte)
}

/// Whether the node at `at` is a comment or stands inside one.
pub fn is_in_comment(tree: &SyntaxTree, at: usize) -> (r: bool)
    requires
        tree.wf(),
        at < tree@.len(),
    ensures
        r == in_comment(tree@, at as int),
{
    let mut current: usize = at;
    loop
        invariant
            tree.wf(),
            current < tree@.len(),
            in_comment(tree@, at as int) == in_comment(tree@, current as int),
        decreases current,
    {
        let node = tree.node(current);
        if str_eq(node.kind.as_str(), "comment") {
            return true;
        }
        assert(hangs(tree@, current as int));
        if current == 0 {
            return false;
        }
        current = node.parent;
    }
}

/// The number of line feeds before `byte_offset` in `source`, as a
/// `u32`: the 0-based line of that offset. An offset past the end counts
/// every line feed.
pub fn calculate_line_offset(source: &str, byte_offset: usize) -> (r: u32)
    ensures
        r == line_feeds_before(bytes_of(source@), byte_offset as int) as u32,
        bytes_of(source@).len() <= u32::MAX ==> r == line_feeds_before(
            bytes_of(source@),
            byte_offset as int,
        ),
{
    let count: usize = count_line_feeds(source.as_bytes(), byte_offset);
    #[verifier::truncate]
    (count as u32)
}

} // verus!
