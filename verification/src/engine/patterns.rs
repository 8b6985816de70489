//! The rewrite patterns. Each walks a tree in document order and
//! proposes edits; none touches a node that is a comment or stands
//! inside one.

use crate::engine::tree::{
    apart, children_of, hangs, is_ancestor, lemma_ancestor_encloses, well_formed, SyntaxNode,
    SyntaxTree,
};
use crate::engine::utils::{in_comment, is_comment, is_in_comment, node_bytes, node_text};
use crate::text::{
    bytes_of, char_span, concat3, contains_bytes, count_line_feeds, is_listed,
    lemma_bytes_of_injective, line_feeds_before, listed, replace_all, replace_bytes, slice_text,
    str_contains, str_eq, string_from_utf8,
};
use crate::types::mutant::{PartialMutant, PartialMutantView};
use vstd::prelude::*;
use vstd::string::*;
use vstd::utf8::valid_utf8;

verus! {

/// What the edits say.
pub open spec fn views(edits: Seq<PartialMutant>) -> Seq<PartialMutantView> {
    edits.map_values(|edit: PartialMutant| edit@)
}

/// The edit that puts `new_text` in place of the bytes from `start` to
/// `end`.
pub open spec fn span_edit(bytes: Seq<u8>, start: int, end: int, new_text: Seq<u8>) -> PartialMutantView {
    PartialMutantView {
        byte_offset: start as u32,
        line_offset: line_feeds_before(bytes, start) as u32,
        old_text: bytes.subrange(start, end),
        new_text,
    }
}

/// The edit that puts `new_text` in place of the bytes from `start` to
/// `end`, unless that changes nothing.
pub open spec fn emit(bytes: Seq<u8>, start: int, end: int, new_text: Seq<u8>) -> Seq<
    PartialMutantView,
> {
    if bytes.subrange(start, end) == new_text {
        Seq::empty()
    } else {
        seq![span_edit(bytes, start, end, new_text)]
    }
}

/// The edit that puts `new_text` in place of the node at `at`, unless
/// that changes nothing.
pub open spec fn node_edit(nodes: Seq<SyntaxNode>, bytes: Seq<u8>, at: int, new_text: Seq<u8>) -> Seq<
    PartialMutantView,
> {
    emit(bytes, nodes[at].start_byte as int, nodes[at].end_byte as int, new_text)
}

/// What a pattern proposes at one node.
pub type PerNode = spec_fn(int) -> Seq<PartialMutantView>;

/// What a pattern proposes at the nodes before `stop`, in document order.
pub open spec fn gather(per_node: PerNode, stop: int) -> Seq<PartialMutantView>
    decreases stop,
{
    if stop <= 0 {
        Seq::empty()
    } else {
        gather(per_node, stop - 1) + per_node(stop - 1)
    }
}

/// Whether the edit is a true edit of the text with these bytes that
/// stays within the node at `host`, a node outside of comments: the old
/// text is what stands at the offset, the line is that of the offset, and
/// the new text differs from the old.
pub open spec fn well_placed(
    nodes: Seq<SyntaxNode>,
    bytes: Seq<u8>,
    edit: PartialMutantView,
    host: int,
) -> bool {
    &&& 0 <= host < nodes.len()
    &&& !in_comment(nodes, host)
    &&& nodes[host].start_byte <= edit.byte_offset
    &&& edit.end() <= nodes[host].end_byte
    &&& valid_edit(bytes, edit)
}

/// Whether the edit is a true edit of the text with these bytes.
pub open spec fn valid_edit(bytes: Seq<u8>, edit: PartialMutantView) -> bool {
    &&& edit.end() <= bytes.len()
    &&& edit.old_text == bytes.subrange(edit.byte_offset as int, edit.end())
    &&& edit.line_offset == line_feeds_before(bytes, edit.byte_offset as int)
    &&& edit.new_text != edit.old_text
}

/// Whether the edit is a true edit that stays within some node outside
/// of comments.
pub open spec fn placed(nodes: Seq<SyntaxNode>, bytes: Seq<u8>, edit: PartialMutantView) -> bool {
    exists|host: int| well_placed(nodes, bytes, edit, host)
}

/// Whether each edit is a true edit that stays within some node outside
/// of comments.
pub open spec fn all_placed(nodes: Seq<SyntaxNode>, bytes: Seq<u8>, edits: Seq<PartialMutantView>) -> bool {
    forall|i: int| 0 <= i < edits.len() ==> placed(nodes, bytes, #[trigger] edits[i])
}

/// Whether the pattern proposes at each node only edits that stay within
/// that node, and none at a node in a comment.
pub open spec fn keeps_within(nodes: Seq<SyntaxNode>, bytes: Seq<u8>, per_node: PerNode) -> bool {
    forall|at: int, i: int|
        0 <= at < nodes.len() && 0 <= i < per_node(at).len() ==> well_placed(
            nodes,
            bytes,
            #[trigger] per_node(at)[i],
            at,
        )
}

/// What is gathered from a pattern that keeps within its nodes is placed.
pub proof fn lemma_gather_placed(
    nodes: Seq<SyntaxNode>,
    bytes: Seq<u8>,
    per_node: PerNode,
    stop: int,
)
    requires
        keeps_within(nodes, bytes, per_node),
        stop <= nodes.len(),
    ensures
        all_placed(nodes, bytes, gather(per_node, stop)),
    decreases stop,
{
    if stop > 0 {
        lemma_gather_placed(nodes, bytes, per_node, stop - 1);
        let before = gather(per_node, stop - 1);
        let all = gather(per_node, stop);
        assert forall|i: int| 0 <= i < all.len() implies placed(nodes, bytes, #[trigger] all[i]) by {
            if i < before.len() {
                assert(all[i] == before[i]);
            } else {
                assert(all[i] == per_node(stop - 1)[i - before.len()]);
                assert(well_placed(nodes, bytes, per_node(stop - 1)[i - before.len()], stop - 1));
            }
        }
    } else {
        assert(gather(per_node, stop).len() == 0);
    }
}

/// In a text that a tree fits, the span of an edit of a node is one of
/// whole characters and within `u32`.
pub proof fn lemma_emit_placed(
    nodes: Seq<SyntaxNode>,
    bytes: Seq<u8>,
    start: int,
    end: int,
    new_text: Seq<u8>,
    host: int,
)
    requires
        0 <= host < nodes.len(),
        !in_comment(nodes, host),
        nodes[host].start_byte <= start <= end <= nodes[host].end_byte,
        end <= bytes.len() <= u32::MAX,
    ensures
        all_within(nodes, bytes, emit(bytes, start, end, new_text), host),
{
    let edits = emit(bytes, start, end, new_text);
    if edits.len() > 0 {
        let edit = edits[0];
        assert(edit.byte_offset == start);
        assert(edit.old_text.len() == end - start);
        lemma_line_feeds_bound(bytes, start);
    }
}

/// There are no more line feeds than bytes.
pub proof fn lemma_line_feeds_bound(bytes: Seq<u8>, offset: int)
    ensures
        line_feeds_before(bytes, offset) <= bytes.len(),
{
    if offset <= 0 {
    } else if offset >= bytes.len() {
        lemma_line_feeds_count(bytes);
    } else {
        lemma_line_feeds_count(bytes.take(offset));
    }
}

/// There are no more line feeds than bytes.
pub proof fn lemma_line_feeds_count(bytes: Seq<u8>)
    ensures
        crate::text::line_feeds(bytes) <= bytes.len(),
    decreases bytes.len(),
{
    if bytes.len() > 0 {
        lemma_line_feeds_count(bytes.drop_last());
    }
}

/// Adds to `out` the edit that puts `new_text` in place of the bytes from
/// `start` to `end` of `source`, unless that changes nothing.
pub fn push_edit(
    out: &mut Vec<PartialMutant>,
    source: &str,
    start: usize,
    end: usize,
    new_text: String,
)
    requires
        char_span(bytes_of(source@), start as int, end as int),
        bytes_of(source@).len() <= u32::MAX,
    ensures
        views(final(out)@) == views(old(out)@) + emit(
            bytes_of(source@),
            start as int,
            end as int,
            bytes_of(new_text@),
        ),
{
    let old_text = slice_text(source, start, end);
    let same = str_eq(old_text, new_text.as_str());
    proof {
        if bytes_of(old_text@) == bytes_of(new_text@) {
            lemma_bytes_of_injective(old_text@, new_text@);
        }
    }
    if !same {
        let line: usize = count_line_feeds(source.as_bytes(), start);
        let edit = PartialMutant {
            byte_offset: start as u32,
            line_offset: line as u32,
            old_text: old_text.to_string(),
            new_text,
        };
        proof {
            assert(views(out@.push(edit)) =~= views(out@).push(edit@));
            assert(edit@ == span_edit(
                bytes_of(source@),
                start as int,
                end as int,
                bytes_of(new_text@),
            ));
        }
        out.push(edit);
        assert(views(out@) =~= views(old(out)@) + emit(
            bytes_of(source@),
            start as int,
            end as int,
            bytes_of(new_text@),
        ));
    } else {
        assert(views(out@) =~= views(old(out)@) + emit(
            bytes_of(source@),
            start as int,
            end as int,
            bytes_of(new_text@),
        ));
    }
}

/// Whether an ancestor of the node at `at` has one of the `kinds`.
pub open spec fn under_kind(nodes: Seq<SyntaxNode>, at: int, kinds: Seq<&str>) -> bool
    decreases at,
{
    if 0 < at < nodes.len() && 0 <= nodes[at].parent < at {
        listed(kinds, nodes[nodes[at].parent as int].kind@) || under_kind(
            nodes,
            nodes[at].parent as int,
            kinds,
        )
    } else {
        false
    }
}

/// Whether an ancestor of the node at `at` has one of the `kinds`.
pub fn has_ancestor_with_kind(tree: &SyntaxTree, at: usize, kinds: &[&str]) -> (r: bool)
    requires
        tree.wf(),
        at < tree@.len(),
    ensures
        r == under_kind(tree@, at as int, kinds@),
{
    let mut current: usize = at;
    loop
        invariant
            tree.wf(),
            current < tree@.len(),
            under_kind(tree@, at as int, kinds@) == under_kind(tree@, current as int, kinds@),
        decreases current,
    {
        assert(hangs(tree@, current as int));
        if current == 0 {
            return false;
        }
        let parent: usize = tree.node(current).parent;
        if is_listed(kinds, tree.node(parent).kind.as_str()) {
            return true;
        }
        current = parent;
    }
}

/// Whether the node at `at` is one that `wrap` and `replace` look at: it
/// has one of the `kinds`, none of its ancestors has, and it is outside
/// of comments.
pub open spec fn outermost(nodes: Seq<SyntaxNode>, at: int, kinds: Seq<&str>) -> bool {
    &&& listed(kinds, nodes[at].kind@)
    &&& !in_comment(nodes, at)
    &&& !under_kind(nodes, at, kinds)
}

/// What `wrap` proposes at the node at `at`.
pub open spec fn wrap_at(
    nodes: Seq<SyntaxNode>,
    bytes: Seq<u8>,
    kinds: Seq<&str>,
    prefix: Seq<u8>,
    suffix: Seq<u8>,
    at: int,
) -> Seq<PartialMutantView> {
    if outermost(nodes, at, kinds) {
        node_edit(nodes, bytes, at, prefix + node_bytes(nodes, bytes, at) + suffix)
    } else {
        Seq::empty()
    }
}

/// `wrap` as a pattern.
pub open spec fn wrap_rule(
    nodes: Seq<SyntaxNode>,
    bytes: Seq<u8>,
    kinds: Seq<&str>,
    prefix: Seq<u8>,
    suffix: Seq<u8>,
) -> PerNode {
    |at: int| wrap_at(nodes, bytes, kinds, prefix, suffix, at)
}

/// What `wrap` proposes: for each outermost node of one of the `kinds`,
/// its text between `prefix` and `suffix`.
pub open spec fn wrap_edits(
    nodes: Seq<SyntaxNode>,
    bytes: Seq<u8>,
    kinds: Seq<&str>,
    prefix: Seq<u8>,
    suffix: Seq<u8>,
) -> Seq<PartialMutantView> {
    gather(wrap_rule(nodes, bytes, kinds, prefix, suffix), nodes.len() as int)
}

/// Whether each edit ends before the next one starts.
pub open spec fn in_document_order(edits: Seq<PartialMutantView>) -> bool {
    forall|i: int, j: int|
        0 <= i < j < edits.len() ==> (#[trigger] edits[i]).end() <= (#[trigger] edits[j]).byte_offset
}

/// Whether the pattern proposes at most one edit at a node, that of the
/// whole node, and only at outermost nodes of the `kinds`.
pub open spec fn rewrites_outermost(
    nodes: Seq<SyntaxNode>,
    bytes: Seq<u8>,
    kinds: Seq<&str>,
    per_node: PerNode,
) -> bool {
    forall|at: int|
        0 <= at < nodes.len() ==> (#[trigger] per_node(at)).len() <= 1 && (per_node(at).len() == 1
            ==> outermost(nodes, at, kinds) && per_node(at)[0].byte_offset == nodes[at].start_byte
            && per_node(at)[0].end() == nodes[at].end_byte)
}

/// No outermost node of the `kinds` is an ancestor of another.
pub proof fn lemma_outermost_apart(nodes: Seq<SyntaxNode>, kinds: Seq<&str>, upper: int, lower: int)
    requires
        is_ancestor(nodes, upper, lower),
        listed(kinds, nodes[upper].kind@),
    ensures
        under_kind(nodes, lower, kinds),
    decreases lower,
{
    let parent = nodes[lower].parent as int;
    if parent != upper {
        lemma_outermost_apart(nodes, kinds, upper, parent);
    }
}

/// The edits of a pattern that rewrites outermost nodes come in document
/// order, none reaching into the next.
pub proof fn lemma_gather_in_order(
    nodes: Seq<SyntaxNode>,
    bytes: Seq<u8>,
    kinds: Seq<&str>,
    per_node: PerNode,
    stop: int,
)
    requires
        well_formed(nodes),
        rewrites_outermost(nodes, bytes, kinds, per_node),
        stop <= nodes.len(),
    ensures
        in_document_order(gather(per_node, stop)),
        forall|i: int|
            0 <= i < gather(per_node, stop).len() ==> exists|at: int|
                0 <= at < stop && outermost(nodes, at, kinds) && (#[trigger] gather(
                    per_node,
                    stop,
                )[i]).end() == nodes[at].end_byte,
    decreases stop,
{
    if stop > 0 {
        lemma_gather_in_order(nodes, bytes, kinds, per_node, stop - 1);
        let before = gather(per_node, stop - 1);
        let here = per_node(stop - 1);
        let all = gather(per_node, stop);
        assert forall|i: int| 0 <= i < all.len() implies exists|at: int|
            0 <= at < stop && outermost(nodes, at, kinds) && (#[trigger] all[i]).end()
                == nodes[at].end_byte by {
            if i < before.len() {
                assert(all[i] == before[i]);
                let at = choose|at: int|
                    0 <= at < stop - 1 && outermost(nodes, at, kinds) && before[i].end()
                        == nodes[at].end_byte;
                assert(0 <= at < stop && outermost(nodes, at, kinds) && all[i].end()
                    == nodes[at].end_byte);
            } else {
                assert(all[i] == here[0]);
                assert(0 <= stop - 1 < stop && outermost(nodes, stop - 1, kinds) && all[i].end()
                    == nodes[stop - 1].end_byte);
            }
        }
        assert forall|i: int, j: int| 0 <= i < j < all.len() implies (#[trigger] all[i]).end() <= (
        #[trigger] all[j]).byte_offset by {
            if j < before.len() {
                assert(all[i] == before[i] && all[j] == before[j]);
            } else {
                assert(all[i] == before[i]);
                assert(all[j] == here[0]);
                let at = choose|at: int|
                    0 <= at < stop - 1 && outermost(nodes, at, kinds) && before[i].end()
                        == nodes[at].end_byte;
                assert(apart(nodes, at, stop - 1));
                if is_ancestor(nodes, at, stop - 1) {
                    lemma_outermost_apart(nodes, kinds, at, stop - 1);
                }
            }
        }
    }
}

/// Wraps each outermost node of one of the `node_kinds` between `prefix`
/// and `suffix`.
pub fn wrap(tree: &SyntaxTree, source: &str, node_kinds: &[&str], prefix: &str, suffix: &str) -> (r:
    Vec<PartialMutant>)
    requires
        tree.wf(),
        tree.fits(bytes_of(source@)),
    ensures
        views(r@) == wrap_edits(
            tree@,
            bytes_of(source@),
            node_kinds@,
            bytes_of(prefix@),
            bytes_of(suffix@),
        ),
        all_placed(tree@, bytes_of(source@), views(r@)),
        in_document_order(views(r@)),
{
    let ghost bytes = bytes_of(source@);
    let ghost rule = wrap_rule(tree@, bytes, node_kinds@, bytes_of(prefix@), bytes_of(suffix@));
    let mut out: Vec<PartialMutant> = Vec::new();
    let count: usize = tree.len();
    let mut at: usize = 0;
    assert(views(out@) =~= gather(rule, 0));
    while at < count
        invariant
            tree.wf(),
            tree.fits(bytes),
            bytes == bytes_of(source@),
            count == tree@.len(),
            0 <= at <= count,
            rule == wrap_rule(tree@, bytes, node_kinds@, bytes_of(prefix@), bytes_of(suffix@)),
            views(out@) == gather(rule, at as int),
        decreases count - at,
    {
        if is_listed(node_kinds, tree.node(at).kind.as_str()) && !is_in_comment(tree, at)
            && !has_ancestor_with_kind(tree, at, node_kinds) {
            let node = tree.node(at);
            let old_text = node_text(tree, at, source);
            let new_text = concat3(prefix, old_text, suffix);
            push_edit(&mut out, source, node.start_byte, node.end_byte, new_text);
        } else {
            assert(views(out@) + rule(at as int) =~= views(out@));
        }
        at += 1;
    }
    proof {
        lemma_wrap_rule(tree@, bytes, node_kinds@, bytes_of(prefix@), bytes_of(suffix@));
        lemma_gather_placed(tree@, bytes, rule, count as int);
        lemma_gather_in_order(tree@, bytes, node_kinds@, rule, count as int);
    }
    out
}

/// `wrap` keeps within its nodes and rewrites outermost nodes only.
pub proof fn lemma_wrap_rule(
    nodes: Seq<SyntaxNode>,
    bytes: Seq<u8>,
    kinds: Seq<&str>,
    prefix: Seq<u8>,
    suffix: Seq<u8>,
)
    requires
        well_formed(nodes),
        bytes.len() <= u32::MAX,
        forall|i: int|
            0 <= i < nodes.len() ==> (#[trigger] nodes[i]).start_byte <= nodes[i].end_byte
                <= bytes.len(),
    ensures
        keeps_within(nodes, bytes, wrap_rule(nodes, bytes, kinds, prefix, suffix)),
        rewrites_outermost(nodes, bytes, kinds, wrap_rule(nodes, bytes, kinds, prefix, suffix)),
{
    let rule = wrap_rule(nodes, bytes, kinds, prefix, suffix);
    assert forall|at: int, i: int| 0 <= at < nodes.len() && 0 <= i < rule(at).len() implies well_placed(
        nodes,
        bytes,
        #[trigger] rule(at)[i],
        at,
    ) by {
        assert(nodes[at].start_byte <= nodes[at].end_byte <= bytes.len());
        lemma_emit_placed(
            nodes,
            bytes,
            nodes[at].start_byte as int,
            nodes[at].end_byte as int,
            prefix + node_bytes(nodes, bytes, at) + suffix,
            at,
        );
    }
    assert forall|at: int| 0 <= at < nodes.len() implies (#[trigger] rule(at)).len() <= 1 && (rule(
        at,
    ).len() == 1 ==> outermost(nodes, at, kinds) && rule(at)[0].byte_offset
        == nodes[at].start_byte && rule(at)[0].end() == nodes[at].end_byte) by {
        assert(nodes[at].start_byte <= nodes[at].end_byte <= bytes.len());
    }
}

/// A test by which a caller of `replace` or `replace_first_arg` lets a
/// node through or holds it back.
pub trait NodeFilter {
    /// Whether a node of this kind and with this text is let through.
    spec fn keeps(&self, kind: Seq<char>, text: Seq<u8>) -> bool;

    /// Whether a node of this kind and with this text is let through.
    fn test(&self, kind: &str, text: &str) -> (r: bool)
        ensures
            r == self.keeps(kind@, bytes_of(text@)),
    ;
}

/// The filter that lets every node through.
pub struct Always;

impl NodeFilter for Always {
    open spec fn keeps(&self, kind: Seq<char>, text: Seq<u8>) -> bool {
        true
    }

    fn test(&self, kind: &str, text: &str) -> (r: bool) {
        true
    }
}

/// The filter that holds back the nodes whose text holds `needle`.
pub struct LacksText<'a> {
    pub needle: &'a str,
}

impl<'a> NodeFilter for LacksText<'a> {
    open spec fn keeps(&self, kind: Seq<char>, text: Seq<u8>) -> bool {
        !contains_bytes(text, bytes_of(self.needle@))
    }

    fn test(&self, kind: &str, text: &str) -> (r: bool) {
        !str_contains(text, self.needle)
    }
}

/// The filter that lets through the nodes whose text is one of `names`.
pub struct NamedOneOf<'a> {
    pub names: &'a [&'a str],
}

impl<'a> NodeFilter for NamedOneOf<'a> {
    open spec fn keeps(&self, kind: Seq<char>, text: Seq<u8>) -> bool {
        listed_bytes(self.names@, text)
    }

    fn test(&self, kind: &str, text: &str) -> (r: bool) {
        is_listed_text(self.names, text)
    }
}

/// Whether one of the `options` has these bytes.
pub open spec fn listed_bytes(options: Seq<&str>, text: Seq<u8>) -> bool {
    exists|i: int| 0 <= i < options.len() && bytes_of((#[trigger] options[i])@) == text
}

/// Whether `text` is one of the `options`.
pub fn is_listed_text(options: &[&str], text: &str) -> (r: bool)
    ensures
        r == listed_bytes(options@, bytes_of(text@)),
{
    let r = is_listed(options, text);
    proof {
        if listed_bytes(options@, bytes_of(text@)) {
            let i = choose|i: int|
                0 <= i < options@.len() && bytes_of((#[trigger] options@[i])@) == bytes_of(text@);
            lemma_bytes_of_injective(options@[i]@, text@);
        }
    }
    r
}

/// What `replace` proposes at the node at `at`.
pub open spec fn replace_at<F: NodeFilter>(
    nodes: Seq<SyntaxNode>,
    bytes: Seq<u8>,
    kinds: Seq<&str>,
    replacement: Seq<u8>,
    filter: F,
    at: int,
) -> Seq<PartialMutantView> {
    if outermost(nodes, at, kinds) && filter.keeps(nodes[at].kind@, node_bytes(nodes, bytes, at)) {
        node_edit(nodes, bytes, at, replacement)
    } else {
        Seq::empty()
    }
}

/// `replace` as a pattern.
pub open spec fn replace_rule<F: NodeFilter>(
    nodes: Seq<SyntaxNode>,
    bytes: Seq<u8>,
    kinds: Seq<&str>,
    replacement: Seq<u8>,
    filter: F,
) -> PerNode {
    |at: int| replace_at(nodes, bytes, kinds, replacement, filter, at)
}

/// What `replace` proposes: `replacement` for each outermost node of one
/// of the `kinds` that the filter lets through.
pub open spec fn replace_edits<F: NodeFilter>(
    nodes: Seq<SyntaxNode>,
    bytes: Seq<u8>,
    kinds: Seq<&str>,
    replacement: Seq<u8>,
    filter: F,
) -> Seq<PartialMutantView> {
    gather(replace_rule(nodes, bytes, kinds, replacement, filter), nodes.len() as int)
}

/// `replace` keeps within its nodes and rewrites outermost nodes only.
pub proof fn lemma_replace_rule<F: NodeFilter>(
    nodes: Seq<SyntaxNode>,
    bytes: Seq<u8>,
    kinds: Seq<&str>,
    replacement: Seq<u8>,
    filter: F,
)
    requires
        well_formed(nodes),
        bytes.len() <= u32::MAX,
        forall|i: int|
            0 <= i < nodes.len() ==> (#[trigger] nodes[i]).start_byte <= nodes[i].end_byte
                <= bytes.len(),
    ensures
        keeps_within(nodes, bytes, replace_rule(nodes, bytes, kinds, replacement, filter)),
        rewrites_outermost(
            nodes,
            bytes,
            kinds,
            replace_rule(nodes, bytes, kinds, replacement, filter),
        ),
{
    let rule = replace_rule(nodes, bytes, kinds, replacement, filter);
    assert forall|at: int, i: int| 0 <= at < nodes.len() && 0 <= i < rule(at).len() implies well_placed(
        nodes,
        bytes,
        #[trigger] rule(at)[i],
        at,
    ) by {
        assert(nodes[at].start_byte <= nodes[at].end_byte <= bytes.len());
        lemma_emit_placed(
            nodes,
            bytes,
            nodes[at].start_byte as int,
            nodes[at].end_byte as int,
            replacement,
            at,
        );
    }
    assert forall|at: int| 0 <= at < nodes.len() implies (#[trigger] rule(at)).len() <= 1 && (rule(
        at,
    ).len() == 1 ==> outermost(nodes, at, kinds) && rule(at)[0].byte_offset
        == nodes[at].start_byte && rule(at)[0].end() == nodes[at].end_byte) by {
        assert(nodes[at].start_byte <= nodes[at].end_byte <= bytes.len());
    }
}

/// Replaces each outermost node of one of the `node_kinds` that
/// `should_replace` lets through by `replacement_text`.
pub fn replace<F: NodeFilter>(
    tree: &SyntaxTree,
    source: &str,
    node_kinds: &[&str],
    replacement_text: &str,
    should_replace: &F,
) -> (r: Vec<PartialMutant>)
    requires
        tree.wf(),
        tree.fits(bytes_of(source@)),
    ensures
        views(r@) == replace_edits(
            tree@,
            bytes_of(source@),
            node_kinds@,
            bytes_of(replacement_text@),
            *should_replace,
        ),
        all_placed(tree@, bytes_of(source@), views(r@)),
        in_document_order(views(r@)),
{
    let ghost bytes = bytes_of(source@);
    let ghost rule = replace_rule(
        tree@,
        bytes,
        node_kinds@,
        bytes_of(replacement_text@),
        *should_replace,
    );
    let mut out: Vec<PartialMutant> = Vec::new();
    let count: usize = tree.len();
    let mut at: usize = 0;
    assert(views(out@) =~= gather(rule, 0));
    while at < count
        invariant
            tree.wf(),
            tree.fits(bytes),
            bytes == bytes_of(source@),
            count == tree@.len(),
            0 <= at <= count,
            rule == replace_rule(
                tree@,
                bytes,
                node_kinds@,
                bytes_of(replacement_text@),
                *should_replace,
            ),
            views(out@) == gather(rule, at as int),
        decreases count - at,
    {
        let node = tree.node(at);
        if is_listed(node_kinds, node.kind.as_str()) && !is_in_comment(tree, at)
            && !has_ancestor_with_kind(tree, at, node_kinds) && should_replace.test(
            node.kind.as_str(),
            node_text(tree, at, source),
        ) {
            push_edit(
                &mut out,
                source,
                node.start_byte,
                node.end_byte,
                replacement_text.to_string(),
            );
        } else {
            assert(views(out@) + rule(at as int) =~= views(out@));
        }
        at += 1;
    }
    proof {
        lemma_replace_rule(
            tree@,
            bytes,
            node_kinds@,
            bytes_of(replacement_text@),
            *should_replace,
        );
        lemma_gather_placed(tree@, bytes, rule, count as int);
        lemma_gather_in_order(tree@, bytes, node_kinds@, rule, count as int);
    }
    out
}

/// Whether a kind is that of a bracket or comma of an argument list.
pub open spec fn is_punctuation(kind: Seq<char>) -> bool {
    kind == "("@ || kind == ")"@ || kind == ","@
}

/// Whether a kind is that of a bracket or comma of an argument list.
pub fn is_punctuation_kind(kind: &str) -> (r: bool)
    ensures
        r == is_punctuation(kind@),
{
    str_eq(kind, "(") || str_eq(kind, ")") || str_eq(kind, ",")
}

/// Whether a kind is one of the `keywords`.
pub fn is_keyword_kind(kind: &str, keywords: &[&str]) -> (r: bool)
    ensures
        r == listed(keywords@, kind@),
{
    is_listed(keywords, kind)
}

/// Whether the node can be the operand that follows a keyword: a named
/// node that the parser neither made up nor gave up on, and that is
/// neither one of the `keywords` nor punctuation.
pub open spec fn is_operand(node: SyntaxNode, keywords: Seq<&str>) -> bool {
    &&& !node.missing
    &&& !node.error
    &&& !listed(keywords, node.kind@)
    &&& !is_punctuation(node.kind@)
    &&& node.named
}

/// The first operand among the nodes `among`, from place `from` on.
pub open spec fn operand_from(
    nodes: Seq<SyntaxNode>,
    among: Seq<usize>,
    keywords: Seq<&str>,
    from: int,
) -> Option<usize>
    decreases among.len() - from,
{
    if from < 0 || from >= among.len() {
        None
    } else if is_operand(nodes[among[from] as int], keywords) {
        Some(among[from])
    } else {
        operand_from(nodes, among, keywords, from + 1)
    }
}

/// The first child of the node at `at` that is an operand.
pub fn first_named_child_after_keyword(tree: &SyntaxTree, at: usize, keywords: &[&str]) -> (r:
    Option<usize>)
    requires
        tree.wf(),
        at < tree@.len(),
    ensures
        r == operand_from(tree@, children_of(tree@, at as int), keywords@, 0),
        r matches Some(child) ==> at < child < tree@.len() && tree@[child as int].parent == at,
{
    let children = tree.children(at);
    let mut i: usize = 0;
    while i < children.len()
        invariant
            0 <= i <= children@.len(),
            children@ == children_of(tree@, at as int),
            forall|k: int|
                0 <= k < children@.len() ==> at < (#[trigger] children@[k]) < tree@.len()
                    && tree@[children@[k] as int].parent == at,
            operand_from(tree@, children@, keywords@, 0) == operand_from(
                tree@,
                children@,
                keywords@,
                i as int,
            ),
        decreases children@.len() - i,
    {
        let child: usize = children[i];
        let node = tree.node(child);
        if !node.missing && !node.error && !is_keyword_kind(node.kind.as_str(), keywords)
            && !is_punctuation_kind(node.kind.as_str()) && node.named {
            return Some(child);
        }
        i += 1;
    }
    None
}

/// The node that holds the condition of the node at `at`: the child
/// under the field `field`, or else the first operand among the
/// children, unless that is of kind `;` or `{`.
pub open spec fn condition_of(
    nodes: Seq<SyntaxNode>,
    at: int,
    field: Seq<char>,
    keywords: Seq<&str>,
) -> Option<usize> {
    match crate::engine::tree::child_with_field(nodes, at, field) {
        Some(child) => Some(child),
        None => match operand_from(nodes, children_of(nodes, at), keywords, 0) {
            Some(child) => if nodes[child as int].kind@ == ";"@ || nodes[child as int].kind@
                == "{"@ {
                None
            } else {
                Some(child)
            },
            None => None,
        },
    }
}

/// The node that holds the condition of the node at `at`.
pub fn find_condition(tree: &SyntaxTree, at: usize, field: &str, keywords: &[&str]) -> (r: Option<
    usize,
>)
    requires
        tree.wf(),
        at < tree@.len(),
    ensures
        r == condition_of(tree@, at as int, field@, keywords@),
        r matches Some(child) ==> at < child < tree@.len() && tree@[child as int].parent == at,
{
    match tree.child_by_field_name(at, field) {
        Some(child) => Some(child),
        None => match first_named_child_after_keyword(tree, at, keywords) {
            Some(child) => {
                let kind = tree.node(child).kind.as_str();
                if str_eq(kind, ";") || str_eq(kind, "{") {
                    None
                } else {
                    Some(child)
                }
            },
            None => None,
        },
    }
}

/// Whether a text starts with `(` and ends with `)`.
pub open spec fn in_parens(text: Seq<u8>) -> bool {
    text.len() > 0 && text.first() == 40u8 && text.last() == 41u8
}

/// The replacement in the shape of the text it replaces: in parentheses
/// where that text is.
pub open spec fn shaped(old_text: Seq<u8>, replacement: Seq<u8>) -> Seq<u8> {
    if in_parens(old_text) {
        bytes_of("("@) + replacement + bytes_of(")"@)
    } else {
        replacement
    }
}

/// What `replace_condition` proposes at the node at `at`.
pub open spec fn replace_condition_at(
    nodes: Seq<SyntaxNode>,
    bytes: Seq<u8>,
    kind: Seq<char>,
    field: Seq<char>,
    keywords: Seq<&str>,
    replacement: Seq<u8>,
    at: int,
) -> Seq<PartialMutantView> {
    if nodes[at].kind@ == kind && !in_comment(nodes, at) {
        match condition_of(nodes, at, field, keywords) {
            Some(child) => node_edit(
                nodes,
                bytes,
                child as int,
                shaped(node_bytes(nodes, bytes, child as int), replacement),
            ),
            None => Seq::empty(),
        }
    } else {
        Seq::empty()
    }
}

/// `replace_condition` as a pattern.
pub open spec fn replace_condition_rule(
    nodes: Seq<SyntaxNode>,
    bytes: Seq<u8>,
    kind: Seq<char>,
    field: Seq<char>,
    keywords: Seq<&str>,
    replacement: Seq<u8>,
) -> PerNode {
    |at: int| replace_condition_at(nodes, bytes, kind, field, keywords, replacement, at)
}

/// What `replace_condition` proposes: for each node of the kind outside
/// of comments, `replacement` in place of its condition, in parentheses
/// where the condition is.
pub open spec fn replace_condition_edits(
    nodes: Seq<SyntaxNode>,
    bytes: Seq<u8>,
    kind: Seq<char>,
    field: Seq<char>,
    keywords: Seq<&str>,
    replacement: Seq<u8>,
) -> Seq<PartialMutantView> {
    gather(
        replace_condition_rule(nodes, bytes, kind, field, keywords, replacement),
        nodes.len() as int,
    )
}

/// An edit of a child of a node outside of comments is well placed.
pub proof fn lemma_child_edit_placed(
    nodes: Seq<SyntaxNode>,
    bytes: Seq<u8>,
    host: int,
    child: int,
    new_text: Seq<u8>,
)
    requires
        well_formed(nodes),
        0 <= host < child < nodes.len(),
        nodes[child].parent == host,
        !in_comment(nodes, host),
        nodes[child].end_byte <= bytes.len() <= u32::MAX,
    ensures
        all_within(nodes, bytes, node_edit(nodes, bytes, child, new_text), host),
{
    assert(hangs(nodes, child));
    lemma_emit_placed(
        nodes,
        bytes,
        nodes[child].start_byte as int,
        nodes[child].end_byte as int,
        new_text,
        host,
    );
}

/// Whether every node ends within the text.
pub open spec fn spans_within(nodes: Seq<SyntaxNode>, bytes: Seq<u8>) -> bool {
    &&& bytes.len() <= u32::MAX
    &&& forall|i: int| 0 <= i < nodes.len() ==> (#[trigger] nodes[i]).end_byte <= bytes.len()
}

/// `replace_condition` keeps within its nodes.
pub proof fn lemma_replace_condition_rule(
    nodes: Seq<SyntaxNode>,
    bytes: Seq<u8>,
    kind: Seq<char>,
    field: Seq<char>,
    keywords: Seq<&str>,
    replacement: Seq<u8>,
)
    requires
        well_formed(nodes),
        nodes.len() <= usize::MAX,
        spans_within(nodes, bytes),
    ensures
        keeps_within(
            nodes,
            bytes,
            replace_condition_rule(nodes, bytes, kind, field, keywords, replacement),
        ),
{
    let rule = replace_condition_rule(nodes, bytes, kind, field, keywords, replacement);
    assert forall|at: int, i: int| 0 <= at < nodes.len() && 0 <= i < rule(at).len() implies well_placed(
        nodes,
        bytes,
        #[trigger] rule(at)[i],
        at,
    ) by {
        let child = condition_of(nodes, at, field, keywords)->0 as int;
        let children = children_of(nodes, at);
        crate::engine::tree::lemma_children_before(nodes, at, nodes.len() as int);
        lemma_first_with_field(nodes, children, field, 0);
        lemma_operand_from(nodes, children, keywords, 0);
        assert(children.contains(child as usize));
        lemma_child_edit_placed(
            nodes,
            bytes,
            at,
            child,
            shaped(node_bytes(nodes, bytes, child), replacement),
        );
    }
}

/// What `first_with_field` finds is one of the nodes it looks at.
pub proof fn lemma_first_with_field(
    nodes: Seq<SyntaxNode>,
    among: Seq<usize>,
    name: Seq<char>,
    from: int,
)
    requires
        0 <= from,
    ensures
        crate::engine::tree::first_with_field(nodes, among, name, from) matches Some(found)
            ==> among.contains(found),
    decreases among.len() - from,
{
    if from < among.len() {
        lemma_first_with_field(nodes, among, name, from + 1);
    }
}

/// What `operand_from` finds is one of the nodes it looks at.
pub proof fn lemma_operand_from(
    nodes: Seq<SyntaxNode>,
    among: Seq<usize>,
    keywords: Seq<&str>,
    from: int,
)
    requires
        0 <= from,
    ensures
        operand_from(nodes, among, keywords, from) matches Some(found) ==> among.contains(found),
    decreases among.len() - from,
{
    if from < among.len() {
        lemma_operand_from(nodes, among, keywords, from + 1);
    }
}

/// Replaces the condition of each node of kind `node_kind` by
/// `replacement`, in parentheses where the condition is.
pub fn replace_condition(
    tree: &SyntaxTree,
    source: &str,
    node_kind: &str,
    condition_field_name: &str,
    keyword_kinds: &[&str],
    replacement: &str,
) -> (r: Vec<PartialMutant>)
    requires
        tree.wf(),
        tree.fits(bytes_of(source@)),
    ensures
        views(r@) == replace_condition_edits(
            tree@,
            bytes_of(source@),
            node_kind@,
            condition_field_name@,
            keyword_kinds@,
            bytes_of(replacement@),
        ),
        all_placed(tree@, bytes_of(source@), views(r@)),
{
    let ghost bytes = bytes_of(source@);
    let ghost rule = replace_condition_rule(
        tree@,
        bytes,
        node_kind@,
        condition_field_name@,
        keyword_kinds@,
        bytes_of(replacement@),
    );
    let mut out: Vec<PartialMutant> = Vec::new();
    let count: usize = tree.len();
    let mut at: usize = 0;
    assert(views(out@) =~= gather(rule, 0));
    while at < count
        invariant
            tree.wf(),
            tree.fits(bytes),
            bytes == bytes_of(source@),
            count == tree@.len(),
            0 <= at <= count,
            rule == replace_condition_rule(
                tree@,
                bytes,
                node_kind@,
                condition_field_name@,
                keyword_kinds@,
                bytes_of(replacement@),
            ),
            views(out@) == gather(rule, at as int),
        decreases count - at,
    {
        let mut found: Option<usize> = None;
        if str_eq(tree.node(at).kind.as_str(), node_kind) && !is_in_comment(tree, at) {
            found = find_condition(tree, at, condition_field_name, keyword_kinds);
        }
        match found {
            Some(child) => {
                let node = tree.node(child);
                let old_text = node_text(tree, child, source);
                let old_bytes = old_text.as_bytes();
                let new_text = if old_bytes.len() > 0 && old_bytes[0] == 40u8 && old_bytes[old_bytes.len()
                    - 1] == 41u8 {
                    concat3("(", replacement, ")")
                } else {
                    replacement.to_string()
                };
                push_edit(&mut out, source, node.start_byte, node.end_byte, new_text);
            },
            None => {
                assert(views(out@) + rule(at as int) =~= views(out@));
            },
        }
        at += 1;
    }
    proof {
        lemma_fits_within(tree, bytes);
        lemma_replace_condition_rule(
            tree@,
            bytes,
            node_kind@,
            condition_field_name@,
            keyword_kinds@,
            bytes_of(replacement@),
        );
        lemma_gather_placed(tree@, bytes, rule, count as int);
    }
    out
}

/// In a text that the tree fits, every node ends within the text.
pub proof fn lemma_fits_within(tree: &SyntaxTree, bytes: Seq<u8>)
    requires
        tree.fits(bytes),
    ensures
        spans_within(tree@, bytes),
        forall|i: int|
            0 <= i < tree@.len() ==> (#[trigger] tree@[i]).start_byte <= tree@[i].end_byte
                <= bytes.len(),
{
    assert forall|i: int| 0 <= i < tree@.len() implies (#[trigger] tree@[i]).start_byte
        <= tree@[i].end_byte <= bytes.len() by {
        assert(char_span(bytes, tree@[i].start_byte as int, tree@[i].end_byte as int));
    }
}

/// Whether each edit is well placed in the node at `host`.
pub open spec fn all_within(
    nodes: Seq<SyntaxNode>,
    bytes: Seq<u8>,
    edits: Seq<PartialMutantView>,
    host: int,
) -> bool {
    forall|i: int| 0 <= i < edits.len() ==> well_placed(nodes, bytes, #[trigger] edits[i], host)
}

/// Edits that are well placed in a node stay so when put together.
pub proof fn lemma_all_within_concat(
    nodes: Seq<SyntaxNode>,
    bytes: Seq<u8>,
    first: Seq<PartialMutantView>,
    second: Seq<PartialMutantView>,
    host: int,
)
    requires
        all_within(nodes, bytes, first, host),
        all_within(nodes, bytes, second, host),
    ensures
        all_within(nodes, bytes, first + second, host),
{
    let all = first + second;
    assert forall|i: int| 0 <= i < all.len() implies well_placed(
        nodes,
        bytes,
        #[trigger] all[i],
        host,
    ) by {
        if i < first.len() {
            assert(all[i] == first[i]);
        } else {
            assert(all[i] == second[i - first.len()]);
        }
    }
}

/// The edits that put each of the first `upto` of the `options` in
/// place of the bytes from `start` to `end`, but for the option that
/// stands there already.
pub open spec fn swaps(bytes: Seq<u8>, start: int, end: int, options: Seq<&str>, upto: int) -> Seq<
    PartialMutantView,
>
    decreases upto,
{
    if upto <= 0 {
        Seq::empty()
    } else {
        swaps(bytes, start, end, options, upto - 1) + emit(
            bytes,
            start,
            end,
            bytes_of(options[upto - 1]@),
        )
    }
}

/// Edits of a span within a node outside of comments are well placed.
pub proof fn lemma_swaps_placed(
    nodes: Seq<SyntaxNode>,
    bytes: Seq<u8>,
    start: int,
    end: int,
    options: Seq<&str>,
    upto: int,
    host: int,
)
    requires
        0 <= host < nodes.len(),
        !in_comment(nodes, host),
        nodes[host].start_byte <= start <= end <= nodes[host].end_byte,
        end <= bytes.len() <= u32::MAX,
        upto <= options.len(),
    ensures
        all_within(nodes, bytes, swaps(bytes, start, end, options, upto), host),
    decreases upto,
{
    if upto > 0 {
        lemma_swaps_placed(nodes, bytes, start, end, options, upto - 1, host);
        lemma_emit_placed(nodes, bytes, start, end, bytes_of(options[upto - 1]@), host);
        lemma_all_within_concat(
            nodes,
            bytes,
            swaps(bytes, start, end, options, upto - 1),
            emit(bytes, start, end, bytes_of(options[upto - 1]@)),
            host,
        );
    }
}

/// Adds to `out` the edits that put each of the `options` in place of the
/// bytes from `start` to `end` of `source`.
pub fn push_swaps(
    out: &mut Vec<PartialMutant>,
    source: &str,
    start: usize,
    end: usize,
    options: &[&str],
)
    requires
        char_span(bytes_of(source@), start as int, end as int),
        bytes_of(source@).len() <= u32::MAX,
    ensures
        views(final(out)@) == views(old(out)@) + swaps(
            bytes_of(source@),
            start as int,
            end as int,
            options@,
            options@.len() as int,
        ),
{
    let ghost bytes = bytes_of(source@);
    let mut i: usize = 0;
    assert(views(out@) =~= views(old(out)@) + swaps(bytes, start as int, end as int, options@, 0));
    while i < options.len()
        invariant
            char_span(bytes, start as int, end as int),
            bytes == bytes_of(source@),
            bytes.len() <= u32::MAX,
            0 <= i <= options@.len(),
            views(out@) == views(old(out)@) + swaps(
                bytes,
                start as int,
                end as int,
                options@,
                i as int,
            ),
        decreases options@.len() - i,
    {
        let ghost before = views(out@);
        push_edit(out, source, start, end, options[i].to_string());
        assert(views(out@) =~= views(old(out)@) + swaps(
            bytes,
            start as int,
            end as int,
            options@,
            i + 1,
        ));
        i += 1;
    }
}

/// What `shuffle_operators` proposes at one child: where its text is one
/// of the `operators`, each other operator in its place.
pub open spec fn operator_swaps(
    nodes: Seq<SyntaxNode>,
    bytes: Seq<u8>,
    operators: Seq<&str>,
    child: int,
) -> Seq<PartialMutantView> {
    if listed_bytes(operators, node_bytes(nodes, bytes, child)) {
        swaps(
            bytes,
            nodes[child].start_byte as int,
            nodes[child].end_byte as int,
            operators,
            operators.len() as int,
        )
    } else {
        Seq::empty()
    }
}

/// What `shuffle_operators` proposes at the first `upto` of the children.
pub open spec fn operator_swaps_upto(
    nodes: Seq<SyntaxNode>,
    bytes: Seq<u8>,
    operators: Seq<&str>,
    children: Seq<usize>,
    upto: int,
) -> Seq<PartialMutantView>
    decreases upto,
{
    if upto <= 0 {
        Seq::empty()
    } else {
        operator_swaps_upto(nodes, bytes, operators, children, upto - 1) + operator_swaps(
            nodes,
            bytes,
            operators,
            children[upto - 1] as int,
        )
    }
}

/// What `shuffle_operators` proposes at the node at `at`.
pub open spec fn shuffle_operators_at(
    nodes: Seq<SyntaxNode>,
    bytes: Seq<u8>,
    kinds: Seq<&str>,
    operators: Seq<&str>,
    at: int,
) -> Seq<PartialMutantView> {
    if listed(kinds, nodes[at].kind@) && !in_comment(nodes, at) {
        operator_swaps_upto(
            nodes,
            bytes,
            operators,
            children_of(nodes, at),
            children_of(nodes, at).len() as int,
        )
    } else {
        Seq::empty()
    }
}

/// `shuffle_operators` as a pattern.
pub open spec fn shuffle_operators_rule(
    nodes: Seq<SyntaxNode>,
    bytes: Seq<u8>,
    kinds: Seq<&str>,
    operators: Seq<&str>,
) -> PerNode {
    |at: int| shuffle_operators_at(nodes, bytes, kinds, operators, at)
}

/// What `shuffle_operators` proposes: for each node of one of the `kinds`
/// outside of comments and each of its children whose text is one of the
/// `operators`, every other operator in its place, in the order of
/// `operators`.
pub open spec fn shuffle_operators_edits(
    nodes: Seq<SyntaxNode>,
    bytes: Seq<u8>,
    kinds: Seq<&str>,
    operators: Seq<&str>,
) -> Seq<PartialMutantView> {
    gather(shuffle_operators_rule(nodes, bytes, kinds, operators), nodes.len() as int)
}

/// What `shuffle_operators` proposes at children of a node outside of
/// comments is well placed.
pub proof fn lemma_operator_swaps_placed(
    nodes: Seq<SyntaxNode>,
    bytes: Seq<u8>,
    operators: Seq<&str>,
    children: Seq<usize>,
    upto: int,
    host: int,
)
    requires
        well_formed(nodes),
        spans_within(nodes, bytes),
        0 <= host < nodes.len(),
        !in_comment(nodes, host),
        upto <= children.len(),
        forall|k: int|
            0 <= k < children.len() ==> host < (#[trigger] children[k]) < nodes.len()
                && nodes[children[k] as int].parent == host,
    ensures
        all_within(
            nodes,
            bytes,
            operator_swaps_upto(nodes, bytes, operators, children, upto),
            host,
        ),
    decreases upto,
{
    if upto > 0 {
        lemma_operator_swaps_placed(nodes, bytes, operators, children, upto - 1, host);
        let child = children[upto - 1] as int;
        assert(hangs(nodes, child));
        lemma_swaps_placed(
            nodes,
            bytes,
            nodes[child].start_byte as int,
            nodes[child].end_byte as int,
            operators,
            operators.len() as int,
            host,
        );
        lemma_all_within_concat(
            nodes,
            bytes,
            operator_swaps_upto(nodes, bytes, operators, children, upto - 1),
            operator_swaps(nodes, bytes, operators, child),
            host,
        );
    }
}

/// `shuffle_operators` keeps within its nodes.
pub proof fn lemma_shuffle_operators_rule(
    nodes: Seq<SyntaxNode>,
    bytes: Seq<u8>,
    kinds: Seq<&str>,
    operators: Seq<&str>,
)
    requires
        well_formed(nodes),
        nodes.len() <= usize::MAX,
        spans_within(nodes, bytes),
    ensures
        keeps_within(nodes, bytes, shuffle_operators_rule(nodes, bytes, kinds, operators)),
{
    let rule = shuffle_operators_rule(nodes, bytes, kinds, operators);
    assert forall|at: int, i: int| 0 <= at < nodes.len() && 0 <= i < rule(at).len() implies well_placed(
        nodes,
        bytes,
        #[trigger] rule(at)[i],
        at,
    ) by {
        let children = children_of(nodes, at);
        crate::engine::tree::lemma_children_before(nodes, at, nodes.len() as int);
        lemma_operator_swaps_placed(nodes, bytes, operators, children, children.len() as int, at);
    }
}

/// Puts, within each node of one of the `expr_node_kinds`, every other
/// operator in place of each child that is one of the `operators`.
pub fn shuffle_operators(
    tree: &SyntaxTree,
    source: &str,
    expr_node_kinds: &[&str],
    operators: &[&str],
) -> (r: Vec<PartialMutant>)
    requires
        tree.wf(),
        tree.fits(bytes_of(source@)),
    ensures
        views(r@) == shuffle_operators_edits(
            tree@,
            bytes_of(source@),
            expr_node_kinds@,
            operators@,
        ),
        all_placed(tree@, bytes_of(source@), views(r@)),
{
    let ghost bytes = bytes_of(source@);
    let ghost rule = shuffle_operators_rule(tree@, bytes, expr_node_kinds@, operators@);
    let mut out: Vec<PartialMutant> = Vec::new();
    let count: usize = tree.len();
    let mut at: usize = 0;
    assert(views(out@) =~= gather(rule, 0));
    while at < count
        invariant
            tree.wf(),
            tree.fits(bytes),
            bytes == bytes_of(source@),
            count == tree@.len(),
            0 <= at <= count,
            rule == shuffle_operators_rule(tree@, bytes, expr_node_kinds@, operators@),
            views(out@) == gather(rule, at as int),
        decreases count - at,
    {
        if is_listed(expr_node_kinds, tree.node(at).kind.as_str()) && !is_in_comment(tree, at) {
            let children = tree.children(at);
            let ghost before = views(out@);
            let mut k: usize = 0;
            assert(views(out@) =~= before + operator_swaps_upto(
                tree@,
                bytes,
                operators@,
                children@,
                0,
            ));
            while k < children.len()
                invariant
                    tree.wf(),
                    tree.fits(bytes),
                    bytes == bytes_of(source@),
                    0 <= k <= children@.len(),
                    forall|i: int| 0 <= i < children@.len() ==> (#[trigger] children@[i]) < tree@.len(),
                    views(out@) == before + operator_swaps_upto(
                        tree@,
                        bytes,
                        operators@,
                        children@,
                        k as int,
                    ),
                decreases children@.len() - k,
            {
                let child: usize = children[k];
                let node = tree.node(child);
                let ghost so_far = views(out@);
                if is_listed_text(operators, node_text(tree, child, source)) {
                    push_swaps(&mut out, source, node.start_byte, node.end_byte, operators);
                }
                assert(views(out@) =~= before + operator_swaps_upto(
                    tree@,
                    bytes,
                    operators@,
                    children@,
                    k + 1,
                ));
                k += 1;
            }
        } else {
            assert(views(out@) + rule(at as int) =~= views(out@));
        }
        at += 1;
    }
    proof {
        lemma_fits_within(tree, bytes);
        lemma_shuffle_operators_rule(tree@, bytes, expr_node_kinds@, operators@);
        lemma_gather_placed(tree@, bytes, rule, count as int);
    }
    out
}

/// The text in which one of a pair of alternatives is replaced: the
/// first where the text holds it, else the second.
pub open spec fn pair_swap(text: Seq<u8>, first: Seq<u8>, second: Seq<u8>, replacement: Seq<u8>) -> Seq<
    u8,
> {
    if contains_bytes(text, first) {
        replace_all(text, first, replacement)
    } else {
        replace_all(text, second, replacement)
    }
}

/// What `shuffle_nodes` proposes for one of a pair of alternatives:
/// nothing where the alternative is the whole text, or where what comes
/// of the replacement is no valid text.
pub open spec fn pair_edit(bytes: Seq<u8>, start: int, end: int, options: Seq<&str>, which: int) -> Seq<
    PartialMutantView,
> {
    let text = bytes.subrange(start, end);
    let replacement = bytes_of(options[which]@);
    let new_text = pair_swap(text, bytes_of(options[0]@), bytes_of(options[1]@), replacement);
    if replacement != text && valid_utf8(new_text) {
        emit(bytes, start, end, new_text)
    } else {
        Seq::empty()
    }
}

/// What `shuffle_nodes` proposes for a pair of alternatives.
pub open spec fn pair_edits(bytes: Seq<u8>, start: int, end: int, options: Seq<&str>) -> Seq<
    PartialMutantView,
> {
    pair_edit(bytes, start, end, options, 0) + pair_edit(bytes, start, end, options, 1)
}

/// What `shuffle_nodes` proposes at the node at `at`.
pub open spec fn shuffle_nodes_at(
    nodes: Seq<SyntaxNode>,
    bytes: Seq<u8>,
    kinds: Seq<&str>,
    alternatives: Seq<&str>,
    at: int,
) -> Seq<PartialMutantView> {
    let text = node_bytes(nodes, bytes, at);
    let start = nodes[at].start_byte as int;
    let end = nodes[at].end_byte as int;
    if listed(kinds, nodes[at].kind@) && !in_comment(nodes, at) {
        if alternatives.len() == 2 {
            if contains_bytes(text, bytes_of(alternatives[0]@)) || contains_bytes(
                text,
                bytes_of(alternatives[1]@),
            ) {
                pair_edits(bytes, start, end, alternatives)
            } else {
                Seq::empty()
            }
        } else if listed_bytes(alternatives, text) {
            swaps(bytes, start, end, alternatives, alternatives.len() as int)
        } else {
            Seq::empty()
        }
    } else {
        Seq::empty()
    }
}

/// `shuffle_nodes` as a pattern.
pub open spec fn shuffle_nodes_rule(
    nodes: Seq<SyntaxNode>,
    bytes: Seq<u8>,
    kinds: Seq<&str>,
    alternatives: Seq<&str>,
) -> PerNode {
    |at: int| shuffle_nodes_at(nodes, bytes, kinds, alternatives, at)
}

/// What `shuffle_nodes` proposes for each node of one of the `kinds`
/// outside of comments. With two alternatives: where the text of the
/// node holds one of them, the text with that one replaced by each
/// alternative. With another number: where the text is one of the
/// alternatives, each other alternative.
pub open spec fn shuffle_nodes_edits(
    nodes: Seq<SyntaxNode>,
    bytes: Seq<u8>,
    kinds: Seq<&str>,
    alternatives: Seq<&str>,
) -> Seq<PartialMutantView> {
    gather(shuffle_nodes_rule(nodes, bytes, kinds, alternatives), nodes.len() as int)
}

/// `shuffle_nodes` keeps within its nodes.
pub proof fn lemma_shuffle_nodes_rule(
    nodes: Seq<SyntaxNode>,
    bytes: Seq<u8>,
    kinds: Seq<&str>,
    alternatives: Seq<&str>,
)
    requires
        well_formed(nodes),
        bytes.len() <= u32::MAX,
        forall|i: int|
            0 <= i < nodes.len() ==> (#[trigger] nodes[i]).start_byte <= nodes[i].end_byte
                <= bytes.len(),
    ensures
        keeps_within(nodes, bytes, shuffle_nodes_rule(nodes, bytes, kinds, alternatives)),
{
    let rule = shuffle_nodes_rule(nodes, bytes, kinds, alternatives);
    assert forall|at: int, i: int| 0 <= at < nodes.len() && 0 <= i < rule(at).len() implies well_placed(
        nodes,
        bytes,
        #[trigger] rule(at)[i],
        at,
    ) by {
        let start = nodes[at].start_byte as int;
        let end = nodes[at].end_byte as int;
        assert(nodes[at].start_byte <= nodes[at].end_byte <= bytes.len());
        if alternatives.len() == 2 {
            let text = bytes.subrange(start, end);
            let first = bytes_of(alternatives[0]@);
            let second = bytes_of(alternatives[1]@);
            lemma_emit_placed(nodes, bytes, start, end, pair_swap(text, first, second, first), at);
            lemma_emit_placed(nodes, bytes, start, end, pair_swap(text, first, second, second), at);
            lemma_all_within_concat(
                nodes,
                bytes,
                pair_edit(bytes, start, end, alternatives, 0),
                pair_edit(bytes, start, end, alternatives, 1),
                at,
            );
        } else {
            lemma_swaps_placed(
                nodes,
                bytes,
                start,
                end,
                alternatives,
                alternatives.len() as int,
                at,
            );
        }
    }
}

/// Adds to `out` what `shuffle_nodes` proposes for one of a pair of
/// alternatives at the bytes from `start` to `end` of `source`.
fn push_pair_edit(
    out: &mut Vec<PartialMutant>,
    source: &str,
    start: usize,
    end: usize,
    options: &[&str],
    which: usize,
)
    requires
        char_span(bytes_of(source@), start as int, end as int),
        bytes_of(source@).len() <= u32::MAX,
        options@.len() == 2,
        which < 2,
    ensures
        views(final(out)@) == views(old(out)@) + pair_edit(
            bytes_of(source@),
            start as int,
            end as int,
            options@,
            which as int,
        ),
{
    let ghost bytes = bytes_of(source@);
    let text = slice_text(source, start, end);
    let replacement = options[which];
    let same = str_eq(replacement, text);
    proof {
        if bytes_of(replacement@) == bytes_of(text@) {
            lemma_bytes_of_injective(replacement@, text@);
        }
    }
    if same {
        assert(views(out@) + pair_edit(bytes, start as int, end as int, options@, which as int)
            =~= views(out@));
        return ;
    }
    let new_bytes = if crate::text::has_bytes(text.as_bytes(), options[0].as_bytes()) {
        replace_bytes(text.as_bytes(), options[0].as_bytes(), replacement.as_bytes())
    } else {
        replace_bytes(text.as_bytes(), options[1].as_bytes(), replacement.as_bytes())
    };
    match string_from_utf8(new_bytes) {
        Some(new_text) => {
            push_edit(out, source, start, end, new_text);
        },
        None => {
            assert(views(out@) + pair_edit(bytes, start as int, end as int, options@, which as int)
                =~= views(out@));
        },
    }
}

/// Puts alternatives in place of the nodes of the `node_kinds`, or of
/// what they hold of a pair of alternatives.
pub fn shuffle_nodes(tree: &SyntaxTree, source: &str, node_kinds: &[&str], alternatives: &[&str]) -> (r:
    Vec<PartialMutant>)
    requires
        tree.wf(),
        tree.fits(bytes_of(source@)),
    ensures
        views(r@) == shuffle_nodes_edits(tree@, bytes_of(source@), node_kinds@, alternatives@),
        all_placed(tree@, bytes_of(source@), views(r@)),
{
    let ghost bytes = bytes_of(source@);
    let ghost rule = shuffle_nodes_rule(tree@, bytes, node_kinds@, alternatives@);
    let mut out: Vec<PartialMutant> = Vec::new();
    let count: usize = tree.len();
    let mut at: usize = 0;
    assert(views(out@) =~= gather(rule, 0));
    while at < count
        invariant
            tree.wf(),
            tree.fits(bytes),
            bytes == bytes_of(source@),
            count == tree@.len(),
            0 <= at <= count,
            rule == shuffle_nodes_rule(tree@, bytes, node_kinds@, alternatives@),
            views(out@) == gather(rule, at as int),
        decreases count - at,
    {
        let node = tree.node(at);
        let ghost before = views(out@);
        if is_listed(node_kinds, node.kind.as_str()) && !is_in_comment(tree, at) {
            let text = node_text(tree, at, source);
            if alternatives.len() == 2 {
                if str_contains(text, alternatives[0]) || str_contains(text, alternatives[1]) {
                    push_pair_edit(&mut out, source, node.start_byte, node.end_byte, alternatives, 0);
                    push_pair_edit(&mut out, source, node.start_byte, node.end_byte, alternatives, 1);
                }
            } else if is_listed_text(alternatives, text) {
                push_swaps(&mut out, source, node.start_byte, node.end_byte, alternatives);
            }
        }
        assert(views(out@) =~= before + rule(at as int));
        at += 1;
    }
    proof {
        lemma_fits_within(tree, bytes);
        lemma_shuffle_nodes_rule(tree@, bytes, node_kinds@, alternatives@);
        lemma_gather_placed(tree@, bytes, rule, count as int);
    }
    out
}

/// The nodes among the first `upto` of `children` that are no
/// punctuation.
pub open spec fn arguments_upto(nodes: Seq<SyntaxNode>, children: Seq<usize>, upto: int) -> Seq<usize>
    decreases upto,
{
    if upto <= 0 {
        Seq::empty()
    } else {
        let rest = arguments_upto(nodes, children, upto - 1);
        if is_punctuation(nodes[children[upto - 1] as int].kind@) {
            rest
        } else {
            rest.push(children[upto - 1])
        }
    }
}

/// The edit that swaps two arguments: in place of what stands from the
/// start of the first to the end of the second, the second, a comma and
/// a blank, and the first.
pub open spec fn swap_edit(nodes: Seq<SyntaxNode>, bytes: Seq<u8>, first: int, second: int) -> Seq<
    PartialMutantView,
> {
    emit(
        bytes,
        nodes[first].start_byte as int,
        nodes[second].end_byte as int,
        node_bytes(nodes, bytes, second) + bytes_of(", "@) + node_bytes(nodes, bytes, first),
    )
}

/// The swaps of the first `upto` pairs of neighbours among `arguments`.
pub open spec fn swap_pairs(nodes: Seq<SyntaxNode>, bytes: Seq<u8>, arguments: Seq<usize>, upto: int) -> Seq<
    PartialMutantView,
>
    decreases upto,
{
    if upto <= 0 {
        Seq::empty()
    } else {
        swap_pairs(nodes, bytes, arguments, upto - 1) + swap_edit(
            nodes,
            bytes,
            arguments[upto - 1] as int,
            arguments[upto] as int,
        )
    }
}

/// The arguments of the node at `at`: the children, but for punctuation,
/// of its child under the field `field`.
pub open spec fn arguments_of(nodes: Seq<SyntaxNode>, at: int, field: Seq<char>) -> Seq<usize> {
    match crate::engine::tree::child_with_field(nodes, at, field) {
        Some(list) => arguments_upto(
            nodes,
            children_of(nodes, list as int),
            children_of(nodes, list as int).len() as int,
        ),
        None => Seq::empty(),
    }
}

/// What `swap_args` proposes at the node at `at`.
pub open spec fn swap_args_at(
    nodes: Seq<SyntaxNode>,
    bytes: Seq<u8>,
    kinds: Seq<&str>,
    field: Seq<char>,
    at: int,
) -> Seq<PartialMutantView> {
    if listed(kinds, nodes[at].kind@) && !in_comment(nodes, at) {
        swap_pairs(
            nodes,
            bytes,
            arguments_of(nodes, at, field),
            arguments_of(nodes, at, field).len() - 1,
        )
    } else {
        Seq::empty()
    }
}

/// `swap_args` as a pattern.
pub open spec fn swap_args_rule(
    nodes: Seq<SyntaxNode>,
    bytes: Seq<u8>,
    kinds: Seq<&str>,
    field: Seq<char>,
) -> PerNode {
    |at: int| swap_args_at(nodes, bytes, kinds, field, at)
}

/// What `swap_args` proposes: for each node of one of the `kinds`
/// outside of comments, and each two neighbours among its arguments,
/// the two swapped.
pub open spec fn swap_args_edits(
    nodes: Seq<SyntaxNode>,
    bytes: Seq<u8>,
    kinds: Seq<&str>,
    field: Seq<char>,
) -> Seq<PartialMutantView> {
    gather(swap_args_rule(nodes, bytes, kinds, field), nodes.len() as int)
}

/// Whether the nodes are children of the node at `list`, in rising order.
pub open spec fn rising_children(nodes: Seq<SyntaxNode>, list: int, among: Seq<usize>) -> bool {
    &&& forall|i: int|
        0 <= i < among.len() ==> list < (#[trigger] among[i]) < nodes.len() && nodes[among[i] as int].parent
            == list
    &&& forall|i: int, j: int| 0 <= i < j < among.len() ==> (#[trigger] among[i]) < (#[trigger] among[j])
}

/// The arguments among rising children are rising children.
pub proof fn lemma_arguments_rising(
    nodes: Seq<SyntaxNode>,
    list: int,
    children: Seq<usize>,
    upto: int,
)
    requires
        rising_children(nodes, list, children),
        upto <= children.len(),
    ensures
        rising_children(nodes, list, arguments_upto(nodes, children, upto)),
        forall|i: int|
            0 <= i < arguments_upto(nodes, children, upto).len() ==> upto > 0 && (
            #[trigger] arguments_upto(nodes, children, upto)[i]) <= children[upto - 1],
    decreases upto,
{
    if upto > 0 {
        lemma_arguments_rising(nodes, list, children, upto - 1);
        let rest = arguments_upto(nodes, children, upto - 1);
        let all = arguments_upto(nodes, children, upto);
        assert forall|i: int| 0 <= i < all.len() implies (#[trigger] all[i]) <= children[upto - 1] by {
            if i < rest.len() {
                assert(all[i] == rest[i]);
                assert(rest[i] <= children[upto - 2]);
            }
        }
        assert forall|i: int, j: int| 0 <= i < j < all.len() implies (#[trigger] all[i]) < (
        #[trigger] all[j]) by {
            if j < rest.len() {
                assert(all[i] == rest[i] && all[j] == rest[j]);
            } else {
                assert(all[i] == rest[i]);
                assert(rest[i] <= children[upto - 2]);
            }
        }
        assert forall|i: int| 0 <= i < all.len() implies list < (#[trigger] all[i]) < nodes.len()
            && nodes[all[i] as int].parent == list by {
            if i < rest.len() {
                assert(all[i] == rest[i]);
            }
        }
    }
}

/// Two children of a node, in document order, span from the start of the
/// first to the end of the second a part of what their parent spans.
pub proof fn lemma_siblings_span(nodes: Seq<SyntaxNode>, list: int, first: int, second: int)
    requires
        well_formed(nodes),
        0 <= list < first < second < nodes.len(),
        nodes[first].parent == list,
        nodes[second].parent == list,
    ensures
        nodes[list].start_byte <= nodes[first].start_byte <= nodes[second].end_byte
            <= nodes[list].end_byte,
{
    assert(hangs(nodes, first));
    assert(hangs(nodes, second));
    assert(apart(nodes, first, second));
    if is_ancestor(nodes, first, second) {
        lemma_ancestor_encloses(nodes, first, second);
    }
}

/// The swaps among the arguments of a list that is a child of a node
/// outside of comments are well placed in that node.
pub proof fn lemma_swap_pairs_placed(
    nodes: Seq<SyntaxNode>,
    bytes: Seq<u8>,
    arguments: Seq<usize>,
    upto: int,
    list: int,
    host: int,
)
    requires
        well_formed(nodes),
        spans_within(nodes, bytes),
        0 <= host < list < nodes.len(),
        nodes[list].parent == host,
        !in_comment(nodes, host),
        rising_children(nodes, list, arguments),
        upto < arguments.len(),
    ensures
        all_within(nodes, bytes, swap_pairs(nodes, bytes, arguments, upto), host),
    decreases upto,
{
    if upto > 0 {
        lemma_swap_pairs_placed(nodes, bytes, arguments, upto - 1, list, host);
        let first = arguments[upto - 1] as int;
        let second = arguments[upto] as int;
        lemma_siblings_span(nodes, list, first, second);
        assert(hangs(nodes, list));
        lemma_emit_placed(
            nodes,
            bytes,
            nodes[first].start_byte as int,
            nodes[second].end_byte as int,
            node_bytes(nodes, bytes, second) + bytes_of(", "@) + node_bytes(nodes, bytes, first),
            host,
        );
        lemma_all_within_concat(
            nodes,
            bytes,
            swap_pairs(nodes, bytes, arguments, upto - 1),
            swap_edit(nodes, bytes, first, second),
            host,
        );
    }
}

/// `swap_args` keeps within its nodes.
pub proof fn lemma_swap_args_rule(
    nodes: Seq<SyntaxNode>,
    bytes: Seq<u8>,
    kinds: Seq<&str>,
    field: Seq<char>,
)
    requires
        well_formed(nodes),
        nodes.len() <= usize::MAX,
        spans_within(nodes, bytes),
    ensures
        keeps_within(nodes, bytes, swap_args_rule(nodes, bytes, kinds, field)),
{
    let rule = swap_args_rule(nodes, bytes, kinds, field);
    assert forall|at: int, i: int| 0 <= at < nodes.len() && 0 <= i < rule(at).len() implies well_placed(
        nodes,
        bytes,
        #[trigger] rule(at)[i],
        at,
    ) by {
        let children = children_of(nodes, at);
        crate::engine::tree::lemma_children_before(nodes, at, nodes.len() as int);
        lemma_first_with_field(nodes, children, field, 0);
        let list = crate::engine::tree::child_with_field(nodes, at, field)->0 as int;
        assert(children.contains(list as usize));
        let inner = children_of(nodes, list);
        crate::engine::tree::lemma_children_before(nodes, list, nodes.len() as int);
        lemma_arguments_rising(nodes, list, inner, inner.len() as int);
        let arguments = arguments_of(nodes, at, field);
        lemma_swap_pairs_placed(nodes, bytes, arguments, arguments.len() - 1, list, at);
    }
}

/// Swaps each two neighbours among the arguments of the nodes of the
/// `node_kinds`.
pub fn swap_args(tree: &SyntaxTree, source: &str, node_kinds: &[&str], args_field_name: &str) -> (r:
    Vec<PartialMutant>)
    requires
        tree.wf(),
        tree.fits(bytes_of(source@)),
    ensures
        views(r@) == swap_args_edits(tree@, bytes_of(source@), node_kinds@, args_field_name@),
        all_placed(tree@, bytes_of(source@), views(r@)),
{
    let ghost bytes = bytes_of(source@);
    let ghost rule = swap_args_rule(tree@, bytes, node_kinds@, args_field_name@);
    let mut out: Vec<PartialMutant> = Vec::new();
    let count: usize = tree.len();
    let mut at: usize = 0;
    assert(views(out@) =~= gather(rule, 0));
    while at < count
        invariant
            tree.wf(),
            tree.fits(bytes),
            bytes == bytes_of(source@),
            count == tree@.len(),
            0 <= at <= count,
            rule == swap_args_rule(tree@, bytes, node_kinds@, args_field_name@),
            views(out@) == gather(rule, at as int),
        decreases count - at,
    {
        let ghost before = views(out@);
        let mut list: Option<usize> = None;
        if is_listed(node_kinds, tree.node(at).kind.as_str()) && !is_in_comment(tree, at) {
            list = tree.child_by_field_name(at, args_field_name);
        }
        match list {
            Some(list) => {
                let arguments = collect_arguments(tree, list);
                push_swap_pairs(&mut out, tree, source, &arguments, Ghost(list as int));
            },
            None => {},
        }
        assert(views(out@) =~= before + rule(at as int));
        at += 1;
    }
    proof {
        lemma_fits_within(tree, bytes);
        lemma_swap_args_rule(tree@, bytes, node_kinds@, args_field_name@);
        lemma_gather_placed(tree@, bytes, rule, count as int);
    }
    out
}

/// The children of the node at `list` that are no punctuation.
fn collect_arguments(tree: &SyntaxTree, list: usize) -> (r: Vec<usize>)
    requires
        tree.wf(),
        list < tree@.len(),
    ensures
        r@ == arguments_upto(
            tree@,
            children_of(tree@, list as int),
            children_of(tree@, list as int).len() as int,
        ),
        rising_children(tree@, list as int, r@),
{
    let children = tree.children(list);
    let mut arguments: Vec<usize> = Vec::new();
    let mut k: usize = 0;
    while k < children.len()
        invariant
            0 <= k <= children@.len(),
            children@ == children_of(tree@, list as int),
            rising_children(tree@, list as int, children@),
            arguments@ == arguments_upto(tree@, children@, k as int),
        decreases children@.len() - k,
    {
        let child: usize = children[k];
        if !is_punctuation_kind(tree.node(child).kind.as_str()) {
            arguments.push(child);
        }
        k += 1;
    }
    proof {
        lemma_arguments_rising(tree@, list as int, children@, children@.len() as int);
    }
    arguments
}

/// Adds to `out` the swaps of the neighbours among `arguments`, children
/// of the node at `list`.
fn push_swap_pairs(
    out: &mut Vec<PartialMutant>,
    tree: &SyntaxTree,
    source: &str,
    arguments: &Vec<usize>,
    Ghost(list): Ghost<int>,
)
    requires
        tree.wf(),
        tree.fits(bytes_of(source@)),
        0 <= list < tree@.len(),
        rising_children(tree@, list, arguments@),
    ensures
        views(final(out)@) == views(old(out)@) + swap_pairs(
            tree@,
            bytes_of(source@),
            arguments@,
            arguments@.len() - 1,
        ),
{
    let ghost bytes = bytes_of(source@);
    if arguments.len() < 2 {
        assert(views(out@) =~= views(old(out)@) + swap_pairs(
            tree@,
            bytes,
            arguments@,
            arguments@.len() - 1,
        ));
        return ;
    }
    let mut i: usize = 0;
    assert(views(out@) =~= views(old(out)@) + swap_pairs(tree@, bytes, arguments@, 0));
    while i < arguments.len() - 1
        invariant
            tree.wf(),
            tree.fits(bytes),
            bytes == bytes_of(source@),
            0 <= list < tree@.len(),
            rising_children(tree@, list, arguments@),
            arguments@.len() >= 2,
            0 <= i <= arguments@.len() - 1,
            views(out@) == views(old(out)@) + swap_pairs(tree@, bytes, arguments@, i as int),
        decreases arguments@.len() - 1 - i,
    {
        let first: usize = arguments[i];
        let second: usize = arguments[i + 1];
        proof {
            lemma_siblings_span(tree@, list, first as int, second as int);
            assert(char_span(
                bytes,
                tree@[first as int].start_byte as int,
                tree@[first as int].end_byte as int,
            ));
            assert(char_span(
                bytes,
                tree@[second as int].start_byte as int,
                tree@[second as int].end_byte as int,
            ));
        }
        let first_text = node_text(tree, first, source);
        let second_text = node_text(tree, second, source);
        let swapped = concat3(second_text, ", ", first_text);
        push_edit(
            out,
            source,
            tree.node(first).start_byte,
            tree.node(second).end_byte,
            swapped,
        );
        assert(views(out@) =~= views(old(out)@) + swap_pairs(tree@, bytes, arguments@, i + 1));
        i += 1;
    }
}

/// The first of the nodes `among`, from place `from` on, whose kind is
/// one of the `kinds` or is `name`.
pub open spec fn first_of_kind(
    nodes: Seq<SyntaxNode>,
    among: Seq<usize>,
    kinds: Seq<&str>,
    name: Seq<char>,
    from: int,
) -> Option<usize>
    decreases among.len() - from,
{
    if from < 0 || from >= among.len() {
        None
    } else if listed(kinds, nodes[among[from] as int].kind@) || nodes[among[from] as int].kind@
        == name {
        Some(among[from])
    } else {
        first_of_kind(nodes, among, kinds, name, from + 1)
    }
}

/// The first of the nodes `among`, from place `from` on, that is no
/// punctuation.
pub open spec fn first_argument(nodes: Seq<SyntaxNode>, among: Seq<usize>, from: int) -> Option<usize>
    decreases among.len() - from,
{
    if from < 0 || from >= among.len() {
        None
    } else if !is_punctuation(nodes[among[from] as int].kind@) {
        Some(among[from])
    } else {
        first_argument(nodes, among, from + 1)
    }
}

/// The node that holds the arguments of the call at `at`: its child under
/// the field `field`, or else its first child whose kind is one of
/// `alt_kinds` or the name of the field.
pub open spec fn arguments_node(
    nodes: Seq<SyntaxNode>,
    at: int,
    field: Seq<char>,
    alt_kinds: Seq<&str>,
) -> Option<usize> {
    match crate::engine::tree::child_with_field(nodes, at, field) {
        Some(list) => Some(list),
        None => first_of_kind(nodes, children_of(nodes, at), alt_kinds, field, 0),
    }
}

/// The first argument of the call at `at`, if the filter lets its callee
/// through: the first child, but for punctuation, of the node that holds
/// the arguments.
pub open spec fn first_arg_of<F: NodeFilter>(
    nodes: Seq<SyntaxNode>,
    bytes: Seq<u8>,
    field: Seq<char>,
    alt_kinds: Seq<&str>,
    callee_matches: F,
    at: int,
) -> Option<usize> {
    let children = children_of(nodes, at);
    if children.len() > 0 && callee_matches.keeps(
        nodes[children[0] as int].kind@,
        node_bytes(nodes, bytes, children[0] as int),
    ) {
        match arguments_node(nodes, at, field, alt_kinds) {
            Some(list) => first_argument(nodes, children_of(nodes, list as int), 0),
            None => None,
        }
    } else {
        None
    }
}

/// What `replace_first_arg` proposes at the node at `at`.
pub open spec fn replace_first_arg_at<F: NodeFilter>(
    nodes: Seq<SyntaxNode>,
    bytes: Seq<u8>,
    call_kinds: Seq<&str>,
    field: Seq<char>,
    alt_kinds: Seq<&str>,
    callee_matches: F,
    replacement: Seq<u8>,
    at: int,
) -> Seq<PartialMutantView> {
    if listed(call_kinds, nodes[at].kind@) && !in_comment(nodes, at) {
        match first_arg_of(nodes, bytes, field, alt_kinds, callee_matches, at) {
            Some(argument) => node_edit(nodes, bytes, argument as int, replacement),
            None => Seq::empty(),
        }
    } else {
        Seq::empty()
    }
}

/// `replace_first_arg` as a pattern.
pub open spec fn replace_first_arg_rule<F: NodeFilter>(
    nodes: Seq<SyntaxNode>,
    bytes: Seq<u8>,
    call_kinds: Seq<&str>,
    field: Seq<char>,
    alt_kinds: Seq<&str>,
    callee_matches: F,
    replacement: Seq<u8>,
) -> PerNode {
    |at: int|
        replace_first_arg_at(
            nodes,
            bytes,
            call_kinds,
            field,
            alt_kinds,
            callee_matches,
            replacement,
            at,
        )
}

/// What `replace_first_arg` proposes: for each call of one of the
/// `call_kinds` outside of comments whose callee the filter lets through,
/// `replacement` in place of its first argument.
pub open spec fn replace_first_arg_edits<F: NodeFilter>(
    nodes: Seq<SyntaxNode>,
    bytes: Seq<u8>,
    call_kinds: Seq<&str>,
    field: Seq<char>,
    alt_kinds: Seq<&str>,
    callee_matches: F,
    replacement: Seq<u8>,
) -> Seq<PartialMutantView> {
    gather(
        replace_first_arg_rule(
            nodes,
            bytes,
            call_kinds,
            field,
            alt_kinds,
            callee_matches,
            replacement,
        ),
        nodes.len() as int,
    )
}

/// What `first_of_kind` finds is one of the nodes it looks at.
pub proof fn lemma_first_of_kind(
    nodes: Seq<SyntaxNode>,
    among: Seq<usize>,
    kinds: Seq<&str>,
    name: Seq<char>,
    from: int,
)
    requires
        0 <= from,
    ensures
        first_of_kind(nodes, among, kinds, name, from) matches Some(found) ==> among.contains(
            found,
        ),
    decreases among.len() - from,
{
    if from < among.len() {
        lemma_first_of_kind(nodes, among, kinds, name, from + 1);
    }
}

/// What `first_argument` finds is one of the nodes it looks at.
pub proof fn lemma_first_argument(nodes: Seq<SyntaxNode>, among: Seq<usize>, from: int)
    requires
        0 <= from,
    ensures
        first_argument(nodes, among, from) matches Some(found) ==> among.contains(found),
    decreases among.len() - from,
{
    if from < among.len() {
        lemma_first_argument(nodes, among, from + 1);
    }
}

/// `replace_first_arg` keeps within its nodes.
pub proof fn lemma_replace_first_arg_rule<F: NodeFilter>(
    nodes: Seq<SyntaxNode>,
    bytes: Seq<u8>,
    call_kinds: Seq<&str>,
    field: Seq<char>,
    alt_kinds: Seq<&str>,
    callee_matches: F,
    replacement: Seq<u8>,
)
    requires
        well_formed(nodes),
        nodes.len() <= usize::MAX,
        spans_within(nodes, bytes),
    ensures
        keeps_within(
            nodes,
            bytes,
            replace_first_arg_rule(
                nodes,
                bytes,
                call_kinds,
                field,
                alt_kinds,
                callee_matches,
                replacement,
            ),
        ),
{
    let rule = replace_first_arg_rule(
        nodes,
        bytes,
        call_kinds,
        field,
        alt_kinds,
        callee_matches,
        replacement,
    );
    assert forall|at: int, i: int| 0 <= at < nodes.len() && 0 <= i < rule(at).len() implies well_placed(
        nodes,
        bytes,
        #[trigger] rule(at)[i],
        at,
    ) by {
        let children = children_of(nodes, at);
        crate::engine::tree::lemma_children_before(nodes, at, nodes.len() as int);
        lemma_first_with_field(nodes, children, field, 0);
        lemma_first_of_kind(nodes, children, alt_kinds, field, 0);
        let list = arguments_node(nodes, at, field, alt_kinds)->0 as int;
        assert(children.contains(list as usize));
        let inner = children_of(nodes, list);
        crate::engine::tree::lemma_children_before(nodes, list, nodes.len() as int);
        lemma_first_argument(nodes, inner, 0);
        let argument = first_arg_of(nodes, bytes, field, alt_kinds, callee_matches, at)->0 as int;
        assert(inner.contains(argument as usize));
        assert(hangs(nodes, list));
        assert(hangs(nodes, argument));
        lemma_emit_placed(
            nodes,
            bytes,
            nodes[argument].start_byte as int,
            nodes[argument].end_byte as int,
            replacement,
            at,
        );
    }
}

/// The first argument of the call at `at`, if the filter lets its callee
/// through.
fn find_first_arg<F: NodeFilter>(
    tree: &SyntaxTree,
    source: &str,
    at: usize,
    args_field_name: &str,
    alt_args_kinds: &[&str],
    callee_matches: &F,
) -> (r: Option<usize>)
    requires
        tree.wf(),
        tree.fits(bytes_of(source@)),
        at < tree@.len(),
    ensures
        r == first_arg_of(
            tree@,
            bytes_of(source@),
            args_field_name@,
            alt_args_kinds@,
            *callee_matches,
            at as int,
        ),
        r matches Some(argument) ==> argument < tree@.len(),
{
    let children = tree.children(at);
    if children.len() == 0 {
        return None;
    }
    let callee: usize = children[0];
    if !callee_matches.test(tree.node(callee).kind.as_str(), node_text(tree, callee, source)) {
        return None;
    }
    let list: Option<usize> = match tree.child_by_field_name(at, args_field_name) {
        Some(list) => Some(list),
        None => find_of_kind(tree, &children, alt_args_kinds, args_field_name),
    };
    match list {
        None => None,
        Some(list) => {
            let inner = tree.children(list);
            find_argument(tree, &inner)
        },
    }
}

/// The first of the nodes `among` whose kind is one of the `kinds` or is
/// `name`.
fn find_of_kind(tree: &SyntaxTree, among: &Vec<usize>, kinds: &[&str], name: &str) -> (r: Option<
    usize,
>)
    requires
        forall|i: int| 0 <= i < among@.len() ==> (#[trigger] among@[i]) < tree@.len(),
    ensures
        r == first_of_kind(tree@, among@, kinds@, name@, 0),
        r matches Some(found) ==> found < tree@.len(),
{
    let mut k: usize = 0;
    while k < among.len()
        invariant
            0 <= k <= among@.len(),
            forall|i: int| 0 <= i < among@.len() ==> (#[trigger] among@[i]) < tree@.len(),
            first_of_kind(tree@, among@, kinds@, name@, 0) == first_of_kind(
                tree@,
                among@,
                kinds@,
                name@,
                k as int,
            ),
        decreases among@.len() - k,
    {
        let kind = tree.node(among[k]).kind.as_str();
        if is_listed(kinds, kind) || str_eq(kind, name) {
            return Some(among[k]);
        }
        k += 1;
    }
    None
}

/// The first of the nodes `among` that is no punctuation.
fn find_argument(tree: &SyntaxTree, among: &Vec<usize>) -> (r: Option<usize>)
    requires
        forall|i: int| 0 <= i < among@.len() ==> (#[trigger] among@[i]) < tree@.len(),
    ensures
        r == first_argument(tree@, among@, 0),
        r matches Some(found) ==> found < tree@.len(),
{
    let mut k: usize = 0;
    while k < among.len()
        invariant
            0 <= k <= among@.len(),
            forall|i: int| 0 <= i < among@.len() ==> (#[trigger] among@[i]) < tree@.len(),
            first_argument(tree@, among@, 0) == first_argument(tree@, among@, k as int),
        decreases among@.len() - k,
    {
        if !is_punctuation_kind(tree.node(among[k]).kind.as_str()) {
            return Some(among[k]);
        }
        k += 1;
    }
    None
}

/// Replaces the first argument of each call of one of the
/// `call_node_kinds` whose callee `callee_matches` lets through by
/// `replacement`.
pub fn replace_first_arg<F: NodeFilter>(
    tree: &SyntaxTree,
    source: &str,
    call_node_kinds: &[&str],
    args_field_name: &str,
    alt_args_kinds: &[&str],
    callee_matches: &F,
    replacement: &str,
) -> (r: Vec<PartialMutant>)
    requires
        tree.wf(),
        tree.fits(bytes_of(source@)),
    ensures
        views(r@) == replace_first_arg_edits(
            tree@,
            bytes_of(source@),
            call_node_kinds@,
            args_field_name@,
            alt_args_kinds@,
            *callee_matches,
            bytes_of(replacement@),
        ),
        all_placed(tree@, bytes_of(source@), views(r@)),
{
    let ghost bytes = bytes_of(source@);
    let ghost rule = replace_first_arg_rule(
        tree@,
        bytes,
        call_node_kinds@,
        args_field_name@,
        alt_args_kinds@,
        *callee_matches,
        bytes_of(replacement@),
    );
    let mut out: Vec<PartialMutant> = Vec::new();
    let count: usize = tree.len();
    let mut at: usize = 0;
    assert(views(out@) =~= gather(rule, 0));
    while at < count
        invariant
            tree.wf(),
            tree.fits(bytes),
            bytes == bytes_of(source@),
            count == tree@.len(),
            0 <= at <= count,
            rule == replace_first_arg_rule(
                tree@,
                bytes,
                call_node_kinds@,
                args_field_name@,
                alt_args_kinds@,
                *callee_matches,
                bytes_of(replacement@),
            ),
            views(out@) == gather(rule, at as int),
        decreases count - at,
    {
        let ghost before = views(out@);
        let mut argument: Option<usize> = None;
        if is_listed(call_node_kinds, tree.node(at).kind.as_str()) && !is_in_comment(tree, at) {
            argument = find_first_arg(
                tree,
                source,
                at,
                args_field_name,
                alt_args_kinds,
                callee_matches,
            );
        }
        match argument {
            Some(argument) => {
                let node = tree.node(argument);
                push_edit(&mut out, source, node.start_byte, node.end_byte, replacement.to_string());
            },
            None => {},
        }
        assert(views(out@) =~= before + rule(at as int));
        at += 1;
    }
    proof {
        lemma_fits_within(tree, bytes);
        lemma_replace_first_arg_rule(
            tree@,
            bytes,
            call_node_kinds@,
            args_field_name@,
            alt_args_kinds@,
            *callee_matches,
            bytes_of(replacement@),
        );
        lemma_gather_placed(tree@, bytes, rule, count as int);
    }
    out
}

/// A node outside of comments and a comment either lie apart, or the
/// comment lies inside the node, as one of its descendants. So an edit
/// that is well placed in a node touches no comment but such as the node
/// holds.
pub proof fn lemma_edit_spares_comments(
    nodes: Seq<SyntaxNode>,
    bytes: Seq<u8>,
    edit: PartialMutantView,
    host: int,
    comment: int,
)
    requires
        well_formed(nodes),
        well_placed(nodes, bytes, edit, host),
        0 <= comment < nodes.len(),
        is_comment(nodes, comment),
        !is_ancestor(nodes, host, comment),
    ensures
        edit.end() <= nodes[comment].start_byte || nodes[comment].end_byte <= edit.byte_offset,
{
    crate::engine::utils::lemma_outside_comments(nodes, host, comment);
    if comment < host {
        assert(apart(nodes, comment, host));
    } else {
        assert(apart(nodes, host, comment));
    }
}

} // verus!
