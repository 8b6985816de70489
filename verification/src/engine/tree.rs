//! Concrete syntax trees as plain values: the nodes in document order,
//! each with its kind, byte span, depth and parent.

use crate::text::{bytes_of, char_span, str_eq};
use vstd::prelude::*;
use vstd::string::*;

verus! {

/// What a parser reports of one node. The records of a tree come in
/// document order: a node, then its children with their descendants.
#[derive(Debug, Clone)]
pub struct NodeRecord {
    pub kind: String,
    pub start_byte: usize,
    pub end_byte: usize,
    /// The number of ancestors.
    pub depth: usize,
    /// The field name under which the parent holds the node, if any.
    pub field: Option<String>,
    pub named: bool,
    pub missing: bool,
    pub error: bool,
}

impl NodeRecord {
    /// Whether the record says what another says.
    pub open spec fn says(self, other: NodeRecord) -> bool {
        &&& self.kind@ == other.kind@
        &&& self.start_byte == other.start_byte
        &&& self.end_byte == other.end_byte
        &&& self.depth == other.depth
        &&& self.named == other.named
        &&& self.missing == other.missing
        &&& self.error == other.error
        &&& match (self.field, other.field) {
            (Some(a), Some(b)) => a@ == b@,
            (None, None) => true,
            _ => false,
        }
    }
}

/// A node of a syntax tree.
#[derive(Debug, Clone)]
pub struct SyntaxNode {
    pub kind: String,
    pub start_byte: usize,
    pub end_byte: usize,
    pub depth: usize,
    /// The position of the parent; the root names itself.
    pub parent: usize,
    pub field: Option<String>,
    pub named: bool,
    pub missing: bool,
    pub error: bool,
}

impl SyntaxNode {
    /// Whether the node says what the record says.
    pub open spec fn tells(self, record: NodeRecord) -> bool {
        &&& self.kind@ == record.kind@
        &&& self.start_byte == record.start_byte
        &&& self.end_byte == record.end_byte
        &&& self.depth == record.depth
        &&& self.named == record.named
        &&& self.missing == record.missing
        &&& self.error == record.error
        &&& match (self.field, record.field) {
            (Some(a), Some(b)) => a@ == b@,
            (None, None) => true,
            _ => false,
        }
    }
}

/// Whether `upper` is a proper ancestor of `lower`.
pub open spec fn is_ancestor(nodes: Seq<SyntaxNode>, upper: int, lower: int) -> bool
    decreases lower,
{
    if 0 < lower < nodes.len() && 0 <= nodes[lower].parent < lower {
        nodes[lower].parent == upper || is_ancestor(nodes, upper, nodes[lower].parent as int)
    } else {
        false
    }
}

/// Whether the node at `at` hangs from its parent as a tree asks: the
/// parent stands before it, one level higher, and spans it.
pub open spec fn hangs(nodes: Seq<SyntaxNode>, at: int) -> bool {
    let parent = nodes[at].parent as int;
    &&& nodes[at].start_byte <= nodes[at].end_byte
    &&& if at == 0 {
        nodes[at].depth == 0 && parent == 0
    } else {
        &&& parent < at
        &&& nodes[at].depth == nodes[parent].depth + 1
        &&& nodes[parent].start_byte <= nodes[at].start_byte
        &&& nodes[at].end_byte <= nodes[parent].end_byte
    }
}

/// Whether the node at `between`, which stands between the node at `at`
/// and that node's parent, is at least as deep as the node at `at`.
pub open spec fn no_shallower(nodes: Seq<SyntaxNode>, at: int, between: int) -> bool {
    nodes[at].parent < between < at ==> nodes[between].depth >= nodes[at].depth
}

/// Whether the earlier node is an ancestor of the later one, or ends
/// before the later one starts.
pub open spec fn apart(nodes: Seq<SyntaxNode>, earlier: int, later: int) -> bool {
    is_ancestor(nodes, earlier, later) || nodes[earlier].end_byte <= nodes[later].start_byte
}

/// What makes a sequence of nodes a tree in document order.
pub open spec fn well_formed(nodes: Seq<SyntaxNode>) -> bool {
    &&& forall|at: int| 0 <= at < nodes.len() ==> #[trigger] hangs(nodes, at)
    &&& forall|at: int, between: int|
        0 <= between < at < nodes.len() ==> #[trigger] no_shallower(nodes, at, between)
    &&& forall|earlier: int, later: int|
        0 <= earlier < later < nodes.len() ==> #[trigger] apart(nodes, earlier, later)
}

/// Whether, going by depths alone, the record at `upper` is a proper
/// ancestor of the one at `lower`: every record after `upper`, up to and
/// with `lower`, is deeper than `upper`.
pub open spec fn encloses_by_depth(records: Seq<NodeRecord>, upper: int, lower: int) -> bool {
    &&& 0 <= upper < lower < records.len()
    &&& forall|k: int| upper < k <= lower ==> (#[trigger] records[k]).depth > records[upper].depth
}

/// Whether two records lie as the nodes of a tree do: the later within
/// the earlier where the earlier is its ancestor, and after it otherwise.
pub open spec fn records_apart(records: Seq<NodeRecord>, earlier: int, later: int) -> bool {
    if encloses_by_depth(records, earlier, later) {
        records[earlier].start_byte <= records[later].start_byte && records[later].end_byte
            <= records[earlier].end_byte
    } else {
        records[earlier].end_byte <= records[later].start_byte
    }
}

/// Whether the records are the nodes of a tree in document order: the
/// first is the root, each later one is at most one level deeper than the
/// one before it, a node lies within each of its ancestors, and a node
/// that is no ancestor of a later one ends before that one starts.
pub open spec fn records_form_tree(records: Seq<NodeRecord>) -> bool {
    &&& records.len() > 0
    &&& records[0].depth == 0
    &&& forall|j: int|
        0 <= j < records.len() ==> (#[trigger] records[j]).start_byte <= records[j].end_byte
    &&& forall|j: int|
        0 < j < records.len() ==> 1 <= (#[trigger] records[j]).depth <= records[j - 1].depth + 1
    &&& forall|earlier: int, later: int|
        0 <= earlier < later < records.len() ==> #[trigger] records_apart(records, earlier, later)
}

/// Whether each node says what the record at its place says.
pub open spec fn tell(nodes: Seq<SyntaxNode>, records: Seq<NodeRecord>) -> bool {
    &&& nodes.len() <= records.len()
    &&& forall|i: int| 0 <= i < nodes.len() ==> (#[trigger] nodes[i]).tells(records[i])
}

/// An ancestor stands before its descendant.
pub proof fn lemma_ancestor_before(nodes: Seq<SyntaxNode>, upper: int, lower: int)
    requires
        is_ancestor(nodes, upper, lower),
    ensures
        0 <= upper < lower < nodes.len(),
        upper <= nodes[lower].parent < lower,
    decreases lower,
{
    if nodes[lower].parent != upper {
        lemma_ancestor_before(nodes, upper, nodes[lower].parent as int);
    }
}

/// A descendant lies within the span of its ancestor, and deeper.
pub proof fn lemma_ancestor_encloses(nodes: Seq<SyntaxNode>, upper: int, lower: int)
    requires
        well_formed(nodes),
        is_ancestor(nodes, upper, lower),
    ensures
        nodes[upper].start_byte <= nodes[lower].start_byte,
        nodes[lower].end_byte <= nodes[upper].end_byte,
        nodes[upper].depth < nodes[lower].depth,
    decreases lower,
{
    lemma_ancestor_before(nodes, upper, lower);
    assert(hangs(nodes, lower));
    if nodes[lower].parent != upper {
        lemma_ancestor_encloses(nodes, upper, nodes[lower].parent as int);
    }
}

/// Ancestry among the first nodes does not depend on later ones.
pub proof fn lemma_ancestor_of_prefix(
    nodes: Seq<SyntaxNode>,
    longer: Seq<SyntaxNode>,
    upper: int,
    lower: int,
)
    requires
        nodes.len() <= longer.len(),
        forall|i: int| 0 <= i < nodes.len() ==> nodes[i] == longer[i],
        0 <= lower < nodes.len(),
    ensures
        is_ancestor(nodes, upper, lower) == is_ancestor(longer, upper, lower),
    decreases lower,
{
    if 0 < lower && 0 <= nodes[lower].parent < lower {
        if nodes[lower].parent != upper {
            lemma_ancestor_of_prefix(nodes, longer, upper, nodes[lower].parent as int);
        }
    }
}

/// In a tree, an ancestor by parents is one by depths.
pub proof fn lemma_ancestor_is_shallower(nodes: Seq<SyntaxNode>, upper: int, lower: int)
    requires
        well_formed(nodes),
        is_ancestor(nodes, upper, lower),
    ensures
        forall|k: int| upper < k <= lower ==> (#[trigger] nodes[k]).depth > nodes[upper].depth,
    decreases lower,
{
    lemma_ancestor_before(nodes, upper, lower);
    let parent = nodes[lower].parent as int;
    assert(hangs(nodes, lower));
    if parent != upper {
        lemma_ancestor_is_shallower(nodes, upper, parent);
    }
    assert forall|k: int| upper < k <= lower implies (#[trigger] nodes[k]).depth
        > nodes[upper].depth by {
        if k > parent && k < lower {
            assert(no_shallower(nodes, lower, k));
        }
    }
}

/// In a tree, an ancestor by depths is one by parents.
pub proof fn lemma_shallower_is_ancestor(nodes: Seq<SyntaxNode>, upper: int, lower: int)
    requires
        well_formed(nodes),
        0 <= upper < lower < nodes.len(),
        forall|k: int| upper < k <= lower ==> (#[trigger] nodes[k]).depth > nodes[upper].depth,
    ensures
        is_ancestor(nodes, upper, lower),
    decreases lower,
{
    let parent = nodes[lower].parent as int;
    assert(hangs(nodes, lower));
    assert(nodes[lower].depth > nodes[upper].depth);
    if parent < upper {
        assert(no_shallower(nodes, lower, upper));
    } else if parent > upper {
        lemma_shallower_is_ancestor(nodes, upper, parent);
    }
}

/// A tree stays one when a node is added that is a child of one of the
/// nodes on the way from the last node to the root, and that starts after
/// all that stands between that parent and itself has ended.
pub proof fn lemma_push_keeps_tree(before: Seq<SyntaxNode>, node: SyntaxNode)
    requires
        well_formed(before),
        node.start_byte <= node.end_byte,
        before.len() == 0 ==> node.depth == 0 && node.parent == 0,
        before.len() > 0 ==> {
            let parent = node.parent as int;
            &&& parent < before.len()
            &&& node.depth == before[parent].depth + 1
            &&& before[parent].start_byte <= node.start_byte
            &&& node.end_byte <= before[parent].end_byte
            &&& forall|k: int|
                parent < k < before.len() ==> (#[trigger] before[k]).depth >= node.depth
                    && before[k].end_byte <= node.start_byte
        },
    ensures
        well_formed(before.push(node)),
{
    let after = before.push(node);
    let j = before.len() as int;
    let parent = node.parent as int;
    assert forall|at: int| 0 <= at < after.len() implies #[trigger] hangs(after, at) by {
        if at < j {
            assert(hangs(before, at));
        }
    }
    assert forall|at: int, between: int| 0 <= between < at < after.len() implies #[trigger] no_shallower(
        after,
        at,
        between,
    ) by {
        if at < j {
            assert(no_shallower(before, at, between));
        }
    }
    assert forall|earlier: int, later: int| 0 <= earlier < later < after.len() implies #[trigger] apart(
        after,
        earlier,
        later,
    ) by {
        if later < j {
            assert(apart(before, earlier, later));
            lemma_ancestor_of_prefix(before, after, earlier, later);
        } else if earlier < parent {
            assert(apart(before, earlier, parent));
            lemma_ancestor_of_prefix(before, after, earlier, parent);
        } else if earlier > parent {
            assert(before[earlier].end_byte <= node.start_byte);
        }
    }
}

/// The records that a tree was made of form a tree.
pub proof fn lemma_tree_records(nodes: Seq<SyntaxNode>, records: Seq<NodeRecord>)
    requires
        nodes.len() == records.len(),
        nodes.len() > 0,
        well_formed(nodes),
        tell(nodes, records),
    ensures
        records_form_tree(records),
{
    assert(nodes[0].tells(records[0]));
    assert(hangs(nodes, 0));
    assert forall|j: int| 0 <= j < records.len() implies (#[trigger] records[j]).start_byte
        <= records[j].end_byte by {
        assert(nodes[j].tells(records[j]));
        assert(hangs(nodes, j));
    }
    assert forall|j: int| 0 < j < records.len() implies 1 <= (#[trigger] records[j]).depth
        <= records[j - 1].depth + 1 by {
        assert(nodes[j].tells(records[j]));
        assert(nodes[j - 1].tells(records[j - 1]));
        assert(hangs(nodes, j));
        assert(no_shallower(nodes, j, j - 1));
    }
    assert forall|earlier: int, later: int|
        0 <= earlier < later < records.len() implies #[trigger] records_apart(
        records,
        earlier,
        later,
    ) by {
        assert(nodes[earlier].tells(records[earlier]));
        assert(nodes[later].tells(records[later]));
        assert(apart(nodes, earlier, later));
        if encloses_by_depth(records, earlier, later) {
            assert forall|k: int| earlier < k <= later implies (#[trigger] nodes[k]).depth
                > nodes[earlier].depth by {
                assert(nodes[k].tells(records[k]));
                assert(records[k].depth > records[earlier].depth);
            }
            lemma_shallower_is_ancestor(nodes, earlier, later);
            lemma_ancestor_encloses(nodes, earlier, later);
        } else {
            if is_ancestor(nodes, earlier, later) {
                lemma_ancestor_is_shallower(nodes, earlier, later);
                assert forall|k: int| earlier < k <= later implies (#[trigger] records[k]).depth
                    > records[earlier].depth by {
                    assert(nodes[k].tells(records[k]));
                }
                assert(false);
            }
        }
    }
}

/// The children of the node at `at` that stand before `stop`, in
/// document order.
pub open spec fn children_before(nodes: Seq<SyntaxNode>, at: int, stop: int) -> Seq<usize>
    decreases stop,
{
    if stop <= at + 1 || stop > nodes.len() || at < 0 {
        Seq::empty()
    } else {
        let rest = children_before(nodes, at, stop - 1);
        if nodes[stop - 1].parent == at {
            rest.push((stop - 1) as usize)
        } else {
            rest
        }
    }
}

/// The children of the node at `at`, in document order.
pub open spec fn children_of(nodes: Seq<SyntaxNode>, at: int) -> Seq<usize> {
    children_before(nodes, at, nodes.len() as int)
}

/// What `children_before` holds: nodes after `at` and before `stop`
/// whose parent is `at`, in rising order.
pub proof fn lemma_children_before(nodes: Seq<SyntaxNode>, at: int, stop: int)
    requires
        0 <= at < nodes.len() <= usize::MAX,
        stop <= nodes.len(),
    ensures
        forall|i: int|
            0 <= i < children_before(nodes, at, stop).len() ==> at < (#[trigger] children_before(
                nodes,
                at,
                stop,
            )[i]) < stop && nodes[children_before(nodes, at, stop)[i] as int].parent == at,
        forall|i: int, j: int|
            0 <= i < j < children_before(nodes, at, stop).len() ==> (#[trigger] children_before(
                nodes,
                at,
                stop,
            )[i]) < (#[trigger] children_before(nodes, at, stop)[j]),
    decreases stop,
{
    if stop <= at + 1 {
    } else {
        lemma_children_before(nodes, at, stop - 1);
    }
}

/// Past a node that is no deeper than the one at `at`, the one at `at`
/// has no children.
pub proof fn lemma_children_end(nodes: Seq<SyntaxNode>, at: int, bound: int, stop: int)
    requires
        well_formed(nodes),
        0 <= at < bound <= stop <= nodes.len(),
        bound < nodes.len() ==> nodes[bound].depth <= nodes[at].depth,
    ensures
        children_before(nodes, at, stop) == children_before(nodes, at, bound),
    decreases stop,
{
    if stop > bound {
        lemma_children_end(nodes, at, bound, stop - 1);
        if nodes[stop - 1].parent == at {
            assert(hangs(nodes, stop - 1));
            if bound < stop - 1 {
                assert(no_shallower(nodes, stop - 1, bound));
            }
        }
    }
}

/// The first node of `among` from place `from` on whose field name is
/// `name`, if there is one.
pub open spec fn first_with_field(
    nodes: Seq<SyntaxNode>,
    among: Seq<usize>,
    name: Seq<char>,
    from: int,
) -> Option<usize>
    decreases among.len() - from,
{
    if from < 0 || from >= among.len() {
        None
    } else if nodes[among[from] as int].field matches Some(field) && field@ == name {
        Some(among[from])
    } else {
        first_with_field(nodes, among, name, from + 1)
    }
}

/// The first child of the node at `at` that its parent holds under the
/// field `name`.
pub open spec fn child_with_field(nodes: Seq<SyntaxNode>, at: int, name: Seq<char>) -> Option<
    usize,
> {
    first_with_field(nodes, children_of(nodes, at), name, 0)
}

/// A syntax tree: at least a root, the nodes in document order.
#[derive(Debug, Clone)]
pub struct SyntaxTree {
    nodes: Vec<SyntaxNode>,
}

impl View for SyntaxTree {
    type V = Seq<SyntaxNode>;

    closed spec fn view(&self) -> Seq<SyntaxNode> {
        self.nodes@
    }
}

impl SyntaxTree {
    /// The invariant of a tree: it has a root, and its nodes are
    /// `well_formed`.
    pub open spec fn wf(&self) -> bool {
        0 < self@.len() <= usize::MAX && well_formed(self@)
    }

    /// Whether every node spans whole characters of the text with these
    /// bytes, and byte offsets into the text fit in `u32`.
    pub open spec fn fits(&self, bytes: Seq<u8>) -> bool {
        &&& bytes.len() <= u32::MAX
        &&& forall|i: int|
            0 <= i < self@.len() ==> char_span(
                bytes,
                (#[trigger] self@[i]).start_byte as int,
                self@[i].end_byte as int,
            )
    }

    /// The number of nodes.
    pub fn len(&self) -> (r: usize)
        ensures
            r == self@.len(),
    {
        self.nodes.len()
    }

    /// The node at place `at` in document order.
    pub fn node(&self, at: usize) -> (r: &SyntaxNode)
        requires
            at < self@.len(),
        ensures
            *r == self@[at as int],
    {
        &self.nodes[at]
    }

    /// Whether the parser made up a node or gave up on one: whether the
    /// tree holds a syntax error.
    pub fn has_error(&self) -> (r: bool)
        ensures
            r == exists|i: int|
                0 <= i < self@.len() && ((#[trigger] self@[i]).error || self@[i].missing),
    {
        let mut at: usize = 0;
        while at < self.nodes.len()
            invariant
                0 <= at <= self@.len(),
                forall|i: int| 0 <= i < at ==> !((#[trigger] self@[i]).error || self@[i].missing),
            decreases self@.len() - at,
        {
            if self.nodes[at].error || self.nodes[at].missing {
                return true;
            }
            at += 1;
        }
        false
    }

    /// The number of children of the root.
    pub fn child_count(&self) -> (r: usize)
        requires
            self.wf(),
        ensures
            r == children_of(self@, 0).len(),
    {
        self.children(0).len()
    }

    /// Whether every node spans whole characters of `source`, and byte
    /// offsets into `source` fit in `u32`.
    pub fn fits_source(&self, source: &str) -> (r: bool)
        ensures
            r == self.fits(bytes_of(source@)),
    {
        let length: usize = source.as_bytes().len();
        if length > u32::MAX as usize {
            return false;
        }
        let mut at: usize = 0;
        while at < self.nodes.len()
            invariant
                length == bytes_of(source@).len(),
                0 <= at <= self@.len(),
                forall|i: int|
                    0 <= i < at ==> char_span(
                        bytes_of(source@),
                        (#[trigger] self@[i]).start_byte as int,
                        self@[i].end_byte as int,
                    ),
            decreases self@.len() - at,
        {
            let node = &self.nodes[at];
            if node.start_byte > node.end_byte || node.end_byte > length
                || !source.is_char_boundary(node.start_byte) || !source.is_char_boundary(
                node.end_byte,
            ) {
                return false;
            }
            at += 1;
        }
        true
    }

    /// The children of the node at `at`, in document order.
    pub fn children(&self, at: usize) -> (r: Vec<usize>)
        requires
            self.wf(),
            at < self@.len(),
        ensures
            r@ == children_of(self@, at as int),
            forall|i: int|
                0 <= i < r@.len() ==> at < (#[trigger] r@[i]) < self@.len() && self@[r@[i] as int].parent
                    == at,
            forall|i: int, j: int| 0 <= i < j < r@.len() ==> (#[trigger] r@[i]) < (#[trigger] r@[j]),
    {
        let mut found: Vec<usize> = Vec::new();
        let count: usize = self.nodes.len();
        let depth: usize = self.nodes[at].depth;
        let mut next: usize = at + 1;
        while next < count && self.nodes[next].depth > depth
            invariant
                self.wf(),
                count == self@.len(),
                at < next <= count,
                depth == self@[at as int].depth,
                found@ == children_before(self@, at as int, next as int),
            decreases count - next,
        {
            if self.nodes[next].parent == at {
                found.push(next);
            }
            next += 1;
        }
        proof {
            lemma_children_end(self@, at as int, next as int, count as int);
            lemma_children_before(self@, at as int, count as int);
        }
        found
    }

    /// The first child of the node at `at` that its parent holds under
    /// the field `name`.
    pub fn child_by_field_name(&self, at: usize, name: &str) -> (r: Option<usize>)
        requires
            self.wf(),
            at < self@.len(),
        ensures
            r == child_with_field(self@, at as int, name@),
            r matches Some(child) ==> at < child < self@.len() && self@[child as int].parent == at,
    {
        let children = self.children(at);
        let mut i: usize = children.len();
        let mut found: Option<usize> = None;
        while i > 0
            invariant
                0 <= i <= children@.len(),
                forall|k: int|
                    0 <= k < children@.len() ==> at < (#[trigger] children@[k]) < self@.len()
                        && self@[children@[k] as int].parent == at,
                found == first_with_field(self@, children@, name@, i as int),
                found matches Some(child) ==> at < child < self@.len() && self@[child as int].parent
                    == at,
            decreases i,
        {
            i -= 1;
            let child: usize = children[i];
            let holds: bool = match &self.nodes[child].field {
                Some(field) => str_eq(field.as_str(), name),
                None => false,
            };
            if holds {
                found = Some(child);
            }
        }
        found
    }

    /// The tree whose nodes the records describe, if they describe one.
    pub fn from_preorder(records: &Vec<NodeRecord>) -> (r: Option<SyntaxTree>)
        ensures
            r is Some <==> records_form_tree(records@),
            r is Some ==> r->0.wf() && r->0@.len() == records@.len() && tell(r->0@, records@),
    {
        let count: usize = records.len();
        if count == 0 {
            return None;
        }
        let mut nodes: Vec<SyntaxNode> = Vec::new();
        let mut j: usize = 0;
        while j < count
            invariant
                count == records@.len(),
                0 <= j <= count,
                nodes@.len() == j,
                well_formed(nodes@),
                tell(nodes@, records@),
            decreases count - j,
        {
            let record = &records[j];
            if record.start_byte > record.end_byte {
                return None;
            }
            let mut parent: usize = 0;
            if j == 0 {
                if record.depth != 0 {
                    return None;
                }
            } else {
                let before: usize = nodes[j - 1].depth;
                assert(nodes@[j - 1].tells(records@[j - 1]));
                if record.depth < 1 || record.depth - 1 > before {
                    return None;
                }
                let found = Self::find_parent(&nodes, records, j);
                match found {
                    None => {
                        return None;
                    },
                    Some(at) => {
                        parent = at;
                    },
                }
            }
            let field: Option<String> = match &record.field {
                Some(name) => Some(name.clone()),
                None => None,
            };
            let node = SyntaxNode {
                kind: record.kind.clone(),
                start_byte: record.start_byte,
                end_byte: record.end_byte,
                depth: record.depth,
                parent,
                field,
                named: record.named,
                missing: record.missing,
                error: record.error,
            };
            proof {
                lemma_push_keeps_tree(nodes@, node);
                assert(node.tells(records@[j as int]));
            }
            nodes.push(node);
            j += 1;
        }
        let tree = SyntaxTree { nodes };
        proof {
            lemma_tree_records(tree@, records@);
        }
        Some(tree)
    }

    /// The parent of the record at `j` among the nodes made of the
    /// records before it: the nearest node on the way from the last node
    /// to the root that is less deep. Nothing where the record does not
    /// lie as `records_apart` asks.
    fn find_parent(nodes: &Vec<SyntaxNode>, records: &Vec<NodeRecord>, j: usize) -> (r: Option<
        usize,
    >)
        requires
            0 < j < records@.len(),
            nodes@.len() == j,
            well_formed(nodes@),
            tell(nodes@, records@),
            1 <= records@[j as int].depth <= records@[j - 1].depth + 1,
        ensures
            r is None ==> exists|earlier: int|
                0 <= earlier < j && !records_apart(records@, earlier, j as int),
            r matches Some(parent) ==> {
                &&& parent < j
                &&& records@[j as int].depth == nodes@[parent as int].depth + 1
                &&& nodes@[parent as int].start_byte <= records@[j as int].start_byte
                &&& records@[j as int].end_byte <= nodes@[parent as int].end_byte
                &&& forall|k: int|
                    parent < k < j ==> (#[trigger] nodes@[k]).depth >= records@[j as int].depth
                        && nodes@[k].end_byte <= records@[j as int].start_byte
            },
    {
        let record = &records[j];
        assert(nodes@[j - 1].tells(records@[j - 1]));
        let mut at: usize = j - 1;
        while nodes[at].depth >= record.depth
            invariant
                0 < j < records@.len(),
                nodes@.len() == j,
                well_formed(nodes@),
                tell(nodes@, records@),
                *record == records@[j as int],
                record.depth >= 1,
                0 <= at < j,
                nodes@[at as int].depth + 1 >= record.depth,
                forall|k: int|
                    at < k < j ==> (#[trigger] nodes@[k]).depth >= record.depth && nodes@[k].end_byte
                        <= record.start_byte,
            decreases at,
        {
            let ghost closing = at as int;
            assert(nodes@[closing].tells(records@[closing]));
            assert(hangs(nodes@, closing));
            if nodes[at].end_byte > record.start_byte {
                proof {
                    assert(!encloses_by_depth(records@, closing, j as int)) by {
                        assert(records@[j as int].depth <= records@[closing].depth);
                    }
                    assert(!records_apart(records@, closing, j as int));
                }
                return None;
            }
            let up: usize = nodes[at].parent;
            proof {
                assert forall|k: int| up < k < j implies (#[trigger] nodes@[k]).depth
                    >= record.depth && nodes@[k].end_byte <= record.start_byte by {
                    if k < closing {
                        assert(no_shallower(nodes@, closing, k));
                        assert(apart(nodes@, k, closing));
                        if is_ancestor(nodes@, k, closing) {
                            lemma_ancestor_before(nodes@, k, closing);
                        }
                    }
                }
            }
            at = up;
        }
        let ghost up = at as int;
        assert(nodes@[up].tells(records@[up]));
        if nodes[at].start_byte > record.start_byte || record.end_byte > nodes[at].end_byte {
            proof {
                assert(encloses_by_depth(records@, up, j as int)) by {
                    assert forall|k: int| up < k <= j implies (#[trigger] records@[k]).depth
                        > records@[up].depth by {
                        if k < j {
                            assert(nodes@[k].tells(records@[k]));
                        }
                    }
                }
                assert(!records_apart(records@, up, j as int));
            }
            return None;
        }
        Some(at)
    }
}

} // verus!
