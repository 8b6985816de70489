//! The parser facade: tree-sitter builds the tree, and what it reports
//! of each node is read into a `SyntaxTree`.

use crate::engine::tree::{
    encloses_by_depth, records_apart, records_form_tree, tell, NodeRecord, SyntaxNode, SyntaxTree,
};
use crate::text::bytes_of;
use vstd::prelude::*;
use vstd::string::*;

verus! {

/// A tree-sitter grammar.
#[verifier::external_type_specification]
#[verifier::external_body]
pub struct ExLanguage(tree_sitter::Language);

/// A tree as tree-sitter holds it.
#[verifier::external_type_specification]
#[verifier::external_body]
pub struct ExTree(tree_sitter::Tree);

/// What a tree of tree-sitter holds: for each of its nodes, in document
/// order, what tree-sitter reports of it. The root comes first, and a
/// node comes before its children.
pub uninterp spec fn tree_nodes(tree: tree_sitter::Tree) -> Seq<NodeRecord>;

/// What a fresh parser of tree-sitter makes of a text under the grammar
/// with this name: the nodes of the tree, and nothing where it gives no
/// tree. The grammars are those of the rulebooks: `rust`, `javascript`,
/// `typescript`, `tsx`, `solidity` and `tolk`.
pub uninterp spec fn syntax_of(grammar: Seq<char>, source: Seq<char>) -> Option<Seq<NodeRecord>>;

/// What a parse holds: the nodes of the tree, if there is one.
pub open spec fn parsed_nodes(parsed: Option<tree_sitter::Tree>) -> Option<Seq<NodeRecord>> {
    match parsed {
        Some(tree) => Some(tree_nodes(tree)),
        None => None,
    }
}

/// `Tree::root_node` and `Node::descendant_count` of tree-sitter: the
/// number of nodes of the tree, the root among them.
#[verifier::external_body]
fn node_count(tree: &tree_sitter::Tree) -> (count: usize)
    ensures
        count == tree_nodes(*tree).len(),
{
    tree.root_node().descendant_count()
}

/// `Tree::walk` and `TreeCursor::goto_descendant` of tree-sitter, and what
/// the cursor and the node there answer (`TreeCursor::node`, `depth` and
/// `field_name`; `Node::kind`, `start_byte`, `end_byte`, `is_named`,
/// `is_missing` and `is_error`): the record of the node at place `at` in
/// document order.
#[verifier::external_body]
fn record_at(tree: &tree_sitter::Tree, at: usize) -> (record: NodeRecord)
    requires
        at < tree_nodes(*tree).len(),
    ensures
        record.says(tree_nodes(*tree)[at as int]),
{
    let mut cursor = tree.walk();
    cursor.goto_descendant(at);
    let node = cursor.node();
    NodeRecord {
        kind: node.kind().to_string(),
        start_byte: node.start_byte(),
        end_byte: node.end_byte(),
        depth: cursor.depth() as usize,
        field: cursor.field_name().map(str::to_string),
        named: node.is_named(),
        missing: node.is_missing(),
        error: node.is_error(),
    }
}

/// Whether two lists of records say the same, record by record.
pub open spec fn alike(records: Seq<NodeRecord>, others: Seq<NodeRecord>) -> bool {
    &&& records.len() == others.len()
    &&& forall|i: int| 0 <= i < records.len() ==> (#[trigger] records[i]).says(others[i])
}

/// Records that say the same form a tree together, fit a text together,
/// and are told by the same nodes.
pub proof fn lemma_alike(records: Seq<NodeRecord>, others: Seq<NodeRecord>, bytes: Seq<u8>)
    requires
        alike(records, others),
    ensures
        records_form_tree(records) == records_form_tree(others),
        records_fit(records, bytes) == records_fit(others, bytes),
        forall|nodes: Seq<SyntaxNode>| #[trigger] tell(nodes, records) == tell(nodes, others),
{
    lemma_alike_one_way(records, others, bytes);
    lemma_alike_one_way(others, records, bytes);
}

/// What holds of records holds of records that say the same.
proof fn lemma_alike_one_way(records: Seq<NodeRecord>, others: Seq<NodeRecord>, bytes: Seq<u8>)
    requires
        alike(records, others) || alike(others, records),
    ensures
        records_form_tree(records) ==> records_form_tree(others),
        records_fit(records, bytes) ==> records_fit(others, bytes),
        forall|nodes: Seq<SyntaxNode>| #[trigger] tell(nodes, records) ==> tell(nodes, others),
{
    assert(records.len() == others.len());
    assert forall|i: int| 0 <= i < records.len() implies same_place(
        #[trigger] records[i],
        others[i],
    ) by {
        if alike(records, others) {
            assert(records[i].says(others[i]));
        } else {
            assert(others[i].says(records[i]));
        }
    }
    if records_form_tree(records) {
        assert forall|earlier: int, later: int|
            0 <= earlier < later < others.len() implies #[trigger] records_apart(
            others,
            earlier,
            later,
        ) by {
            assert(records_apart(records, earlier, later));
            assert(same_place(records[earlier], others[earlier]));
            assert(same_place(records[later], others[later]));
            assert forall|k: int| earlier < k <= later implies (#[trigger] others[k]).depth
                == records[k].depth by {
                assert(same_place(records[k], others[k]));
            }
            assert(encloses_by_depth(records, earlier, later) == encloses_by_depth(
                others,
                earlier,
                later,
            ));
        }
        assert forall|j: int| 0 <= j < others.len() implies (#[trigger] others[j]).start_byte
            <= others[j].end_byte by {
            assert(same_place(records[j], others[j]));
        }
        assert forall|j: int| 0 < j < others.len() implies 1 <= (#[trigger] others[j]).depth
            <= others[j - 1].depth + 1 by {
            assert(same_place(records[j], others[j]));
            assert(same_place(records[j - 1], others[j - 1]));
        }
        assert(same_place(records[0], others[0]));
    }
    if records_fit(records, bytes) {
        assert forall|i: int| 0 <= i < others.len() implies crate::text::char_span(
            bytes,
            (#[trigger] others[i]).start_byte as int,
            others[i].end_byte as int,
        ) by {
            assert(same_place(records[i], others[i]));
        }
    }
    assert forall|nodes: Seq<SyntaxNode>| #[trigger] tell(nodes, records) implies tell(
        nodes,
        others,
    ) by {
        assert forall|i: int| 0 <= i < nodes.len() implies (#[trigger] nodes[i]).tells(
            others[i],
        ) by {
            assert(nodes[i].tells(records[i]));
            if alike(records, others) {
                assert(records[i].says(others[i]));
            } else {
                assert(others[i].says(records[i]));
            }
        }
    }
}

/// Whether two records give the same place: span and depth.
pub open spec fn same_place(record: NodeRecord, other: NodeRecord) -> bool {
    &&& record.start_byte == other.start_byte
    &&& record.end_byte == other.end_byte
    &&& record.depth == other.depth
}

/// What tree-sitter reports of each node of a tree, in document order.
fn read_records(parsed: &tree_sitter::Tree) -> (records: Vec<NodeRecord>)
    ensures
        alike(records@, tree_nodes(*parsed)),
{
    let count: usize = node_count(parsed);
    let mut records: Vec<NodeRecord> = Vec::new();
    let mut at: usize = 0;
    while at < count
        invariant
            0 <= at <= count,
            count == tree_nodes(*parsed).len(),
            records@.len() == at,
            forall|i: int| 0 <= i < at ==> (#[trigger] records@[i]).says(tree_nodes(*parsed)[i]),
        decreases count - at,
    {
        let record = record_at(parsed, at);
        records.push(record);
        at += 1;
    }
    records
}

/// The syntax tree that the nodes of a parse make for `source`: the tree
/// whose nodes say what tree-sitter reports, where that is a tree whose
/// nodes span whole characters of `source`, and nothing otherwise.
pub fn read_tree(parsed: &tree_sitter::Tree, source: &str) -> (r: Option<SyntaxTree>)
    ensures
        r is Some <==> records_form_tree(tree_nodes(*parsed)) && records_fit(
            tree_nodes(*parsed),
            bytes_of(source@),
        ),
        r matches Some(tree) ==> tree.wf() && tree.fits(bytes_of(source@)) && tree@.len()
            == tree_nodes(*parsed).len() && tell(tree@, tree_nodes(*parsed)),
{
    let records = read_records(parsed);
    proof {
        lemma_alike(records@, tree_nodes(*parsed), bytes_of(source@));
    }
    tree_from_records(&records, source)
}

/// Whether `tree` is what a parse makes for a text with these bytes: the
/// tree whose nodes say what the parser reported, where that is a tree
/// whose nodes span whole characters of the text; and nothing where the
/// parser gave nothing, or what it reported is no such tree.
pub open spec fn tree_for(
    parsed: Option<Seq<NodeRecord>>,
    bytes: Seq<u8>,
    tree: Option<SyntaxTree>,
) -> bool {
    &&& tree is Some <==> parsed is Some && records_form_tree(parsed->0) && records_fit(
        parsed->0,
        bytes,
    )
    &&& tree matches Some(tree) ==> tree.wf() && tree.fits(bytes) && tree@.len()
        == parsed->0.len() && tell(tree@, parsed->0)
}

/// The syntax tree that a parse makes for `source`.
pub fn tree_of(parsed: Option<tree_sitter::Tree>, source: &str) -> (r: Option<SyntaxTree>)
    ensures
        tree_for(parsed_nodes(parsed), bytes_of(source@), r),
{
    match parsed {
        Some(parsed) => read_tree(&parsed, source),
        None => None,
    }
}

/// What a fresh parser of tree-sitter makes of a text under a grammar
/// that is handed in: the nodes of the tree, and nothing where it gives
/// no tree or refuses the grammar.
pub uninterp spec fn syntax_in(language: tree_sitter::Language, source: Seq<char>) -> Option<
    Seq<NodeRecord>,
>;

/// `Parser::new`, `Parser::set_language` and `Parser::parse` of
/// tree-sitter: what a fresh parser makes of the text under the grammar,
/// and nothing where it gives no tree or refuses the grammar. The tree is
/// not spelled out here; what it holds has the name `syntax_in`.
#[verifier::external_body]
fn parse_in(language: &tree_sitter::Language, source: &str) -> (parsed: Option<
    tree_sitter::Tree,
>)
    ensures
        parsed_nodes(parsed) == syntax_in(*language, source@),
{
    let mut parser = tree_sitter::Parser::new();
    match parser.set_language(language) {
        Ok(()) => parser.parse(source, None),
        Err(_) => None,
    }
}

/// The syntax tree of `source` in the grammar `language`: the tree whose
/// nodes say what the parser reports, where that is a tree whose nodes
/// span whole characters of `source`. Nothing comes back where the parser
/// refuses the grammar or gives no tree, where what it reports is no
/// tree, or where `source` is longer than a `u32` byte offset reaches.
pub fn parse_source(source: &str, language: &tree_sitter::Language) -> (r: Option<SyntaxTree>)
    ensures
        tree_for(syntax_in(*language, source@), bytes_of(source@), r),
{
    tree_of(parse_in(language, source), source)
}

/// The tree that the records describe, if they describe one whose nodes
/// span whole characters of `source`.
pub fn tree_from_records(records: &Vec<NodeRecord>, source: &str) -> (r: Option<SyntaxTree>)
    ensures
        r is Some <==> records_form_tree(records@) && records_fit(
            records@,
            bytes_of(source@),
        ),
        r matches Some(tree) ==> tree.wf() && tree.fits(bytes_of(source@)) && tree@.len()
            == records@.len() && tell(tree@, records@),
{
    match SyntaxTree::from_preorder(records) {
        None => None,
        Some(tree) => {
            let fits = tree.fits_source(source);
            proof {
                let bytes = bytes_of(source@);
                if fits {
                    assert forall|i: int| 0 <= i < records@.len() implies crate::text::char_span(
                        bytes,
                        (#[trigger] records@[i]).start_byte as int,
                        records@[i].end_byte as int,
                    ) by {
                        assert(tree@[i].tells(records@[i]));
                    }
                } else if bytes.len() <= u32::MAX {
                    let i = choose|i: int|
                        0 <= i < tree@.len() && !crate::text::char_span(
                            bytes,
                            (#[trigger] tree@[i]).start_byte as int,
                            tree@[i].end_byte as int,
                        );
                    assert(tree@[i].tells(records@[i]));
                }
            }
            if fits {
                Some(tree)
            } else {
                None
            }
        },
    }
}

/// Whether every record spans whole characters of the text with these
/// bytes, and byte offsets into the text fit in `u32`.
pub open spec fn records_fit(records: Seq<NodeRecord>, bytes: Seq<u8>) -> bool {
    &&& bytes.len() <= u32::MAX
    &&& forall|i: int|
        0 <= i < records.len() ==> crate::text::char_span(
            bytes,
            (#[trigger] records[i]).start_byte as int,
            records[i].end_byte as int,
        )
}

} // verus!
