//! The schema document as the compiler reads it: scalars, arrays and tables.
use vstd::prelude::*;

verus! {

/// The kind of a scalar schema node.
#[derive(Clone, Copy, Debug, PartialEq, Eq, Structural)]
pub enum ScalarKind {
    Text,
    Integer,
    Float,
    Boolean,
    Datetime,
}

/// One node of a parsed schema document.
///
/// `Array` stands for a list-valued node of the document; the compiler
/// rejects it.
#[derive(Debug, PartialEq)]
pub enum SchemaNode {
    Scalar(ScalarKind),
    Array,
    Table(Vec<SchemaEntry>),
}

/// A named child of a table, in document order.
#[derive(Debug, PartialEq)]
pub struct SchemaEntry {
    pub key: String,
    pub node: SchemaNode,
}

/// A registration path seen as the sequence of its raw keys.
pub open spec fn path_view(p: Seq<String>) -> Seq<Seq<char>> {
    p.map_values(|s: String| s@)
}

/// No node of the tree is an array.
pub open spec fn array_free(n: SchemaNode) -> bool
    decreases n,
{
    match n {
        SchemaNode::Scalar(_) => true,
        SchemaNode::Array => false,
        SchemaNode::Table(es) => forall|i: int|
            0 <= i < es.len() ==> array_free(#[trigger] es@[i].node),
    }
}

/// The number of nodes of the tree, the node itself included.
pub open spec fn node_count(n: SchemaNode) -> nat
    decreases n, 0int,
{
    match n {
        SchemaNode::Table(es) => 1 + entries_node_count(es@),
        _ => 1,
    }
}

/// The number of nodes under a sequence of entries.
pub open spec fn entries_node_count(es: Seq<SchemaEntry>) -> nat
    decreases es, 1int,
{
    if es.len() == 0 {
        0
    } else {
        entries_node_count(es.drop_last()) + node_count(es.last().node)
    }
}

/// The node found by following `path` key by key from `n`; where a table
/// holds a key twice the first entry counts.
pub open spec fn node_at(n: SchemaNode, path: Seq<Seq<char>>) -> Option<SchemaNode>
    decreases path.len(),
{
    if path.len() == 0 {
        Some(n)
    } else {
        match n {
            SchemaNode::Table(es) => {
                let i = first_key_index(es@, path[0], 0);
                if 0 <= i < es.len() {
                    node_at(es@[i].node, path.drop_first())
                } else {
                    None
                }
            },
            _ => None,
        }
    }
}

/// The first index from `j` on whose entry has key `k`, or -1.
pub open spec fn first_key_index(es: Seq<SchemaEntry>, k: Seq<char>, j: int) -> int
    decreases es.len() - j,
{
    if j < 0 || j >= es.len() {
        -1
    } else if es[j].key@ == k {
        j
    } else {
        first_key_index(es, k, j + 1)
    }
}

} // verus!
