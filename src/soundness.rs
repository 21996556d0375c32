//! What compilation guarantees, proved over the compiler's own contracts.
use crate::compiler::{
    entries_error, fields_of, kinds_of, kinds_of_fields, first_clash, lemma_first_clash_prefix, generated_for, key_legal, keys_clash, node_error,
    root_error, root_generated_for, first_root_named, root_ident, lemma_error_persists, shape_of, CompileErrorModel, GeneratedType, Shape,
};
use crate::ident::type_ident_of;
use crate::payload::shape_keys_unique;
use crate::schema::{array_free, first_key_index, node_at, entries_node_count, node_count, SchemaEntry, SchemaNode};
use vstd::prelude::*;

verus! {

/// No two keys of the table clash, and each derives legal identifiers.
pub open spec fn entries_well_named(es: Seq<SchemaEntry>) -> bool {
    forall|i: int|
        0 <= i < es.len() ==> key_legal(#[trigger] es[i].key@) && forall|j: int|
            0 <= j < i ==> !keys_clash(#[trigger] es[j].key@, es[i].key@)
}

/// Every table of the tree is well named.
pub open spec fn well_named(n: SchemaNode) -> bool
    decreases n,
{
    match n {
        SchemaNode::Table(es) => entries_well_named(es@) && forall|i: int|
            0 <= i < es.len() ==> well_named(#[trigger] es@[i].node),
        _ => true,
    }
}

/// The number of types in a generated shape, its own included.
pub open spec fn type_count(s: Shape) -> nat
    decreases s, 0int,
{
    match s {
        Shape::Record(gs) => 1 + fields_type_count(gs@),
        Shape::Leaf(_) => 1,
    }
}

/// The number of types generated for a sequence of fields.
pub open spec fn fields_type_count(gs: Seq<GeneratedType>) -> nat
    decreases gs, 1int,
{
    if gs.len() == 0 {
        0
    } else {
        fields_type_count(gs.drop_last()) + type_count(gs.last().shape)
    }
}

proof fn lemma_no_clash_first(es: Seq<SchemaEntry>, i: int, j: int)
    requires
        0 <= j <= i < es.len(),
        forall|k: int| 0 <= k < i ==> !keys_clash(#[trigger] es[k].key@, es[i].key@),
    ensures
        first_clash(es, i, j) == -1,
    decreases i - j,
{
    if j < i {
        lemma_no_clash_first(es, i, j + 1);
    }
}

proof fn lemma_clash_found(es: Seq<SchemaEntry>, i: int, j: int, k: int)
    requires
        0 <= j <= k < i < es.len(),
        keys_clash(es[k].key@, es[i].key@),
    ensures
        first_clash(es, i, j) >= 0,
    decreases i - j,
{
    if j < k && !keys_clash(es[j].key@, es[i].key@) {
        lemma_clash_found(es, i, j + 1, k);
    }
}

proof fn lemma_prefix_unfold(es: Seq<SchemaEntry>, m: int)
    requires
        0 < m <= es.len(),
    ensures
        es.subrange(0, m).drop_last() == es.subrange(0, m - 1),
        es.subrange(0, m).last() == es[m - 1],
        first_clash(es.subrange(0, m), m - 1, 0) == first_clash(es, m - 1, 0),
{
    assert(es.subrange(0, m).drop_last() =~= es.subrange(0, m - 1));
    lemma_first_clash_prefix(es, m, m - 1, 0);
}

proof fn lemma_node_ok(n: SchemaNode, p: Seq<Seq<char>>)
    requires
        array_free(n),
        well_named(n),
    ensures
        node_error(n, p) is None,
    decreases n, 0int, 0int,
{
    if let SchemaNode::Table(es) = n {
        assert(decreases_to!(n => n->Table_0));
        lemma_entries_ok(es@, es@.len() as int, p);
        assert(es@.subrange(0, es@.len() as int) =~= es@);
    }
}

proof fn lemma_entries_ok(es: Seq<SchemaEntry>, m: int, p: Seq<Seq<char>>)
    requires
        0 <= m <= es.len(),
        entries_well_named(es),
        forall|i: int| 0 <= i < m ==> array_free(#[trigger] es[i].node) && well_named(es[i].node),
    ensures
        entries_error(es.subrange(0, m), p) is None,
    decreases es, 1int, m,
{
    if m > 0 {
        lemma_entries_ok(es, m - 1, p);
        lemma_prefix_unfold(es, m);
        assert(key_legal(es[m - 1].key@));
        lemma_no_clash_first(es, m - 1, 0);
        assert(decreases_to!(es => es[m - 1]));
        lemma_node_ok(es[m - 1].node, p.push(es[m - 1].key@));
    }
}

/// No top-level key of the document takes the `Root` type's name.
pub open spec fn root_name_free(root: SchemaNode) -> bool {
    forall|i: int|
        0 <= i < root->Table_0@.len() ==> type_ident_of(#[trigger] root->Table_0@[i].key@) != root_ident()
}

proof fn lemma_no_root_named(es: Seq<SchemaEntry>, j: int)
    requires
        0 <= j <= es.len(),
        forall|i: int| 0 <= i < es.len() ==> type_ident_of(#[trigger] es[i].key@) != root_ident(),
    ensures
        first_root_named(es, j) == -1,
    decreases es.len() - j,
{
    if j < es.len() {
        lemma_no_root_named(es, j + 1);
    }
}

/// A document that is a table, holds no array, whose tables are well named
/// and whose top-level keys leave the `Root` type's name free compiles
/// without error.
pub proof fn lemma_array_free_compiles(root: SchemaNode)
    requires
        root is Table,
        array_free(root),
        well_named(root),
        root_name_free(root),
    ensures
        root_error(root) is None,
{
    lemma_node_ok(root, seq![]);
    lemma_no_root_named(root->Table_0@, 0);
}

proof fn lemma_shape_count(s: Shape, n: SchemaNode)
    requires
        shape_of(s, n),
    ensures
        type_count(s) == node_count(n),
    decreases n, 0int, 0int,
{
    if let SchemaNode::Table(es) = n {
        assert(decreases_to!(n => n->Table_0));
        lemma_fields_count(s->Record_0@, es@, es@.len() as int);
        assert(es@.subrange(0, es@.len() as int) =~= es@);
        assert(s->Record_0@.subrange(0, es@.len() as int) =~= s->Record_0@);
    }
}

proof fn lemma_fields_count(gs: Seq<GeneratedType>, es: Seq<SchemaEntry>, m: int)
    requires
        0 <= m <= es.len(),
        fields_of(gs, es),
    ensures
        fields_type_count(gs.subrange(0, m)) == entries_node_count(es.subrange(0, m)),
    decreases es, 1int, m,
{
    if m > 0 {
        lemma_fields_count(gs, es, m - 1);
        assert(gs.subrange(0, m).drop_last() =~= gs.subrange(0, m - 1));
        assert(es.subrange(0, m).drop_last() =~= es.subrange(0, m - 1));
        assert(generated_for(gs[m - 1], es[m - 1]));
        assert(decreases_to!(es => es[m - 1]));
        lemma_shape_count(gs[m - 1].shape, es[m - 1].node);
    }
}

/// The compiled `Root` holds exactly one type for each node of the
/// document: one per scalar and table below the top, and the `Root` itself.
pub proof fn lemma_one_type_per_node(g: GeneratedType, root: SchemaNode)
    requires
        root_generated_for(g, root),
    ensures
        type_count(g.shape) == node_count(root),
{
    lemma_shape_count(g.shape, root);
}

proof fn lemma_first_key(es: Seq<SchemaEntry>, j: int, start: int)
    requires
        0 <= start <= j < es.len(),
        forall|k: int| start <= k < j ==> (#[trigger] es[k]).key@ != es[j].key@,
    ensures
        first_key_index(es, es[j].key@, start) == j,
    decreases j - start,
{
    if start < j {
        lemma_first_key(es, j, start + 1);
    }
}

proof fn lemma_node_array(n: SchemaNode, base: Seq<Seq<char>>)
    requires
        well_named(n),
        !array_free(n),
    ensures
        node_error(n, base) matches Some(CompileErrorModel::ArrayNode(q)) && q.len() >= base.len()
            && q.subrange(0, base.len() as int) == base && node_at(n, q.subrange(base.len() as int, q.len() as int))
            == Some(SchemaNode::Array),
    decreases n, 0int, 0int,
{
    match n {
        SchemaNode::Array => {
            assert(base.subrange(0, base.len() as int) =~= base);
        },
        SchemaNode::Table(es) => {
            assert(decreases_to!(n => n->Table_0));
            lemma_entries_array(es@, es@.len() as int, base);
            assert(es@.subrange(0, es@.len() as int) =~= es@);
            let q = node_error(n, base)->Some_0->ArrayNode_0;
            let j = choose|j: int|
                0 <= j < es@.len() && q[base.len() as int] == es@[j].key@ && node_at(
                    es@[j].node,
                    q.subrange(base.len() as int + 1, q.len() as int),
                ) == Some(SchemaNode::Array);
            let r = q.subrange(base.len() as int, q.len() as int);
            assert forall|k: int| 0 <= k < j implies (#[trigger] es@[k]).key@ != es@[j].key@ by {
                assert(!keys_clash(es@[k].key@, es@[j].key@));
            }
            lemma_first_key(es@, j, 0);
            assert(r.drop_first() =~= q.subrange(base.len() as int + 1, q.len() as int));
        },
        SchemaNode::Scalar(_) => {},
    }
}

proof fn lemma_entries_array(es: Seq<SchemaEntry>, m: int, base: Seq<Seq<char>>)
    requires
        0 <= m <= es.len(),
        entries_well_named(es),
        forall|i: int| 0 <= i < es.len() ==> well_named(#[trigger] es[i].node),
        exists|i: int| 0 <= i < m && !array_free(#[trigger] es[i].node),
    ensures
        entries_error(es.subrange(0, m), base) matches Some(CompileErrorModel::ArrayNode(q)) && q.len()
            > base.len() && q.subrange(0, base.len() as int) == base && exists|j: int|
            0 <= j < m && q[base.len() as int] == es[j].key@ && node_at(
                #[trigger] es[j].node,
                q.subrange(base.len() as int + 1, q.len() as int),
            ) == Some(SchemaNode::Array),
    decreases es, 1int, m,
{
    lemma_prefix_unfold(es, m);
    if exists|i: int| 0 <= i < m - 1 && !array_free(#[trigger] es[i].node) {
        lemma_entries_array(es, m - 1, base);
    } else {
        assert forall|i: int| 0 <= i < m - 1 implies array_free(#[trigger] es[i].node) && well_named(es[i].node) by {}
        lemma_entries_ok(es, m - 1, base);
        assert(key_legal(es[m - 1].key@));
        lemma_no_clash_first(es, m - 1, 0);
        assert(decreases_to!(es => es[m - 1]));
        let key = es[m - 1].key@;
        lemma_node_array(es[m - 1].node, base.push(key));
        let q = node_error(es[m - 1].node, base.push(key))->Some_0->ArrayNode_0;
        assert(q.subrange(0, base.len() as int + 1) == base.push(key));
        assert(q.subrange(0, base.len() as int) =~= base.push(key).subrange(0, base.len() as int));
        assert(base.push(key).subrange(0, base.len() as int) =~= base);
        assert(q[base.len() as int] == q.subrange(0, base.len() as int + 1)[base.len() as int]);
        assert(q.subrange(base.len() as int + 1, q.len() as int) =~= q.subrange(base.push(key).len() as int, q.len() as int));
    }
}

/// A document that is a table with well-named tables and some array node
/// fails to compile, and the error names the path of an array node.
pub proof fn lemma_array_is_reported(root: SchemaNode)
    requires
        root is Table,
        well_named(root),
        !array_free(root),
    ensures
        root_error(root) matches Some(CompileErrorModel::ArrayNode(p)) && node_at(root, p) == Some(
            SchemaNode::Array,
        ),
{
    lemma_node_array(root, seq![]);
    let q = node_error(root, seq![])->Some_0->ArrayNode_0;
    assert(q.subrange(0, q.len() as int) =~= q);
}

proof fn lemma_error_any_base(n: SchemaNode, b1: Seq<Seq<char>>, b2: Seq<Seq<char>>)
    ensures
        (node_error(n, b1) is Some) == (node_error(n, b2) is Some),
    decreases n, 0int, 0int,
{
    if let SchemaNode::Table(es) = n {
        assert(decreases_to!(n => n->Table_0));
        lemma_entries_any_base(es@, es@.len() as int, b1, b2);
        assert(es@.subrange(0, es@.len() as int) =~= es@);
    }
}

proof fn lemma_entries_any_base(es: Seq<SchemaEntry>, m: int, b1: Seq<Seq<char>>, b2: Seq<Seq<char>>)
    requires
        0 <= m <= es.len(),
    ensures
        (entries_error(es.subrange(0, m), b1) is Some) == (entries_error(es.subrange(0, m), b2) is Some),
    decreases es, 1int, m,
{
    if m > 0 {
        lemma_entries_any_base(es, m - 1, b1, b2);
        lemma_prefix_unfold(es, m);
        assert(decreases_to!(es => es[m - 1]));
        lemma_error_any_base(es[m - 1].node, b1.push(es[m - 1].key@), b2.push(es[m - 1].key@));
    }
}

proof fn lemma_entry_error_lifts(es: Seq<SchemaEntry>, i: int, base: Seq<Seq<char>>)
    requires
        0 <= i < es.len(),
        exists|b: Seq<Seq<char>>| #[trigger] node_error(es[i].node, b) is Some,
    ensures
        entries_error(es, base) is Some,
{
    let b = choose|b: Seq<Seq<char>>| #[trigger] node_error(es[i].node, b) is Some;
    lemma_error_any_base(es[i].node, b, base.push(es[i].key@));
    lemma_prefix_unfold(es, i + 1);
    if entries_error(es.subrange(0, i), base) is Some {
        lemma_error_persists(es, base, i, i + 1);
    }
    lemma_error_persists(es, base, i + 1, es.len() as int);
    assert(es.subrange(0, es.len() as int) =~= es);
}

proof fn lemma_table_clash(es: Seq<SchemaEntry>, i: int, j: int, base: Seq<Seq<char>>)
    requires
        0 <= i < j < es.len(),
        type_ident_of(es[i].key@) == type_ident_of(es[j].key@),
    ensures
        entries_error(es, base) is Some,
{
    lemma_prefix_unfold(es, j + 1);
    if entries_error(es.subrange(0, j), base) is Some {
        lemma_error_persists(es, base, j, j + 1);
    } else {
        lemma_clash_found(es, j, 0, i);
    }
    lemma_error_persists(es, base, j + 1, es.len() as int);
    assert(es.subrange(0, es.len() as int) =~= es);
}

proof fn lemma_clash_below(n: SchemaNode, path: Seq<Seq<char>>, es: Vec<SchemaEntry>, i: int, j: int, base: Seq<Seq<char>>)
    requires
        node_at(n, path) == Some(SchemaNode::Table(es)),
        0 <= i < j < es.len(),
        type_ident_of(es@[i].key@) == type_ident_of(es@[j].key@),
    ensures
        node_error(n, base) is Some,
    decreases path.len(),
{
    if path.len() == 0 {
        lemma_table_clash(es@, i, j, base);
    } else {
        let es0 = n->Table_0;
        let k = first_key_index(es0@, path[0], 0);
        lemma_clash_below(es0@[k].node, path.drop_first(), es, i, j, seq![]);
        lemma_entry_error_lifts(es0@, k, base);
    }
}

/// Two keys of one table, anywhere in the document, whose derived type
/// identifiers coincide make compilation fail.
pub proof fn lemma_clash_fails(root: SchemaNode, path: Seq<Seq<char>>, es: Vec<SchemaEntry>, i: int, j: int)
    requires
        node_at(root, path) == Some(SchemaNode::Table(es)),
        0 <= i < j < es.len(),
        type_ident_of(es@[i].key@) == type_ident_of(es@[j].key@),
    ensures
        root_error(root) is Some,
{
    if root is Table {
        lemma_clash_below(root, path, es, i, j, seq![]);
    }
}

proof fn lemma_kinds_len(g: GeneratedType)
    ensures
        kinds_of(g).len() == type_count(g.shape),
    decreases g, 0int, 0int,
{
    if let Shape::Record(gs) = g.shape {
        assert(decreases_to!(g => g.shape));
        assert(decreases_to!(g.shape => g.shape->Record_0));
        lemma_kinds_fields_len(gs@, gs@.len() as int);
        assert(gs@.subrange(0, gs@.len() as int) =~= gs@);
    }
}

proof fn lemma_kinds_fields_len(gs: Seq<GeneratedType>, m: int)
    requires
        0 <= m <= gs.len(),
    ensures
        kinds_of_fields(gs.subrange(0, m)).len() == fields_type_count(gs.subrange(0, m)),
    decreases gs, 1int, m,
{
    if m > 0 {
        lemma_kinds_fields_len(gs, m - 1);
        assert(gs.subrange(0, m).drop_last() =~= gs.subrange(0, m - 1));
        assert(decreases_to!(gs => gs[m - 1]));
        lemma_kinds_len(gs[m - 1]);
    }
}

/// Declaring the compiled `Root` declares one kind for each node of the
/// document, the `Root` itself included.
pub proof fn lemma_every_node_declared(g: GeneratedType, root: SchemaNode)
    requires
        root_generated_for(g, root),
    ensures
        kinds_of(g).len() == node_count(root),
{
    lemma_kinds_len(g);
    lemma_shape_count(g.shape, root);
}

proof fn lemma_no_clash_from_first(es: Seq<SchemaEntry>, i: int, j: int)
    requires
        0 <= j <= i < es.len(),
        first_clash(es, i, j) < 0,
    ensures
        forall|k: int| j <= k < i ==> !keys_clash(#[trigger] es[k].key@, es[i].key@),
    decreases i - j,
{
    if j < i {
        lemma_no_clash_from_first(es, i, j + 1);
    }
}

proof fn lemma_entries_none(es: Seq<SchemaEntry>, m: int, p: Seq<Seq<char>>)
    requires
        0 <= m <= es.len(),
        entries_error(es.subrange(0, m), p) is None,
    ensures
        forall|i: int|
            0 <= i < m ==> first_clash(es, i, 0) < 0 && (#[trigger] node_error(es[i].node, p.push(es[i].key@))) is None,
    decreases m,
{
    if m > 0 {
        lemma_prefix_unfold(es, m);
        lemma_entries_none(es, m - 1, p);
    }
}

proof fn lemma_node_keys_unique(n: SchemaNode, s: Shape, p: Seq<Seq<char>>)
    requires
        node_error(n, p) is None,
        shape_of(s, n),
    ensures
        shape_keys_unique(s),
    decreases n,
{
    if let SchemaNode::Table(es) = n {
        let gs = s->Record_0;
        assert(es@.subrange(0, es@.len() as int) =~= es@);
        lemma_entries_none(es@, es@.len() as int, p);
        assert forall|a: int, b: int| 0 <= a < b < gs.len() implies (#[trigger] gs@[a]).key@ != (#[trigger] gs@[b]).key@ by {
            assert(generated_for(gs@[a], es@[a]));
            assert(generated_for(gs@[b], es@[b]));
            assert(node_error(es@[b].node, p.push(es@[b].key@)) is None);
            lemma_no_clash_from_first(es@, b, 0);
            assert(!keys_clash(es@[a].key@, es@[b].key@));
        }
        assert forall|i: int| 0 <= i < gs.len() implies shape_keys_unique(#[trigger] gs@[i].shape) by {
            assert(generated_for(gs@[i], es@[i]));
            assert(node_error(es@[i].node, p.push(es@[i].key@)) is None);
            assert(decreases_to!(n => n->Table_0));
            assert(decreases_to!(n->Table_0 => n->Table_0@));
            assert(decreases_to!(n->Table_0@ => n->Table_0@[i]));
            lemma_node_keys_unique(es@[i].node, gs@[i].shape, p.push(es@[i].key@));
        }
    }
}

/// Each record of a compiled `Root` names each of its fields once.
pub proof fn lemma_compiled_keys_unique(g: GeneratedType, root: SchemaNode)
    requires
        root_error(root) is None,
        root_generated_for(g, root),
    ensures
        shape_keys_unique(g.shape),
{
    lemma_node_keys_unique(root, g.shape, seq![]);
}

} // verus!
