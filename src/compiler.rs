//! The schema-to-type compiler: one generated type per schema node, each
//! table's children scoped in a namespace of their own.
use crate::ident::{check_ident, derive_idents, field_ident_of, is_legal_ident, type_ident_of};
use crate::schema::{path_view, ScalarKind, SchemaEntry, SchemaNode};
use vstd::prelude::*;

verus! {

/// The shape of a generated type.
#[derive(Debug, PartialEq)]
pub enum Shape {
    /// A one-field wrapper of a scalar.
    Leaf(ScalarKind),
    /// A record whose fields are the types of a table's children, in
    /// document order; they live in the table's own namespace.
    Record(Vec<GeneratedType>),
}

/// The type generated for one schema node.
#[derive(Debug, PartialEq)]
pub struct GeneratedType {
    /// The raw key of the node in its parent table; empty for the root.
    pub key: String,
    /// The name of the type, unique in its namespace.
    pub type_ident: String,
    /// The name of the field in the parent record, and of the namespace
    /// that holds a table's children.
    pub field_ident: String,
    /// An identifier drawn at random for each compilation.
    pub uid: u128,
    pub shape: Shape,
}

impl GeneratedType {
    /// A text leaf can be bound to live text consumers: its value is pushed
    /// to them when it changes and when they bind.
    pub fn is_text_bindable(&self) -> (r: bool)
        ensures
            r == (self.shape == Shape::Leaf(ScalarKind::Text)),
    {
        match &self.shape {
            Shape::Leaf(k) => *k == ScalarKind::Text,
            Shape::Record(_) => false,
        }
    }
}

/// The identifiers of the type `g` and of every type below it, in depth
/// first document order, `g`'s own first.
pub open spec fn kinds_of(g: GeneratedType) -> Seq<u128>
    decreases g, 0int,
{
    match g.shape {
        Shape::Record(gs) => seq![g.uid] + kinds_of_fields(gs@),
        Shape::Leaf(_) => seq![g.uid],
    }
}

/// The identifiers of the types of `gs` and of every type below them.
pub open spec fn kinds_of_fields(gs: Seq<GeneratedType>) -> Seq<u128>
    decreases gs, 1int,
{
    if gs.len() == 0 {
        seq![]
    } else {
        kinds_of_fields(gs.drop_last()) + kinds_of(gs.last())
    }
}

/// Declares the type `g` and every type below it to the host's type
/// registry, appending their identifiers to `registry`.
pub fn declare_kinds(g: &GeneratedType, registry: &mut Vec<u128>)
    ensures
        final(registry)@ == old(registry)@ + kinds_of(*g),
    decreases *g,
{
    registry.push(g.uid);
    match &g.shape {
        Shape::Record(gs) => {
            let ghost start = old(registry)@.len() + 1;
            let mut i: usize = 0;
            while i < gs.len()
                invariant
                    g.shape == Shape::Record(*gs),
                    i <= gs.len(),
                    registry@ == old(registry)@ + seq![g.uid] + kinds_of_fields(gs@.subrange(0, i as int)),
                decreases gs.len() - i,
            {
                proof {
                    assert(decreases_to!(*g => g.shape));
                    assert(decreases_to!(g.shape => g.shape->Record_0));
                    assert(decreases_to!(g.shape->Record_0 => g.shape->Record_0@));
                    assert(decreases_to!(g.shape->Record_0@ => g.shape->Record_0@[i as int]));
                }
                declare_kinds(&gs[i], registry);
                assert(gs@.subrange(0, i as int + 1).drop_last() =~= gs@.subrange(0, i as int));
                i = i + 1;
            }
            assert(gs@.subrange(0, gs@.len() as int) =~= gs@);
        },
        Shape::Leaf(_) => {},
    }
}

/// Why a schema does not compile.
#[derive(Clone, Debug, PartialEq)]
pub enum CompileError {
    /// The top level of the document is not a table.
    NotATable,
    /// An array-valued node at `path`.
    ArrayNode { path: Vec<String> },
    /// The key at `path` derives an identifier that is not legal.
    IllegalIdent { path: Vec<String> },
    /// Two keys `first` and `second` of the table at `path` derive the same
    /// type or field identifier.
    Collision { path: Vec<String>, first: String, second: String },
    /// The top-level key at `path` derives the type identifier of the
    /// `Root` type, which stands in the same namespace.
    ReservedIdent { path: Vec<String> },
}

/// A compile error as plain values.
pub enum CompileErrorModel {
    NotATable,
    ArrayNode(Seq<Seq<char>>),
    IllegalIdent(Seq<Seq<char>>),
    Collision(Seq<Seq<char>>, Seq<char>, Seq<char>),
    ReservedIdent(Seq<Seq<char>>),
}

impl CompileError {
    pub open spec fn view(&self) -> CompileErrorModel {
        match self {
            CompileError::NotATable => CompileErrorModel::NotATable,
            CompileError::ArrayNode { path } => CompileErrorModel::ArrayNode(path_view(path@)),
            CompileError::IllegalIdent { path } => CompileErrorModel::IllegalIdent(path_view(path@)),
            CompileError::Collision { path, first, second } => CompileErrorModel::Collision(
                path_view(path@),
                first@,
                second@,
            ),
            CompileError::ReservedIdent { path } => CompileErrorModel::ReservedIdent(path_view(path@)),
        }
    }
}

/// The name of the type generated for the whole document.
pub open spec fn root_ident() -> Seq<char> {
    seq!['R', 'o', 'o', 't']
}

/// Two keys of one table clash when they derive the same type identifier or
/// the same field identifier.
pub open spec fn keys_clash(a: Seq<char>, b: Seq<char>) -> bool {
    type_ident_of(a) == type_ident_of(b) || field_ident_of(a) == field_ident_of(b)
}

/// The first index in `j .. i` whose key clashes with the key at `i`, or -1.
pub open spec fn first_clash(es: Seq<SchemaEntry>, i: int, j: int) -> int
    decreases i - j,
{
    if j < 0 || j >= i {
        -1
    } else if keys_clash(es[j].key@, es[i].key@) {
        j
    } else {
        first_clash(es, i, j + 1)
    }
}

proof fn lemma_first_clash_range(es: Seq<SchemaEntry>, i: int, j: int)
    requires
        0 <= j,
    ensures
        first_clash(es, i, j) == -1 || j <= first_clash(es, i, j) < i,
    decreases i - j,
{
    if j < i && !keys_clash(es[j].key@, es[i].key@) {
        lemma_first_clash_range(es, i, j + 1);
    }
}

/// Both identifiers derived from `key` are legal.
pub open spec fn key_legal(key: Seq<char>) -> bool {
    is_legal_ident(type_ident_of(key)) && is_legal_ident(field_ident_of(key))
}

/// The first error met in the node at `p`, walking depth first in document
/// order; within a table each entry is checked for its own identifiers,
/// then against the earlier keys, then within its subtree.
pub open spec fn node_error(n: SchemaNode, p: Seq<Seq<char>>) -> Option<CompileErrorModel>
    decreases n, 0int,
{
    match n {
        SchemaNode::Scalar(_) => None,
        SchemaNode::Array => Some(CompileErrorModel::ArrayNode(p)),
        SchemaNode::Table(es) => entries_error(es@, p),
    }
}

/// The first error met in a table's entries, the table being at `p`.
pub open spec fn entries_error(es: Seq<SchemaEntry>, p: Seq<Seq<char>>) -> Option<CompileErrorModel>
    decreases es, 1int,
{
    if es.len() == 0 {
        None
    } else {
        match entries_error(es.drop_last(), p) {
            Some(e) => Some(e),
            None => {
                let i = es.len() - 1;
                let key = es[i].key@;
                let c = first_clash(es, i, 0);
                if !key_legal(key) {
                    Some(CompileErrorModel::IllegalIdent(p.push(key)))
                } else if c >= 0 {
                    Some(CompileErrorModel::Collision(p, es[c].key@, key))
                } else {
                    node_error(es[i].node, p.push(key))
                }
            },
        }
    }
}

/// The first index from `j` on of an entry whose type identifier is that
/// of the `Root` type, or -1.
pub open spec fn first_root_named(es: Seq<SchemaEntry>, j: int) -> int
    decreases es.len() - j,
{
    if j < 0 || j >= es.len() {
        -1
    } else if type_ident_of(es[j].key@) == root_ident() {
        j
    } else {
        first_root_named(es, j + 1)
    }
}

/// The error of the whole document, if any: the first error met in its
/// tables, else the first top-level key that takes the `Root` type's name.
pub open spec fn root_error(root: SchemaNode) -> Option<CompileErrorModel> {
    match root {
        SchemaNode::Table(es) => match entries_error(es@, seq![]) {
            Some(e) => Some(e),
            None => {
                let k = first_root_named(es@, 0);
                if k >= 0 {
                    Some(CompileErrorModel::ReservedIdent(seq![es@[k].key@]))
                } else {
                    None
                }
            },
        },
        _ => Some(CompileErrorModel::NotATable),
    }
}

/// `s` is the shape generated for `n`.
pub open spec fn shape_of(s: Shape, n: SchemaNode) -> bool
    decreases n, 0int,
{
    match n {
        SchemaNode::Scalar(k) => s == Shape::Leaf(k),
        SchemaNode::Array => false,
        SchemaNode::Table(es) => s is Record && fields_of(s->Record_0@, es@),
    }
}

/// `gs` are the types generated for the entries `es`, one for one, in order.
pub open spec fn fields_of(gs: Seq<GeneratedType>, es: Seq<SchemaEntry>) -> bool
    decreases es, 1int,
{
    &&& gs.len() == es.len()
    &&& forall|i: int| 0 <= i < es.len() ==> generated_for(#[trigger] gs[i], es[i])
}

/// `g` is the type generated for the entry `e`.
pub open spec fn generated_for(g: GeneratedType, e: SchemaEntry) -> bool
    decreases e, 0int,
{
    &&& g.key@ == e.key@
    &&& g.type_ident@ == type_ident_of(e.key@)
    &&& g.field_ident@ == field_ident_of(e.key@)
    &&& shape_of(g.shape, e.node)
}

/// `g` is the `Root` type generated for the document `root`.
pub open spec fn root_generated_for(g: GeneratedType, root: SchemaNode) -> bool {
    &&& g.key@.len() == 0
    &&& g.type_ident@ == root_ident()
    &&& g.field_ident@.len() == 0
    &&& root is Table
    &&& shape_of(g.shape, root)
}

/// Relies on uuid's `Uuid::new_v4`, read out with `Uuid::as_u128`: a random
/// identifier, of which nothing is known. `new_v4` panics only where the
/// system has no source of randomness.
#[verifier::external_body]
fn fresh_uid() -> (r: u128) {
    uuid::Uuid::new_v4().as_u128()
}

/// A copy of a path.
pub fn copy_path(p: &Vec<String>) -> (r: Vec<String>)
    ensures
        path_view(r@) == path_view(p@),
{
    let mut r: Vec<String> = Vec::new();
    let mut i: usize = 0;
    while i < p.len()
        invariant
            i <= p.len(),
            r@.len() == i,
            forall|k: int| 0 <= k < i ==> #[trigger] r@[k]@ == p@[k]@,
        decreases p.len() - i,
    {
        r.push(p[i].clone());
        i = i + 1;
    }
    assert(path_view(r@) =~= path_view(p@));
    r
}

/// `p` extended by `key`.
pub fn child_path(p: &Vec<String>, key: &String) -> (r: Vec<String>)
    ensures
        path_view(r@) == path_view(p@).push(key@),
{
    let mut r = copy_path(p);
    r.push(key.clone());
    assert(path_view(r@) =~= path_view(p@).push(key@));
    r
}

pub(crate) proof fn lemma_error_persists(es: Seq<SchemaEntry>, p: Seq<Seq<char>>, k: int, m: int)
    requires
        0 <= k <= m <= es.len(),
        entries_error(es.subrange(0, k), p) is Some,
    ensures
        entries_error(es.subrange(0, m), p) == entries_error(es.subrange(0, k), p),
    decreases m - k,
{
    if m > k {
        lemma_error_persists(es, p, k, m - 1);
        assert(es.subrange(0, m).drop_last() =~= es.subrange(0, m - 1));
    }
}

pub(crate) proof fn lemma_first_clash_prefix(es: Seq<SchemaEntry>, m: int, i: int, j: int)
    requires
        0 <= j <= i < m <= es.len(),
    ensures
        first_clash(es.subrange(0, m), i, j) == first_clash(es, i, j),
    decreases i - j,
{
    if j < i {
        lemma_first_clash_prefix(es, m, i, j + 1);
    }
}

/// The first index from `j` on of a type in `earlier` that has type
/// identifier `t` or field identifier `f`, or -1.
pub open spec fn first_same_ident(earlier: Seq<GeneratedType>, t: Seq<char>, f: Seq<char>, j: int) -> int
    decreases earlier.len() - j,
{
    if j < 0 || j >= earlier.len() {
        -1
    } else if earlier[j].type_ident@ == t || earlier[j].field_ident@ == f {
        j
    } else {
        first_same_ident(earlier, t, f, j + 1)
    }
}

/// The first type of `earlier`, the types already generated in a table,
/// whose identifiers clash with the type identifier `t` and field
/// identifier `f` of the next key.
pub fn find_clash(earlier: &Vec<GeneratedType>, t: &String, f: &String) -> (r: Option<usize>)
    ensures
        r matches Some(j) ==> j < earlier.len() && j == first_same_ident(earlier@, t@, f@, 0),
        r is None ==> first_same_ident(earlier@, t@, f@, 0) == -1,
{
    let mut j: usize = 0;
    while j < earlier.len()
        invariant
            j <= earlier.len(),
            first_same_ident(earlier@, t@, f@, 0) == first_same_ident(earlier@, t@, f@, j as int),
        decreases earlier.len() - j,
    {
        if earlier[j].type_ident == *t || earlier[j].field_ident == *f {
            return Some(j);
        }
        j = j + 1;
    }
    None
}

proof fn lemma_same_ident_is_clash(es: Seq<SchemaEntry>, gs: Seq<GeneratedType>, i: int, j: int)
    requires
        0 <= j <= i < es.len(),
        gs.len() == i,
        forall|k: int| 0 <= k < i ==> generated_for(#[trigger] gs[k], es[k]),
    ensures
        first_same_ident(gs, type_ident_of(es[i].key@), field_ident_of(es[i].key@), j) == first_clash(es, i, j),
    decreases i - j,
{
    if j < i {
        assert(generated_for(gs[j], es[j]));
        lemma_same_ident_is_clash(es, gs, i, j + 1);
    }
}

/// Checks the names of the next key `key` of the table at `path`, given
/// the identifiers `t` and `f` derived from it, whether each is legal, and
/// the types already generated in the table: an illegal identifier comes
/// first, then the first earlier type whose identifiers clash.
pub fn check_names(
    path: &Vec<String>,
    key: &String,
    t: &String,
    f: &String,
    t_legal: bool,
    f_legal: bool,
    earlier: &Vec<GeneratedType>,
) -> (r: Result<(), CompileError>)
    ensures
        !(t_legal && f_legal) ==> (r matches Err(e) && e@ == CompileErrorModel::IllegalIdent(
            path_view(path@).push(key@),
        )),
        t_legal && f_legal && first_same_ident(earlier@, t@, f@, 0) >= 0 ==> (r matches Err(e) && e@
            == CompileErrorModel::Collision(
            path_view(path@),
            earlier@[first_same_ident(earlier@, t@, f@, 0)].key@,
            key@,
        )),
        t_legal && f_legal && first_same_ident(earlier@, t@, f@, 0) < 0 ==> r is Ok,
{
    if !(t_legal && f_legal) {
        return Err(CompileError::IllegalIdent { path: child_path(path, key) });
    }
    match find_clash(earlier, t, f) {
        Some(j) => Err(CompileError::Collision {
            path: copy_path(path),
            first: earlier[j].key.clone(),
            second: key.clone(),
        }),
        None => Ok(()),
    }
}

/// Compiles the entries of the table at `path`.
fn compile_entries(es: &Vec<SchemaEntry>, path: &Vec<String>) -> (r: Result<Vec<GeneratedType>, CompileError>)
    ensures
        r is Ok <==> entries_error(es@, path_view(path@)) is None,
        r matches Ok(gs) ==> fields_of(gs@, es@),
        r matches Err(e) ==> entries_error(es@, path_view(path@)) == Some(e@),
    decreases es, 1int,
{
    let ghost p = path_view(path@);
    let mut gs: Vec<GeneratedType> = Vec::new();
    let mut i: usize = 0;
    while i < es.len()
        invariant
            i <= es.len(),
            p == path_view(path@),
            gs@.len() == i,
            entries_error(es@.subrange(0, i as int), p) is None,
            forall|k: int| 0 <= k < i ==> generated_for(#[trigger] gs@[k], es@[k]),
        decreases es.len() - i,
    {
        let ghost sub = es@.subrange(0, i as int + 1);
        assert(sub.drop_last() =~= es@.subrange(0, i as int));
        proof {
            lemma_first_clash_prefix(es@, i as int + 1, i as int, 0);
        }
        let key = &es[i].key;
        let (t, f) = derive_idents(key);
        let t_legal = check_ident(&t);
        let f_legal = check_ident(&f);
        proof {
            lemma_same_ident_is_clash(es@, gs@, i as int, 0);
        }
        match check_names(path, key, &t, &f, t_legal, f_legal, &gs) {
            Ok(()) => {},
            Err(e) => {
                proof {
                    let c = first_clash(es@, i as int, 0);
                    lemma_first_clash_range(es@, i as int, 0);
                    if c >= 0 {
                        assert(generated_for(gs@[c], es@[c]));
                        assert(sub[c] == es@[c]);
                    }
                    assert(sub[i as int] == es@[i as int]);
                    assert(entries_error(sub, p) == Some(e@));
                    lemma_error_persists(es@, p, i as int + 1, es@.len() as int);
                    assert(es@.subrange(0, es@.len() as int) =~= es@);
                }
                return Err(e);
            },
        }
        let cp = child_path(path, key);
        let shape = match compile_shape(&es[i].node, &cp) {
            Ok(s) => s,
            Err(e) => {
                proof {
                    lemma_error_persists(es@, p, i as int + 1, es@.len() as int);
                    assert(es@.subrange(0, es@.len() as int) =~= es@);
                }
                return Err(e);
            },
        };
        let g = GeneratedType { key: key.clone(), type_ident: t, field_ident: f, uid: fresh_uid(), shape };
        gs.push(g);
        i = i + 1;
    }
    assert(es@.subrange(0, es@.len() as int) =~= es@);
    Ok(gs)
}

/// Compiles the node at `path` into the shape of its type.
fn compile_shape(n: &SchemaNode, path: &Vec<String>) -> (r: Result<Shape, CompileError>)
    ensures
        r is Ok <==> node_error(*n, path_view(path@)) is None,
        r matches Ok(s) ==> shape_of(s, *n),
        r matches Err(e) ==> node_error(*n, path_view(path@)) == Some(e@),
    decreases *n, 0int,
{
    match n {
        SchemaNode::Scalar(k) => Ok(Shape::Leaf(*k)),
        SchemaNode::Array => Err(CompileError::ArrayNode { path: copy_path(path) }),
        SchemaNode::Table(es) => match compile_entries(es, path) {
            Ok(gs) => Ok(Shape::Record(gs)),
            Err(e) => Err(e),
        },
    }
}

/// Compiles a whole schema document into its `Root` type.
///
/// Succeeds exactly when the document is a table and no error is met in
/// it; the error returned is the first one met, depth first in document
/// order.
pub fn compile(root: &SchemaNode) -> (r: Result<GeneratedType, CompileError>)
    ensures
        r is Ok <==> root_error(*root) is None,
        r matches Ok(g) ==> root_generated_for(g, *root),
        r matches Err(e) ==> root_error(*root) == Some(e@),
{
    match root {
        SchemaNode::Table(es) => {
            let empty: Vec<String> = Vec::new();
            assert(path_view(empty@) =~= seq![]);
            match compile_entries(es, &empty) {
                Ok(gs) => {
                    let name = "Root".to_owned();
                    proof {
                        reveal_strlit("Root");
                    }
                    assert(name@ =~= root_ident());
                    let mut k: usize = 0;
                    while k < gs.len()
                        invariant
                            k <= gs.len(),
                            name@ == root_ident(),
                            *root == SchemaNode::Table(*es),
                            entries_error(es@, seq![]) is None,
                            fields_of(gs@, es@),
                            first_root_named(es@, 0) == first_root_named(es@, k as int),
                        decreases gs.len() - k,
                    {
                        assert(generated_for(gs@[k as int], es@[k as int]));
                        if gs[k].type_ident == name {
                            let path = vec![es[k].key.clone()];
                            assert(path_view(path@) =~= seq![es@[k as int].key@]);
                            return Err(CompileError::ReservedIdent { path });
                        }
                        k = k + 1;
                    }
                    Ok(GeneratedType {
                        key: String::new(),
                        type_ident: name,
                        field_ident: String::new(),
                        uid: fresh_uid(),
                        shape: Shape::Record(gs),
                    })
                },
                Err(e) => Err(e),
            }
        },
        _ => Err(CompileError::NotATable),
    }
}

} // verus!
