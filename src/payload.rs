//! Reading a parsed payload against the shape of a compiled type.
use crate::compiler::{GeneratedType, Shape};
use crate::registry::{copy_value, same_fields, same_value, ConfigValue, FieldValue, LoadError};
use crate::schema::ScalarKind;
use vstd::prelude::*;

verus! {

/// The scalar `v` is of kind `k`.
pub open spec fn kind_matches(v: ConfigValue, k: ScalarKind) -> bool {
    match k {
        ScalarKind::Text => v is Text,
        ScalarKind::Integer => v is Integer,
        ScalarKind::Float => v is FloatBits,
        ScalarKind::Boolean => v is Boolean,
        ScalarKind::Datetime => v is Datetime,
    }
}

/// The first index from `j` on whose field has key `k`, or -1.
pub open spec fn field_index(fs: Seq<FieldValue>, k: Seq<char>, j: int) -> int
    decreases fs.len() - j,
{
    if j < 0 || j >= fs.len() {
        -1
    } else if fs[j].key@ == k {
        j
    } else {
        field_index(fs, k, j + 1)
    }
}

/// The payload `v` can be read as shape `s`: each field that the shape
/// names is present and can be read as that field's shape; fields that it
/// does not name are ignored.
pub open spec fn conforms(v: ConfigValue, s: Shape) -> bool
    decreases s,
{
    match s {
        Shape::Leaf(k) => kind_matches(v, k),
        Shape::Record(gs) => v is Record && forall|i: int|
            0 <= i < gs.len() ==> {
                let j = field_index(v->Record_0@, (#[trigger] gs@[i]).key@, 0);
                0 <= j && conforms(v->Record_0@[j].value, gs@[i].shape)
            },
    }
}

/// `out` is the payload `v` read as shape `s`: the named fields, in the
/// shape's order, each read as its own shape.
pub open spec fn read_as(out: ConfigValue, v: ConfigValue, s: Shape) -> bool
    decreases s,
{
    match s {
        Shape::Leaf(_) => same_value(out, v),
        Shape::Record(gs) => out is Record && out->Record_0@.len() == gs.len() && forall|i: int|
            0 <= i < gs.len() ==> {
                let j = field_index(v->Record_0@, (#[trigger] gs@[i]).key@, 0);
                &&& out->Record_0@[i].key@ == gs@[i].key@
                &&& read_as(out->Record_0@[i].value, v->Record_0@[j].value, gs@[i].shape)
            },
    }
}

fn find_field(fs: &Vec<FieldValue>, k: &String) -> (r: Option<usize>)
    ensures
        r matches Some(j) ==> j == field_index(fs@, k@, 0) && j < fs.len(),
        r is None ==> field_index(fs@, k@, 0) == -1,
{
    let mut j: usize = 0;
    while j < fs.len()
        invariant
            j <= fs.len(),
            field_index(fs@, k@, 0) == field_index(fs@, k@, j as int),
        decreases fs.len() - j,
    {
        if fs[j].key == *k {
            return Some(j);
        }
        j = j + 1;
    }
    None
}

fn scalar_matches(v: &ConfigValue, k: ScalarKind) -> (r: bool)
    ensures
        r == kind_matches(*v, k),
{
    match k {
        ScalarKind::Text => matches!(v, ConfigValue::Text(_)),
        ScalarKind::Integer => matches!(v, ConfigValue::Integer(_)),
        ScalarKind::Float => matches!(v, ConfigValue::FloatBits(_)),
        ScalarKind::Boolean => matches!(v, ConfigValue::Boolean(_)),
        ScalarKind::Datetime => matches!(v, ConfigValue::Datetime(_)),
    }
}

fn mismatch(key: &String) -> (r: LoadError) {
    let mut message = "field does not match the schema: ".to_owned();
    message.append(key.as_str());
    LoadError { message }
}

/// Reads the payload `v` as shape `s`, the shape of the node with key
/// `key`; fails exactly where the payload does not conform.
pub fn read_shape(v: &ConfigValue, s: &Shape, key: &String) -> (r: Result<ConfigValue, LoadError>)
    ensures
        r is Ok <==> conforms(*v, *s),
        r matches Ok(out) ==> read_as(out, *v, *s),
    decreases *s,
{
    match s {
        Shape::Leaf(k) => {
            if scalar_matches(v, *k) {
                Ok(copy_value(v))
            } else {
                Err(mismatch(key))
            }
        },
        Shape::Record(gs) => {
            let fs = match v {
                ConfigValue::Record(fs) => fs,
                _ => {
                    return Err(mismatch(key));
                },
            };
            let mut out: Vec<FieldValue> = Vec::new();
            let mut i: usize = 0;
            while i < gs.len()
                invariant
                    *s == Shape::Record(*gs),
                    *v == ConfigValue::Record(*fs),
                    i <= gs.len(),
                    out@.len() == i,
                    forall|k: int|
                        0 <= k < i ==> {
                            let j = field_index(fs@, (#[trigger] gs@[k]).key@, 0);
                            &&& 0 <= j
                            &&& conforms(fs@[j].value, gs@[k].shape)
                            &&& out@[k].key@ == gs@[k].key@
                            &&& read_as(out@[k].value, fs@[j].value, gs@[k].shape)
                        },
                decreases gs.len() - i,
            {
                let name = &gs[i].key;
                let j = match find_field(fs, name) {
                    Some(j) => j,
                    None => {
                        return Err(mismatch(name));
                    },
                };
                proof {
                    assert(decreases_to!(*s => s->Record_0));
                    assert(decreases_to!(s->Record_0 => s->Record_0@));
                    assert(decreases_to!(s->Record_0@ => s->Record_0@[i as int]));
                    assert(decreases_to!(s->Record_0@[i as int] => s->Record_0@[i as int].shape));
                }
                let value = match read_shape(&fs[j].value, &gs[i].shape, name) {
                    Ok(x) => x,
                    Err(e) => {
                        return Err(e);
                    },
                };
                out.push(FieldValue { key: gs[i].key.clone(), value });
                i = i + 1;
            }
            Ok(ConfigValue::Record(out))
        },
    }
}

/// Reads a parsed payload as the compiled `Root` type `root`.
pub fn read_payload(v: &ConfigValue, root: &GeneratedType) -> (r: Result<ConfigValue, LoadError>)
    ensures
        r is Ok <==> conforms(*v, root.shape),
        r matches Ok(out) ==> read_as(out, *v, root.shape),
{
    read_shape(v, &root.shape, &root.key)
}

/// Each record of the shape names each of its fields once.
pub open spec fn shape_keys_unique(s: Shape) -> bool
    decreases s,
{
    match s {
        Shape::Leaf(_) => true,
        Shape::Record(gs) => (forall|i: int, j: int|
            0 <= i < j < gs.len() ==> (#[trigger] gs@[i]).key@ != (#[trigger] gs@[j]).key@) && forall|i: int|
            0 <= i < gs.len() ==> shape_keys_unique(#[trigger] gs@[i].shape),
    }
}

proof fn lemma_field_index_of_read(fs: Seq<FieldValue>, gs: Seq<GeneratedType>, i: int, j: int)
    requires
        fs.len() == gs.len(),
        0 <= j <= i < gs.len(),
        forall|k: int| 0 <= k < gs.len() ==> (#[trigger] fs[k]).key@ == gs[k].key@,
        forall|a: int, b: int| 0 <= a < b < gs.len() ==> (#[trigger] gs[a]).key@ != (#[trigger] gs[b]).key@,
    ensures
        field_index(fs, gs[i].key@, j) == i,
    decreases i - j,
{
    if j < i {
        assert(fs[j].key@ == gs[j].key@);
        lemma_field_index_of_read(fs, gs, i, j + 1);
    }
}

proof fn lemma_read_keys(out: ConfigValue, v: ConfigValue, gs: Vec<GeneratedType>)
    requires
        read_as(out, v, Shape::Record(gs)),
    ensures
        out is Record,
        out->Record_0@.len() == gs@.len(),
        forall|k: int| 0 <= k < gs@.len() ==> (#[trigger] out->Record_0@[k]).key@ == gs@[k].key@,
{
    assert forall|k: int| 0 <= k < gs@.len() implies (#[trigger] out->Record_0@[k]).key@ == gs@[k].key@ by {
        let _ = gs@[k];
    }
}

proof fn lemma_read_conforms(out: ConfigValue, v: ConfigValue, s: Shape)
    requires
        shape_keys_unique(s),
        conforms(v, s),
        read_as(out, v, s),
    ensures
        conforms(out, s),
    decreases s,
{
    if let Shape::Record(gs) = s {
        lemma_read_keys(out, v, gs);
        let ofs = out->Record_0@;
        let vfs = v->Record_0@;
        assert forall|i: int| 0 <= i < gs.len() implies {
            let j = field_index(ofs, (#[trigger] gs@[i]).key@, 0);
            0 <= j && conforms(ofs[j].value, gs@[i].shape)
        } by {
            lemma_field_index_of_read(ofs, gs@, i, 0);
            let j = field_index(vfs, gs@[i].key@, 0);
            assert(decreases_to!(s => s->Record_0));
            assert(decreases_to!(s->Record_0 => s->Record_0@));
            assert(decreases_to!(s->Record_0@ => s->Record_0@[i]));
            lemma_read_conforms(ofs[i].value, vfs[j].value, gs@[i].shape);
        }
    }
}

proof fn lemma_read_same(out2: ConfigValue, out: ConfigValue, v: ConfigValue, s: Shape)
    requires
        shape_keys_unique(s),
        read_as(out, v, s),
        read_as(out2, out, s),
    ensures
        same_value(out2, out),
    decreases s,
{
    match s {
        Shape::Leaf(_) => {},
        Shape::Record(gs) => {
            lemma_read_keys(out, v, gs);
            lemma_read_keys(out2, out, gs);
            let ofs = out->Record_0@;
            let vfs = v->Record_0@;
            let o2 = out2->Record_0@;
            assert forall|i: int| 0 <= i < o2.len() implies (#[trigger] o2[i]).key@ == ofs[i].key@ && same_value(
                o2[i].value,
                ofs[i].value,
            ) by {
                lemma_field_index_of_read(ofs, gs@, i, 0);
                let j = field_index(vfs, gs@[i].key@, 0);
                assert(decreases_to!(s => s->Record_0));
                assert(decreases_to!(s->Record_0 => s->Record_0@));
                assert(decreases_to!(s->Record_0@ => s->Record_0@[i]));
                lemma_read_same(o2[i].value, ofs[i].value, vfs[j].value, gs@[i].shape);
            }
            assert(same_fields(o2, ofs));
        },
    }
}

/// A payload value read as a shape whose records name each field once
/// reads again as that shape, and reading it again gives the same value.
pub proof fn lemma_read_again(out2: ConfigValue, out: ConfigValue, v: ConfigValue, s: Shape)
    requires
        shape_keys_unique(s),
        conforms(v, s),
        read_as(out, v, s),
        read_as(out2, out, s),
    ensures
        conforms(out, s),
        same_value(out2, out),
{
    lemma_read_conforms(out, v, s);
    lemma_read_same(out2, out, v, s);
}

} // verus!
