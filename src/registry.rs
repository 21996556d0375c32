//! Registration of configuration values under path addresses, and the
//! replacement of a registered tree on reload.
use vstd::prelude::*;

verus! {

/// A configuration value as read from a payload.
///
/// A float is held as the bits of its IEEE 754 double, a date or time as
/// its text.
#[derive(Debug, PartialEq)]
pub enum ConfigValue {
    Text(String),
    Integer(u64),
    FloatBits(u64),
    Boolean(bool),
    Datetime(String),
    Record(Vec<FieldValue>),
}

/// A named field of a record value, in document order.
#[derive(Debug, PartialEq)]
pub struct FieldValue {
    pub key: String,
    pub value: ConfigValue,
}

/// A value registered under an address.
#[derive(Debug, PartialEq)]
pub struct Label {
    pub address: String,
    pub value: ConfigValue,
}

/// What one load has registered: the whole value as the default asset,
/// and every node below it under its address.
#[derive(Debug, PartialEq)]
pub struct LoadContext {
    pub default_asset: Option<ConfigValue>,
    pub labels: Vec<Label>,
}

/// Why a payload could not be loaded.
#[derive(Clone, Debug, PartialEq)]
pub struct LoadError {
    pub message: String,
}

/// `a` and `b` hold the same value.
pub open spec fn same_value(a: ConfigValue, b: ConfigValue) -> bool
    decreases a, 0int,
{
    match a {
        ConfigValue::Text(x) => b is Text && b->Text_0@ == x@,
        ConfigValue::Integer(x) => b is Integer && b->Integer_0 == x,
        ConfigValue::FloatBits(x) => b is FloatBits && b->FloatBits_0 == x,
        ConfigValue::Boolean(x) => b is Boolean && b->Boolean_0 == x,
        ConfigValue::Datetime(x) => b is Datetime && b->Datetime_0@ == x@,
        ConfigValue::Record(fs) => b is Record && same_fields(fs@, b->Record_0@),
    }
}

/// `xs` and `ys` hold the same fields in the same order.
pub open spec fn same_fields(xs: Seq<FieldValue>, ys: Seq<FieldValue>) -> bool
    decreases xs, 1int,
{
    &&& xs.len() == ys.len()
    &&& forall|i: int|
        0 <= i < xs.len() ==> (#[trigger] xs[i]).key@ == ys[i].key@ && same_value(
            xs[i].value,
            ys[i].value,
        )
}

/// The address of the child `key` of the node at `parent`; `None` stands
/// for the root, which has no address.
pub open spec fn child_address(parent: Option<Seq<char>>, key: Seq<char>) -> Seq<char> {
    match parent {
        None => key,
        Some(a) => a + seq!['.'] + key,
    }
}

/// The labels that registering the nodes below `v` produces, `v` being at
/// `at`, in depth-first document order.
pub open spec fn labels_below(v: ConfigValue, at: Option<Seq<char>>) -> Seq<(Seq<char>, ConfigValue)>
    decreases v, 0int,
{
    match v {
        ConfigValue::Record(fs) => field_labels(fs@, at),
        _ => seq![],
    }
}

/// The labels that registering the fields `fs` of the node at `at`
/// produces: each field under its own address, then the nodes below it.
pub open spec fn field_labels(fs: Seq<FieldValue>, at: Option<Seq<char>>) -> Seq<(Seq<char>, ConfigValue)>
    decreases fs, 1int,
{
    if fs.len() == 0 {
        seq![]
    } else {
        let f = fs.last();
        let a = child_address(at, f.key@);
        field_labels(fs.drop_last(), at) + seq![(a, f.value)] + labels_below(f.value, Some(a))
    }
}

/// The labels `ls` are, one for one, the address and value pairs `m`.
pub open spec fn labels_match(ls: Seq<Label>, m: Seq<(Seq<char>, ConfigValue)>) -> bool {
    &&& ls.len() == m.len()
    &&& forall|i: int|
        0 <= i < ls.len() ==> (#[trigger] ls[i]).address@ == m[i].0 && same_value(ls[i].value, m[i].1)
}

/// `ctx` is what registering the root value `v` produces.
pub open spec fn registered(ctx: LoadContext, v: ConfigValue) -> bool {
    &&& ctx.default_asset is Some
    &&& same_value(ctx.default_asset->Some_0, v)
    &&& labels_match(ctx.labels@, labels_below(v, None))
}

/// A copy of a value.
pub fn copy_value(v: &ConfigValue) -> (r: ConfigValue)
    ensures
        same_value(r, *v),
    decreases *v,
{
    match v {
        ConfigValue::Text(s) => ConfigValue::Text(s.clone()),
        ConfigValue::Integer(x) => ConfigValue::Integer(*x),
        ConfigValue::FloatBits(x) => ConfigValue::FloatBits(*x),
        ConfigValue::Boolean(x) => ConfigValue::Boolean(*x),
        ConfigValue::Datetime(s) => ConfigValue::Datetime(s.clone()),
        ConfigValue::Record(fs) => {
            let mut out: Vec<FieldValue> = Vec::new();
            let mut i: usize = 0;
            while i < fs.len()
                invariant
                    *v == ConfigValue::Record(*fs),
                    i <= fs.len(),
                    out@.len() == i,
                    forall|k: int|
                        0 <= k < i ==> (#[trigger] out@[k]).key@ == fs@[k].key@ && same_value(
                            out@[k].value,
                            fs@[k].value,
                        ),
                decreases fs.len() - i,
            {
                proof {
                    assert(decreases_to!(*v => v->Record_0));
                    assert(decreases_to!(v->Record_0 => v->Record_0@));
                    assert(decreases_to!(v->Record_0@ => v->Record_0@[i as int]));
                    assert(decreases_to!(v->Record_0@[i as int] => v->Record_0@[i as int].value));
                }
                let value = copy_value(&fs[i].value);
                out.push(FieldValue { key: fs[i].key.clone(), value });
                i = i + 1;
            }
            let r = ConfigValue::Record(out);
            assert(same_fields(out@, fs@));
            r
        },
    }
}

fn address_of(at: &Option<String>, key: &String) -> (r: String)
    ensures
        r@ == child_address(
            match at {
                Some(a) => Some(a@),
                None => None,
            },
            key@,
        ),
{
    match at {
        None => key.clone(),
        Some(a) => {
            let mut r = a.clone();
            r.append(".");
            proof {
                reveal_strlit(".");
            }
            r.append(key.as_str());
            assert(r@ =~= a@ + seq!['.'] + key@);
            r
        },
    }
}

pub open spec fn address_view(at: Option<String>) -> Option<Seq<char>> {
    match at {
        Some(a) => Some(a@),
        None => None,
    }
}

proof fn lemma_labels_append(
    ls: Seq<Label>,
    a: int,
    b: int,
    c: int,
    m1: Seq<(Seq<char>, ConfigValue)>,
    m2: Seq<(Seq<char>, ConfigValue)>,
)
    requires
        0 <= a <= b <= c <= ls.len(),
        labels_match(ls.subrange(a, b), m1),
        labels_match(ls.subrange(b, c), m2),
    ensures
        labels_match(ls.subrange(a, c), m1 + m2),
{
    assert forall|i: int| 0 <= i < c - a implies (#[trigger] ls.subrange(a, c)[i]).address@ == (m1
        + m2)[i].0 && same_value(ls.subrange(a, c)[i].value, (m1 + m2)[i].1) by {
        if i < b - a {
            assert(ls.subrange(a, b)[i] == ls.subrange(a, c)[i]);
        } else {
            assert(ls.subrange(b, c)[i - (b - a)] == ls.subrange(a, c)[i]);
        }
    }
}

/// Registers the nodes below `v`, which stands at `at`, appending their
/// labels to `labels` in depth-first document order.
pub fn register_below(v: &ConfigValue, at: &Option<String>, labels: &mut Vec<Label>)
    ensures
        final(labels)@.len() >= old(labels)@.len(),
        final(labels)@.subrange(0, old(labels)@.len() as int) == old(labels)@,
        labels_match(
            final(labels)@.subrange(old(labels)@.len() as int, final(labels)@.len() as int),
            labels_below(*v, address_view(*at)),
        ),
    decreases *v,
{
    let ghost start = labels@.len() as int;
    match v {
        ConfigValue::Record(fs) => {
            let mut i: usize = 0;
            while i < fs.len()
                invariant
                    *v == ConfigValue::Record(*fs),
                    i <= fs.len(),
                    labels@.len() >= start,
                    start == old(labels)@.len(),
                    labels@.subrange(0, start) == old(labels)@,
                    labels_match(
                        labels@.subrange(start, labels@.len() as int),
                        field_labels(fs@.subrange(0, i as int), address_view(*at)),
                    ),
                decreases fs.len() - i,
            {
                let ghost before = labels@;
                let address = address_of(at, &fs[i].key);
                let value = copy_value(&fs[i].value);
                labels.push(Label { address: address.clone(), value });
                let ghost mid = labels@.len() as int;
                let ghost pushed = labels@[mid - 1];
                assert(pushed.address@ == child_address(address_view(*at), fs@[i as int].key@));
                assert(same_value(pushed.value, fs@[i as int].value));
                let child_at = Some(address);
                proof {
                    assert(decreases_to!(*v => v->Record_0));
                    assert(decreases_to!(v->Record_0 => v->Record_0@));
                    assert(decreases_to!(v->Record_0@ => v->Record_0@[i as int]));
                    assert(decreases_to!(v->Record_0@[i as int] => v->Record_0@[i as int].value));
                }
                register_below(&fs[i].value, &child_at, labels);
                proof {
                    let sub = fs@.subrange(0, i as int + 1);
                    assert(sub.drop_last() =~= fs@.subrange(0, i as int));
                    let a = child_address(address_view(*at), fs@[i as int].key@);
                    assert(labels@.subrange(0, mid) == before.push(labels@[mid - 1]));
                    assert(labels@.subrange(0, start) =~= labels@.subrange(0, mid).subrange(0, start));
                    let pre = labels@.subrange(0, mid);
                    assert(labels@.subrange(start, mid - 1) =~= pre.subrange(start, mid - 1));
                    assert(pre.subrange(start, mid - 1) =~= before.subrange(start, before.len() as int));
                    assert(labels_match(labels@.subrange(mid - 1, mid), seq![(a, fs@[i as int].value)])) by {
                        assert(labels@.subrange(0, mid)[mid - 1] == pushed);
                        assert(labels@.subrange(mid - 1, mid)[0] == pushed);
                    }
                    lemma_labels_append(
                        labels@,
                        start,
                        mid - 1,
                        mid,
                        field_labels(fs@.subrange(0, i as int), address_view(*at)),
                        seq![(a, fs@[i as int].value)],
                    );
                    lemma_labels_append(
                        labels@,
                        start,
                        mid,
                        labels@.len() as int,
                        field_labels(fs@.subrange(0, i as int), address_view(*at)) + seq![(a, fs@[i as int].value)],
                        labels_below(fs@[i as int].value, Some(a)),
                    );
                }
                i = i + 1;
            }
            assert(fs@.subrange(0, fs@.len() as int) =~= fs@);
        },
        _ => {
            assert(labels@.subrange(start, labels@.len() as int) =~= Seq::<Label>::empty());
            assert(labels@.subrange(0, start) =~= labels@);
        },
    }
}

/// Registers a root value in a fresh load context: the whole value as the
/// default asset, every node below it under its address.
pub fn register_root(root: &ConfigValue) -> (r: LoadContext)
    ensures
        registered(r, *root),
{
    let mut labels: Vec<Label> = Vec::new();
    register_below(root, &None, &mut labels);
    assert(labels@.subrange(0, labels@.len() as int) =~= labels@);
    LoadContext { default_asset: Some(copy_value(root)), labels }
}

/// Applies the outcome of one load to `store`: a value replaces all that
/// was registered, as one whole; a failure leaves `store` as it was and is
/// handed back.
pub fn reload(store: &mut LoadContext, outcome: Result<ConfigValue, LoadError>) -> (r: Result<(), LoadError>)
    ensures
        outcome matches Ok(v) ==> registered(*final(store), v),
        outcome is Err ==> *final(store) == *old(store),
        r is Ok <==> outcome is Ok,
        outcome matches Err(e) ==> r == Err::<(), LoadError>(e),
{
    match outcome {
        Ok(v) => {
            let fresh = register_root(&v);
            *store = fresh;
            Ok(())
        },
        Err(e) => Err(e),
    }
}

} // verus!
