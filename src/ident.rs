//! Derivation of type and field identifiers from raw schema keys.
use heck::{CamelCase, SnakeCase};
use vstd::prelude::*;

verus! {

/// The upper-camel-case form of a raw key, as heck computes it.
pub uninterp spec fn type_ident_of(key: Seq<char>) -> Seq<char>;

/// The snake-case form of a raw key, as heck computes it.
pub uninterp spec fn field_ident_of(key: Seq<char>) -> Seq<char>;

/// Relies on heck's `CamelCase::to_camel_case` for `str`: its result depends
/// on the characters of the key alone.
#[verifier::external_body]
fn camel_case(key: &String) -> (r: String)
    ensures
        r@ == type_ident_of(key@),
{
    key.as_str().to_camel_case()
}

/// Relies on heck's `SnakeCase::to_snake_case` for `str`: its result depends
/// on the characters of the key alone.
#[verifier::external_body]
fn snake_case(key: &String) -> (r: String)
    ensures
        r@ == field_ident_of(key@),
{
    key.as_str().to_snake_case()
}

/// Whether syn reads the text as one identifier, as its `Ident` parser does.
pub uninterp spec fn syn_accepts_ident(s: Seq<char>) -> bool;

/// Relies on syn's `parse_str::<Ident>`: whether the whole text is one
/// identifier that syn accepts, the keywords it lists and `_` excluded;
/// the answer depends on the characters alone.
#[verifier::external_body]
fn syn_ident(s: &String) -> (r: bool)
    ensures
        r == syn_accepts_ident(s@),
{
    syn::parse_str::<syn::Ident>(s.as_str()).is_ok()
}

/// The keywords of the 2018 edition on that syn's list leaves out.
pub open spec fn is_edition_keyword(s: Seq<char>) -> bool {
    s == seq!['a', 's', 'y', 'n', 'c'] || s == seq!['a', 'w', 'a', 'i', 't'] || s == seq!['d', 'y', 'n']
        || s == seq!['t', 'r', 'y']
}

/// A legal identifier: one that syn accepts and that is no keyword of the
/// editions since 2018.
pub open spec fn is_legal_ident(s: Seq<char>) -> bool {
    syn_accepts_ident(s) && !is_edition_keyword(s)
}

fn same_text(s: &String, w: &str) -> (r: bool)
    ensures
        r == (s@ == w@),
{
    let n: usize = s.unicode_len();
    if n != w.unicode_len() {
        return false;
    }
    let mut i: usize = 0;
    while i < n
        invariant
            n == s@.len(),
            n == w@.len(),
            i <= n,
            forall|j: int| 0 <= j < i ==> s@[j] == w@[j],
        decreases n - i,
    {
        if s.get_char(i) != w.get_char(i) {
            return false;
        }
        i = i + 1;
    }
    assert(s@ =~= w@);
    true
}

/// Whether `s` is one of the keywords of the editions since 2018 that
/// syn's list leaves out.
pub fn check_edition_keyword(s: &String) -> (r: bool)
    ensures
        r == is_edition_keyword(s@),
{
    proof {
        reveal_strlit("async");
        reveal_strlit("await");
        reveal_strlit("dyn");
        reveal_strlit("try");
        assert("async"@ =~= seq!['a', 's', 'y', 'n', 'c']);
        assert("await"@ =~= seq!['a', 'w', 'a', 'i', 't']);
        assert("dyn"@ =~= seq!['d', 'y', 'n']);
        assert("try"@ =~= seq!['t', 'r', 'y']);
    }
    same_text(s, "async") || same_text(s, "await") || same_text(s, "dyn") || same_text(s, "try")
}

/// Whether `s` is a legal identifier.
pub fn check_ident(s: &String) -> (r: bool)
    ensures
        r == is_legal_ident(s@),
{
    syn_ident(s) && !check_edition_keyword(s)
}

/// The type identifier and field identifier derived from a raw key.
pub fn derive_idents(key: &String) -> (r: (String, String))
    ensures
        r.0@ == type_ident_of(key@),
        r.1@ == field_ident_of(key@),
{
    (camel_case(key), snake_case(key))
}

} // verus!
