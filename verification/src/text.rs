//! Lexicographic ordering of strings, and the trimming done on name input.
//!
//! The roster is presented sorted by name fields under the store's binary
//! collation: strings compare lexicographically by their characters' code
//! points. [`lex_lt`] is that order; the executable comparison is `str`'s
//! own `cmp`, taken on trust against it.

use vstd::prelude::*;
use crate::models::NewPerson;

verus! {

/// Strict lexicographic order on character sequences, comparing code points.
///
/// A proper prefix precedes its extensions; the empty sequence precedes
/// every non-empty one.
pub open spec fn lex_lt(a: Seq<char>, b: Seq<char>) -> bool
    decreases a.len(),
{
    if b.len() == 0 {
        false
    } else if a.len() == 0 {
        true
    } else if a[0] != b[0] {
        (a[0] as int) < (b[0] as int)
    } else {
        lex_lt(a.drop_first(), b.drop_first())
    }
}

/// No sequence precedes itself.
pub proof fn lemma_lex_lt_irreflexive(a: Seq<char>)
    ensures
        !lex_lt(a, a),
    decreases a.len(),
{
    if a.len() > 0 {
        lemma_lex_lt_irreflexive(a.drop_first());
    }
}

/// Two sequences never precede each other both ways.
pub proof fn lemma_lex_lt_asymmetric(a: Seq<char>, b: Seq<char>)
    ensures
        !(lex_lt(a, b) && lex_lt(b, a)),
    decreases a.len(),
{
    if a.len() > 0 && b.len() > 0 && a[0] == b[0] {
        lemma_lex_lt_asymmetric(a.drop_first(), b.drop_first());
    }
}

/// Any two sequences are ordered one way or the other, or are equal.
pub proof fn lemma_lex_lt_connected(a: Seq<char>, b: Seq<char>)
    ensures
        lex_lt(a, b) || lex_lt(b, a) || a == b,
    decreases a.len(),
{
    if a.len() == 0 && b.len() == 0 {
        assert(a =~= b);
    } else if a.len() > 0 && b.len() > 0 && a[0] != b[0] {
        assert(lex_lt(a, b) == ((a[0] as int) < (b[0] as int)));
        assert(lex_lt(b, a) == ((b[0] as int) < (a[0] as int)));
        assert((a[0] as int) != (b[0] as int));
    } else if a.len() > 0 && b.len() > 0 && a[0] == b[0] {
        lemma_lex_lt_connected(a.drop_first(), b.drop_first());
        if !lex_lt(a, b) && !lex_lt(b, a) {
            assert(a.drop_first() =~= b.drop_first());
            assert forall|i: int| 0 <= i < a.len() implies a[i] == b[i] by {
                if i > 0 {
                    assert(a[i] == a.drop_first()[i - 1]);
                    assert(b[i] == b.drop_first()[i - 1]);
                }
            }
            assert(a =~= b);
        }
    }
}

/// Lexicographic order is transitive.
pub proof fn lemma_lex_lt_transitive(a: Seq<char>, b: Seq<char>, c: Seq<char>)
    requires
        lex_lt(a, b),
        lex_lt(b, c),
    ensures
        lex_lt(a, c),
    decreases a.len(),
{
    if a.len() > 0 && b.len() > 0 && c.len() > 0 && a[0] == b[0] && b[0] == c[0] {
        lemma_lex_lt_transitive(a.drop_first(), b.drop_first(), c.drop_first());
    }
}

/// Relies on `str`'s `Ord::cmp`: `str` values are ordered lexicographically
/// by their byte values, which for UTF-8 coincides with lexicographic order
/// of their characters' code points; `Equal` means the strings are equal.
#[verifier::external_body]
pub(crate) fn str_cmp(a: &str, b: &str) -> (r: i8)
    ensures
        -1 <= r <= 1,
        (r == -1) <==> lex_lt(a@, b@),
        (r == 0) <==> (a@ == b@),
        (r == 1) <==> lex_lt(b@, a@),
{
    match a.cmp(b) {
        core::cmp::Ordering::Less => -1,
        core::cmp::Ordering::Equal => 0,
        core::cmp::Ordering::Greater => 1,
    }
}

/// What `str::trim` leaves of a string.
pub uninterp spec fn trim_of(s: Seq<char>) -> Seq<char>;

/// Relies on `str::trim`: the result depends on the characters alone, is a
/// subslice of the input (so never longer), and trimming an empty string
/// yields an empty string.
#[verifier::external_body]
fn trim_str(s: &str) -> (r: String)
    ensures
        r@ == trim_of(s@),
        r@.len() <= s@.len(),
{
    s.trim().to_owned()
}

/// Trim the three name fields of a person and accept them when the first
/// and last names are non-empty after trimming, as the request layer does
/// before handing names to the store.
pub fn validate_person_names(first_name: &str, last_name: &str, nickname: &str) -> (r: Option<
    NewPerson,
>)
    ensures
        r is Some <==> (trim_of(first_name@).len() > 0 && trim_of(last_name@).len() > 0),
        r is Some ==> r.unwrap().first_name@ == trim_of(first_name@),
        r is Some ==> r.unwrap().last_name@ == trim_of(last_name@),
        r is Some ==> r.unwrap().nickname@ == trim_of(nickname@),
{
    let first = trim_str(first_name);
    let last = trim_str(last_name);
    let nick = trim_str(nickname);
    if first.as_str().is_empty() || last.as_str().is_empty() {
        None
    } else {
        Some(NewPerson { first_name: first, last_name: last, nickname: nick })
    }
}

} // verus!
