//! String helpers shared by the library: exact comparison, substring search
//! and case folding.

use vstd::prelude::*;
use vstd::string::*;

verus! {

broadcast use vstd::string::group_string_axioms;

/// What `str::to_lowercase` returns for a string: it depends on the
/// characters alone.
pub uninterp spec fn lower_of(s: Seq<char>) -> Seq<char>;

/// Relies on `str::to_lowercase`: the lowercase form of the characters, and an
/// empty string stays empty.
#[verifier::external_body]
pub(crate) fn lowercase(s: &str) -> (r: String)
    ensures
        r@ == lower_of(s@),
        s@.len() == 0 ==> r@.len() == 0,
{
    s.to_lowercase()
}

/// `needle` occurs in `hay` as a contiguous run of characters.
pub open spec fn contains_seq(hay: Seq<char>, needle: Seq<char>) -> bool {
    exists|i: int|
        0 <= i && i + needle.len() <= hay.len() && #[trigger] hay.subrange(i, i + needle.len())
            == needle
}

/// `prefix` starts `hay`.
pub open spec fn starts_with_seq(hay: Seq<char>, prefix: Seq<char>) -> bool {
    prefix.len() <= hay.len() && hay.subrange(0, prefix.len() as int) == prefix
}

/// Case-insensitive substring match: the folded query occurs in the folded text.
pub open spec fn matches_query(text: Seq<char>, query: Seq<char>) -> bool {
    contains_seq(lower_of(text), lower_of(query))
}

/// Exact comparison of two string slices, character by character.
pub fn str_eq(a: &str, b: &str) -> (r: bool)
    ensures
        r == (a@ == b@),
{
    let n = a.unicode_len();
    if n != b.unicode_len() {
        return false;
    }
    let mut i: usize = 0;
    while i < n
        invariant
            n == a@.len(),
            n == b@.len(),
            i <= n,
            a@.subrange(0, i as int) == b@.subrange(0, i as int),
        decreases n - i,
    {
        if a.get_char(i) != b.get_char(i) {
            return false;
        }
        assert(a@.subrange(0, i + 1) =~= a@.subrange(0, i as int).push(a@[i as int]));
        assert(b@.subrange(0, i + 1) =~= b@.subrange(0, i as int).push(b@[i as int]));
        i = i + 1;
    }
    assert(a@ =~= a@.subrange(0, n as int));
    assert(b@ =~= b@.subrange(0, n as int));
    true
}

/// Whether `prefix` starts `hay`.
pub fn starts_with(hay: &str, prefix: &str) -> (r: bool)
    ensures
        r == starts_with_seq(hay@, prefix@),
{
    let n = hay.unicode_len();
    let m = prefix.unicode_len();
    if m > n {
        return false;
    }
    let mut i: usize = 0;
    while i < m
        invariant
            n == hay@.len(),
            m == prefix@.len(),
            m <= n,
            i <= m,
            hay@.subrange(0, i as int) == prefix@.subrange(0, i as int),
        decreases m - i,
    {
        if hay.get_char(i) != prefix.get_char(i) {
            assert(hay@.subrange(0, m as int)[i as int] != prefix@[i as int]);
            return false;
        }
        assert(hay@.subrange(0, i + 1) =~= hay@.subrange(0, i as int).push(hay@[i as int]));
        assert(prefix@.subrange(0, i + 1) =~= prefix@.subrange(0, i as int).push(
            prefix@[i as int],
        ));
        i = i + 1;
    }
    assert(prefix@ =~= prefix@.subrange(0, m as int));
    true
}

/// Whether `needle` occurs at position `at` of `hay`.
fn occurs_at(hay: &str, needle: &str, at: usize) -> (r: bool)
    requires
        at + needle@.len() <= hay@.len(),
    ensures
        r == (hay@.subrange(at as int, at + needle@.len()) == needle@),
{
    let n = hay.unicode_len();
    let m = needle.unicode_len();
    let mut i: usize = 0;
    while i < m
        invariant
            n == hay@.len(),
            m == needle@.len(),
            at + m <= hay@.len(),
            i <= m,
            hay@.subrange(at as int, at + i) == needle@.subrange(0, i as int),
        decreases m - i,
    {
        if hay.get_char(at + i) != needle.get_char(i) {
            assert(hay@.subrange(at as int, at + m)[i as int] != needle@[i as int]);
            return false;
        }
        assert(hay@.subrange(at as int, at + i + 1) =~= hay@.subrange(at as int, at + i).push(
            hay@[at + i],
        ));
        assert(needle@.subrange(0, i + 1) =~= needle@.subrange(0, i as int).push(
            needle@[i as int],
        ));
        i = i + 1;
    }
    assert(needle@ =~= needle@.subrange(0, m as int));
    true
}

/// Whether `needle` occurs anywhere in `hay`.
pub fn contains(hay: &str, needle: &str) -> (r: bool)
    ensures
        r == contains_seq(hay@, needle@),
{
    let n = hay.unicode_len();
    let m = needle.unicode_len();
    if m > n {
        return false;
    }
    if m == 0 {
        assert(hay@.subrange(0, 0 + needle@.len() as int) =~= needle@);
        return true;
    }
    let mut at: usize = 0;
    while at <= n - m
        invariant
            n == hay@.len(),
            m == needle@.len(),
            1 <= m <= n,
            at <= n - m + 1,
            forall|j: int| 0 <= j < at ==> #[trigger] hay@.subrange(j, j + m) != needle@,
        decreases n - m + 1 - at,
    {
        if occurs_at(hay, needle, at) {
            return true;
        }
        at = at + 1;
    }
    false
}

/// Case-insensitive substring test of `query` in `text`.
pub fn matches_text(text: &str, query: &str) -> (r: bool)
    ensures
        r == matches_query(text@, query@),
{
    let t = lowercase(text);
    let q = lowercase(query);
    contains(t.as_str(), q.as_str())
}

/// A copy of a string slice as an owned string.
pub fn owned(s: &str) -> (r: String)
    ensures
        r@ == s@,
{
    s.to_string()
}

} // verus!

verus! {

/// What `char::is_whitespace` says of a character.
pub uninterp spec fn is_space(c: char) -> bool;

/// Relies on `char::is_whitespace`: whether the character has the Unicode
/// White_Space property; the space character has it.
#[verifier::external_body]
pub(crate) fn char_is_whitespace(c: char) -> (r: bool)
    ensures
        r == is_space(c),
        c == ' ' ==> r,
{
    c.is_whitespace()
}

/// First position at or after `i` whose character is not whitespace.
pub open spec fn skip_space(s: Seq<char>, i: int) -> int
    decreases s.len() - i,
{
    if i >= s.len() || i < 0 {
        i
    } else if is_space(s[i]) {
        skip_space(s, i + 1)
    } else {
        i
    }
}

/// First position at or after `i` whose character is whitespace.
pub open spec fn skip_word(s: Seq<char>, i: int) -> int
    decreases s.len() - i,
{
    if i >= s.len() || i < 0 {
        i
    } else if is_space(s[i]) {
        i
    } else {
        skip_word(s, i + 1)
    }
}

/// The first whitespace-separated word of `s`, if any.
pub open spec fn first_word(s: Seq<char>) -> Option<Seq<char>> {
    let a = skip_space(s, 0);
    if a >= s.len() {
        None
    } else {
        Some(s.subrange(a, skip_word(s, a)))
    }
}

proof fn lemma_skip_bounds(s: Seq<char>, i: int)
    requires
        0 <= i <= s.len(),
    ensures
        i <= skip_space(s, i) <= s.len(),
        i <= skip_word(s, i) <= s.len(),
    decreases s.len() - i,
{
    if i < s.len() {
        lemma_skip_bounds(s, i + 1);
    }
}

/// The first whitespace-separated word of `s`, if any.
pub fn first_word_of(s: &str) -> (r: Option<String>)
    ensures
        match r {
            None => first_word(s@).is_none(),
            Some(w) => first_word(s@) == Some(w@),
        },
{
    let n = s.unicode_len();
    let mut a: usize = 0;
    proof {
        lemma_skip_bounds(s@, 0);
    }
    while a < n && char_is_whitespace(s.get_char(a))
        invariant
            n == s@.len(),
            a <= n,
            skip_space(s@, a as int) == skip_space(s@, 0),
        decreases n - a,
    {
        a = a + 1;
    }
    if a >= n {
        return None;
    }
    let mut b: usize = a;
    while b < n && !char_is_whitespace(s.get_char(b))
        invariant
            n == s@.len(),
            a < n,
            a == skip_space(s@, 0),
            a <= b <= n,
            skip_word(s@, b as int) == skip_word(s@, a as int),
        decreases n - b,
    {
        b = b + 1;
    }
    let w = owned(s.substring_char(a, b));
    Some(w)
}

} // verus!

verus! {

/// What `str::to_uppercase` returns for a string: it depends on the
/// characters alone.
pub uninterp spec fn upper_of(s: Seq<char>) -> Seq<char>;

/// Relies on `str::to_uppercase`: the uppercase form of the characters.
#[verifier::external_body]
pub(crate) fn uppercase(s: &str) -> (r: String)
    ensures
        r@ == upper_of(s@),
{
    s.to_uppercase()
}

} // verus!
