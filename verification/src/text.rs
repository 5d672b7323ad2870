//! Low-level text utilities: the identifier alphabet of the notation,
//! string equality over character sequences, and first-occurrence search.
//!
//! The notation's identifier alphabet is fixed here as ASCII letters and
//! digits plus `_ - + :`.  Keeping the alphabet exact and self-contained
//! lets every claim about parsing and display rest on verified code
//! alone; identifiers outside this alphabet are rejected as malformed
//! notation.

use vstd::prelude::*;

verus! {

/// An ASCII lower- or upper-case letter.
pub open spec fn is_letter(c: char) -> bool {
    ('a' as u32 <= c as u32 && c as u32 <= 'z' as u32) || ('A' as u32 <= c as u32 && c as u32
        <= 'Z' as u32)
}

/// An ASCII decimal digit.
pub open spec fn is_digit(c: char) -> bool {
    '0' as u32 <= c as u32 && c as u32 <= '9' as u32
}

/// A character allowed inside an atom: letters, digits and `_ - + :`.
pub open spec fn is_atom_char(c: char) -> bool {
    is_letter(c) || is_digit(c) || c == '_' || c == '-' || c == '+' || c == ':'
}

/// A valid atom: non-empty, not one of the reserved words `yes`/`no`,
/// a letter first, atom characters throughout.
pub open spec fn valid_atom(s: Seq<char>) -> bool {
    &&& s.len() > 0
    &&& s != "yes"@
    &&& s != "no"@
    &&& is_letter(s[0])
    &&& forall|i: int| 0 <= i < s.len() ==> is_atom_char(#[trigger] s[i])
}

/// Runtime check for [`is_letter`].
pub fn letter(c: char) -> (r: bool)
    ensures
        r == is_letter(c),
{
    let u = c as u32;
    (97 <= u && u <= 122) || (65 <= u && u <= 90)
}

/// Runtime check for [`is_atom_char`].
pub fn atom_char(c: char) -> (r: bool)
    ensures
        r == is_atom_char(c),
{
    let u = c as u32;
    (97 <= u && u <= 122) || (65 <= u && u <= 90) || (48 <= u && u <= 57) || c == '_' || c == '-'
        || c == '+' || c == ':'
}

/// Character-wise string equality, stated over the views.
pub fn str_eq(a: &str, b: &str) -> (r: bool)
    ensures
        r == (a@ == b@),
{
    let alen = a.unicode_len();
    let blen = b.unicode_len();
    if alen != blen {
        return false;
    }
    let mut i: usize = 0;
    while i < alen
        invariant
            alen == a@.len(),
            blen == b@.len(),
            alen == blen,
            0 <= i <= alen,
            forall|j: int| 0 <= j < i ==> a@[j] == b@[j],
        decreases alen - i,
    {
        if a.get_char(i) != b.get_char(i) {
            return false;
        }
        i = i + 1;
    }
    proof {
        assert(a@ =~= b@);
    }
    true
}

/// The index of the first occurrence of `c` in `s`, or `s.len()` if absent.
pub open spec fn find_index(s: Seq<char>, c: char) -> int
    decreases s.len(),
{
    if s.len() == 0 {
        0
    } else if s[0] == c {
        0
    } else {
        1 + find_index(s.subrange(1, s.len() as int), c)
    }
}

/// What [`find_index`] returns: the least index holding `c`, or the length.
pub proof fn lemma_find_index(s: Seq<char>, c: char)
    ensures
        0 <= find_index(s, c) <= s.len(),
        forall|j: int| 0 <= j < find_index(s, c) ==> s[j] != c,
        find_index(s, c) < s.len() ==> s[find_index(s, c)] == c,
    decreases s.len(),
{
    if s.len() == 0 {
    } else if s[0] == c {
    } else {
        let t = s.subrange(1, s.len() as int);
        lemma_find_index(t, c);
        assert forall|j: int| 0 <= j < find_index(s, c) implies s[j] != c by {
            if j > 0 {
                assert(t[j - 1] == s[j]);
            }
        }
        if find_index(s, c) < s.len() {
            assert(t[find_index(t, c)] == s[find_index(s, c)]);
        }
    }
}

/// [`find_index`] is pinned down by its characterisation.
pub proof fn lemma_find_index_is(s: Seq<char>, c: char, i: int)
    requires
        0 <= i <= s.len(),
        forall|j: int| 0 <= j < i ==> s[j] != c,
        i < s.len() ==> s[i] == c,
    ensures
        find_index(s, c) == i,
{
    lemma_find_index(s, c);
    let f = find_index(s, c);
    if f < i {
        assert(s[f] != c);
        assert(s[f] == c);
    }
    if i < f {
        assert(s[i] != c);
    }
}

/// Runtime search for the first occurrence of `c`; returns the length of
/// `s` when `c` does not occur.
pub fn find_char(s: &str, c: char) -> (r: usize)
    ensures
        r == find_index(s@, c),
{
    let n = s.unicode_len();
    let mut i: usize = 0;
    while i < n
        invariant
            n == s@.len(),
            0 <= i <= n,
            forall|j: int| 0 <= j < i ==> s@[j] != c,
        decreases n - i,
    {
        if s.get_char(i) == c {
            proof {
                lemma_find_index_is(s@, c, i as int);
            }
            return i;
        }
        i = i + 1;
    }
    proof {
        lemma_find_index_is(s@, c, n as int);
    }
    n
}

/// Whether `c` occurs in `s`.
pub open spec fn contains_char(s: Seq<char>, c: char) -> bool {
    find_index(s, c) < s.len()
}

} // verus!
