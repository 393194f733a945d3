//! Verified string helpers: equality of string slices, the blank-identifier
//! test, ASCII case folding and substring search.
//!
//! Identifiers are rejected when they are empty after trimming whitespace;
//! that is the same as having no non-whitespace character, which is how
//! [`id_valid`] states it. Case-insensitive matching for audit filters folds
//! ASCII letters only.

use vstd::prelude::*;

verus! {

/// The whitespace characters recognised when deciding whether an identifier
/// is blank: the ASCII whitespace set.
pub open spec fn is_space_char(c: char) -> bool {
    c == ' ' || c == '\t' || c == '\n' || c == '\r' || c == '\u{000B}' || c == '\u{000C}'
}

/// An identifier is valid when it is non-empty after trimming whitespace,
/// i.e. when it contains at least one non-whitespace character.
pub open spec fn id_valid(s: Seq<char>) -> bool {
    exists|i: int| 0 <= i < s.len() && !is_space_char(s[i])
}

/// Exec test for [`is_space_char`].
pub fn char_is_space(c: char) -> (r: bool)
    ensures
        r == is_space_char(c),
{
    c == ' ' || c == '\t' || c == '\n' || c == '\r' || c == '\u{000B}' || c == '\u{000C}'
}

/// Exec test for [`id_valid`]: does the string hold a non-whitespace
/// character?
pub fn check_id_valid(s: &str) -> (r: bool)
    ensures
        r == id_valid(s@),
{
    let n = s.unicode_len();
    let mut i: usize = 0;
    while i < n
        invariant
            n == s@.len(),
            0 <= i <= n,
            forall|t: int| 0 <= t < i ==> is_space_char(s@[t]),
        decreases n - i,
    {
        if !char_is_space(s.get_char(i)) {
            return true;
        }
        i = i + 1;
    }
    false
}

/// Equality of two string slices, decided character by character.
pub fn str_eq(a: &str, b: &str) -> (r: bool)
    ensures
        r == (a@ == b@),
{
    let na = a.unicode_len();
    let nb = b.unicode_len();
    if na != nb {
        assert(a@ != b@);
        return false;
    }
    let mut i: usize = 0;
    while i < na
        invariant
            na == a@.len(),
            na == b@.len(),
            0 <= i <= na,
            forall|t: int| 0 <= t < i ==> a@[t] == b@[t],
        decreases na - i,
    {
        if a.get_char(i) != b.get_char(i) {
            return false;
        }
        i = i + 1;
    }
    assert(a@ =~= b@);
    true
}

/// ASCII case folding of one character: `A`..`Z` map to `a`..`z`, everything
/// else is unchanged.
pub open spec fn lower_char(c: char) -> char {
    if 'A' <= c && c <= 'Z' {
        ((c as u32) + 32) as char
    } else {
        c
    }
}

/// ASCII case folding of a character sequence.
pub open spec fn lower_chars(s: Seq<char>) -> Seq<char> {
    Seq::new(s.len(), |i: int| lower_char(s[i]))
}

/// Exec ASCII case folding of one character.
pub fn char_to_lower(c: char) -> (r: char)
    ensures
        r == lower_char(c),
{
    match c {
        'A' => 'a',
        'B' => 'b',
        'C' => 'c',
        'D' => 'd',
        'E' => 'e',
        'F' => 'f',
        'G' => 'g',
        'H' => 'h',
        'I' => 'i',
        'J' => 'j',
        'K' => 'k',
        'L' => 'l',
        'M' => 'm',
        'N' => 'n',
        'O' => 'o',
        'P' => 'p',
        'Q' => 'q',
        'R' => 'r',
        'S' => 's',
        'T' => 't',
        'U' => 'u',
        'V' => 'v',
        'W' => 'w',
        'X' => 'x',
        'Y' => 'y',
        'Z' => 'z',
        _ => {
            assert(!('A' <= c && c <= 'Z'));
            c
        },
    }
}

/// `pat` occurs as a contiguous subsequence of `text` starting at `i`.
pub open spec fn matches_at(text: Seq<char>, pat: Seq<char>, i: int) -> bool {
    &&& 0 <= i
    &&& i + pat.len() <= text.len()
    &&& forall|t: int| 0 <= t < pat.len() ==> text[i + t] == pat[t]
}

/// `pat` occurs somewhere in `text`.
pub open spec fn contains_seq(text: Seq<char>, pat: Seq<char>) -> bool {
    exists|i: int| matches_at(text, pat, i)
}

/// Case-insensitive containment: the folded pattern occurs in the folded
/// text.
pub open spec fn contains_ci(text: Seq<char>, pat: Seq<char>) -> bool {
    contains_seq(lower_chars(text), lower_chars(pat))
}

fn matches_at_exec(text: &Vec<char>, pat: &Vec<char>, i: usize) -> (r: bool)
    requires
        i + pat@.len() <= text@.len(),
    ensures
        r == matches_at(text@, pat@, i as int),
{
    let n = text.len();
    let m = pat.len();
    let mut t: usize = 0;
    while t < m
        invariant
            n == text@.len(),
            m == pat@.len(),
            i + m <= n,
            0 <= t <= m,
            forall|u: int| 0 <= u < t ==> text@[i + u] == pat@[u],
        decreases m - t,
    {
        if text[i + t] != pat[t] {
            return false;
        }
        t = t + 1;
    }
    true
}

/// Substring search over character vectors.
pub fn contains_exec(text: &Vec<char>, pat: &Vec<char>) -> (r: bool)
    ensures
        r == contains_seq(text@, pat@),
{
    let n = text.len();
    let m = pat.len();
    if m > n {
        assert(forall|i: int| !matches_at(text@, pat@, i));
        return false;
    }
    let mut i: usize = 0;
    while i <= n - m
        invariant
            n == text@.len(),
            m == pat@.len(),
            m <= n,
            0 <= i <= n - m + 1,
            forall|t: int| 0 <= t < i ==> !matches_at(text@, pat@, t),
        decreases n - m + 1 - i,
    {
        if matches_at_exec(text, pat, i) {
            return true;
        }
        i = i + 1;
    }
    assert forall|t: int| !matches_at(text@, pat@, t) by {
        if 0 <= t && t + pat@.len() <= text@.len() {
            assert(t < i);
        }
    }
    false
}

/// The characters of a string slice, in order.
pub fn str_chars(s: &str) -> (r: Vec<char>)
    ensures
        r@ == s@,
{
    let n = s.unicode_len();
    let mut out: Vec<char> = Vec::new();
    let mut i: usize = 0;
    while i < n
        invariant
            n == s@.len(),
            0 <= i <= n,
            out@ =~= s@.subrange(0, i as int),
        decreases n - i,
    {
        out.push(s.get_char(i));
        i = i + 1;
    }
    assert(out@ =~= s@);
    out
}

/// Case folding of a character vector.
pub fn lower_vec(s: &Vec<char>) -> (r: Vec<char>)
    ensures
        r@ == lower_chars(s@),
{
    let n = s.len();
    let mut out: Vec<char> = Vec::new();
    let mut i: usize = 0;
    while i < n
        invariant
            n == s@.len(),
            0 <= i <= n,
            out@ =~= lower_chars(s@).subrange(0, i as int),
        decreases n - i,
    {
        out.push(char_to_lower(s[i]));
        i = i + 1;
    }
    assert(out@ =~= lower_chars(s@));
    out
}

} // verus!
