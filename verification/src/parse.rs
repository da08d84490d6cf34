//! Parse RDF
//!
//! The text-to-term pipeline: a lexical scanner over borrowed text
//! ([`lexer`]) and the grammar layer assembling validated terms and triples
//! ([`common`]). This module holds what both share: the character classes of
//! the syntax and the scanning functions their contracts are stated with.

pub mod common;
pub mod lexer;

use vstd::prelude::*;

verus! {

/// Character classes the scanner takes maximal runs of.
#[allow(missing_docs)]
#[derive(Clone, Copy, Debug, PartialEq, Eq, Structural)]
pub enum CharClass {
    /// Characters of a language tag: letters, digits and `-`.
    Tag,
    /// Characters of a blank-node name: letters, digits, `_` and `-`.
    Name,
    /// Characters of a keyword or prefixed name: letters, digits, `:`, `_`
    /// and `-`.
    Word,
    /// Decimal digits.
    Digit,
}

/// Inline whitespace: skipped between tokens, never part of one.
pub open spec fn is_ws_char(c: char) -> bool {
    c == ' ' || c == '\t' || c == '\r'
}

/// A decimal digit.
pub open spec fn is_digit_char(c: char) -> bool {
    48 <= c as u32 && c as u32 <= 57
}

/// An ASCII letter.
pub open spec fn is_alpha_char(c: char) -> bool {
    (65 <= c as u32 && c as u32 <= 90) || (97 <= c as u32 && c as u32 <= 122)
}

/// Membership in a [`CharClass`].
pub open spec fn in_class(k: CharClass, c: char) -> bool {
    match k {
        CharClass::Tag => is_alpha_char(c) || is_digit_char(c) || c == '-',
        CharClass::Name => is_alpha_char(c) || is_digit_char(c) || c == '_' || c == '-',
        CharClass::Word => is_alpha_char(c) || is_digit_char(c) || c == ':' || c == '_' || c
            == '-',
        CharClass::Digit => is_digit_char(c),
    }
}

/// The ASCII code of `c` with an upper-case letter folded to lower case.
pub open spec fn lower_code(c: char) -> u32 {
    if 65 <= c as u32 && c as u32 <= 90 {
        (c as u32 + 32) as u32
    } else {
        c as u32
    }
}

/// Case-insensitive equality of two character sequences (ASCII case folding).
pub open spec fn ci_eq(a: Seq<char>, b: Seq<char>) -> bool {
    a.len() == b.len() && forall|i: int| 0 <= i < a.len() ==> lower_code(a[i]) == lower_code(b[i])
}

/// The position of the first character at or after `p` that is not inline
/// whitespace (`s.len()` if every remaining character is).
pub open spec fn skip_ws(s: Seq<char>, p: int) -> int
    decreases s.len() - p,
{
    if p < 0 {
        p
    } else if p >= s.len() {
        s.len() as int
    } else if is_ws_char(s[p]) {
        skip_ws(s, p + 1)
    } else {
        p
    }
}

/// The position of the first occurrence of `c` at or after `p` (`s.len()` if
/// there is none).
pub open spec fn find_from(s: Seq<char>, p: int, c: char) -> int
    decreases s.len() - p,
{
    if p < 0 {
        p
    } else if p >= s.len() {
        s.len() as int
    } else if s[p] == c {
        p
    } else {
        find_from(s, p + 1, c)
    }
}

/// The position of the first character at or after `p` outside class `k`
/// (`s.len()` if every remaining character is in it): the end of the maximal
/// run of `k`-characters starting at `p`.
pub open spec fn scan_class(s: Seq<char>, p: int, k: CharClass) -> int
    decreases s.len() - p,
{
    if p < 0 {
        p
    } else if p >= s.len() {
        s.len() as int
    } else if in_class(k, s[p]) {
        scan_class(s, p + 1, k)
    } else {
        p
    }
}

/// What [`skip_ws`] returns: the first non-whitespace position, with only
/// whitespace before it.
pub proof fn lemma_skip_ws(s: Seq<char>, p: int)
    requires
        0 <= p <= s.len(),
    ensures
        p <= skip_ws(s, p) <= s.len(),
        skip_ws(s, p) < s.len() ==> !is_ws_char(s[skip_ws(s, p)]),
        forall|j: int| p <= j < skip_ws(s, p) ==> is_ws_char(s[j]),
    decreases s.len() - p,
{
    if p < s.len() && is_ws_char(s[p]) {
        lemma_skip_ws(s, p + 1);
    }
}

/// What [`find_from`] returns: it points at `c` when `c` occurs, and nothing
/// before it is `c`.
pub proof fn lemma_find_from(s: Seq<char>, p: int, c: char)
    requires
        0 <= p <= s.len(),
    ensures
        p <= find_from(s, p, c) <= s.len(),
        find_from(s, p, c) < s.len() ==> s[find_from(s, p, c)] == c,
        forall|j: int| p <= j < find_from(s, p, c) ==> s[j] != c,
    decreases s.len() - p,
{
    if p < s.len() && s[p] != c {
        lemma_find_from(s, p + 1, c);
    }
}

/// The converse characterization: a position `r` at `c` with no `c` before it
/// is what [`find_from`] returns; so is `s.len()` when `c` never occurs.
pub proof fn lemma_find_from_is(s: Seq<char>, p: int, c: char, r: int)
    requires
        0 <= p <= r <= s.len(),
        forall|j: int| p <= j < r ==> s[j] != c,
        r < s.len() ==> s[r] == c,
    ensures
        find_from(s, p, c) == r,
    decreases r - p,
{
    if p < r {
        lemma_find_from_is(s, p + 1, c, r);
    }
}

/// What [`scan_class`] returns: the first position outside the class, with
/// everything before it inside.
pub proof fn lemma_scan_class(s: Seq<char>, p: int, k: CharClass)
    requires
        0 <= p <= s.len(),
    ensures
        p <= scan_class(s, p, k) <= s.len(),
        scan_class(s, p, k) < s.len() ==> !in_class(k, s[scan_class(s, p, k)]),
        forall|j: int| p <= j < scan_class(s, p, k) ==> in_class(k, s[j]),
    decreases s.len() - p,
{
    if p < s.len() && in_class(k, s[p]) {
        lemma_scan_class(s, p + 1, k);
    }
}

/// The converse characterization: a position `r` outside the class with only
/// class characters before it is what [`scan_class`] returns; so is `s.len()`
/// when the run reaches the end.
pub proof fn lemma_scan_class_is(s: Seq<char>, p: int, k: CharClass, r: int)
    requires
        0 <= p <= r <= s.len(),
        forall|j: int| p <= j < r ==> in_class(k, s[j]),
        r < s.len() ==> !in_class(k, s[r]),
    ensures
        scan_class(s, p, k) == r,
    decreases r - p,
{
    if p < r {
        lemma_scan_class_is(s, p + 1, k, r);
    }
}

/// Whether `c` is inline whitespace.
pub fn is_ws(c: char) -> (b: bool)
    ensures
        b == is_ws_char(c),
{
    c == ' ' || c == '\t' || c == '\r'
}

/// Whether `c` is a decimal digit.
pub fn is_digit(c: char) -> (b: bool)
    ensures
        b == is_digit_char(c),
{
    let u = c as u32;
    48 <= u && u <= 57
}

/// Whether `c` is an ASCII letter.
pub fn is_alpha(c: char) -> (b: bool)
    ensures
        b == is_alpha_char(c),
{
    let u = c as u32;
    (65 <= u && u <= 90) || (97 <= u && u <= 122)
}

/// Whether `c` belongs to class `k`.
pub fn in_class_exec(k: CharClass, c: char) -> (b: bool)
    ensures
        b == in_class(k, c),
{
    match k {
        CharClass::Tag => is_alpha(c) || is_digit(c) || c == '-',
        CharClass::Name => is_alpha(c) || is_digit(c) || c == '_' || c == '-',
        CharClass::Word => is_alpha(c) || is_digit(c) || c == ':' || c == '_' || c == '-',
        CharClass::Digit => is_digit(c),
    }
}

/// The ASCII code of `c`, upper-case letters folded to lower case.
pub fn lower_code_exec(c: char) -> (u: u32)
    ensures
        u == lower_code(c),
{
    let u = c as u32;
    if 65 <= u && u <= 90 {
        u + 32
    } else {
        u
    }
}

} // verus!
