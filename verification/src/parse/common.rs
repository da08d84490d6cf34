//! # Parse RDF
//!
//! The grammar layer: recursive-descent leaf productions over raw text,
//! assembling validated [`Term`] and [`Triple`] values. Each production
//! consumes a prefix of its input and hands back the rest, or fails at an
//! exact offset; a failed alternative consumes nothing. Each has a
//! specification function (`spec_...`) that pins down the parse for every
//! input, and the executable production returns exactly what it says.

use vstd::prelude::*;

use crate::lowlevel::Term;
use crate::lowlevel::TermV;
use crate::lowlevel::Triple;
use crate::lowlevel::TripleV;
use crate::lowlevel::term_wf;
use crate::lowlevel::triple_wf;
use crate::parse::CharClass;
use crate::parse::find_from;
use crate::parse::in_class;
use crate::parse::is_alpha;
use crate::parse::is_alpha_char;
use crate::parse::is_ws;
use crate::parse::lemma_find_from;
use crate::parse::lemma_find_from_is;
use crate::parse::lemma_scan_class;
use crate::parse::lemma_scan_class_is;
use crate::parse::lemma_skip_ws;
use crate::parse::scan_class;
use crate::parse::skip_ws;

verus! {

/// A grammar failure: the character offset at which the current production
/// could not continue.
#[allow(missing_docs)]
#[derive(Clone, Copy, Debug, PartialEq, Eq)]
pub struct ParseError {
    pub offset: usize,
}

/// The outcome of a leaf production: the bounds of the value it matched and
/// the position of the rest of the input, or the offset where it failed.
#[allow(missing_docs)]
pub ghost enum SpanResult {
    Found { lo: int, hi: int, next: int },
    Failed { at: int },
}

/// The outcome of a term production: the term it built and the position of
/// the rest of the input, or the offset where it failed.
#[allow(missing_docs)]
pub ghost enum TermResult {
    Found { term: TermV, next: int },
    Failed { at: int },
}

/// The outcome of the triple production.
#[allow(missing_docs)]
pub ghost enum TripleResult {
    Found { triple: TripleV, next: int },
    Failed { at: int },
}

/// An IRI reference at `p`: `<`, one or more characters none of which is
/// `>`, then `>`. The value is what stands strictly between the brackets.
pub open spec fn spec_iriref(s: Seq<char>, p: int) -> SpanResult {
    if 0 <= p < s.len() && s[p] == '<' {
        let e = find_from(s, p + 1, '>');
        if e < s.len() && e > p + 1 {
            SpanResult::Found { lo: p + 1, hi: e, next: e + 1 }
        } else {
            SpanResult::Failed { at: p }
        }
    } else {
        SpanResult::Failed { at: p }
    }
}

/// A quoted string literal at `p`: `"`, one or more characters none of which
/// is `"`, then `"`. The value excludes the quotes.
pub open spec fn spec_string_literal_quote(s: Seq<char>, p: int) -> SpanResult {
    if 0 <= p < s.len() && s[p] == '"' {
        let e = find_from(s, p + 1, '"');
        if e < s.len() && e > p + 1 {
            SpanResult::Found { lo: p + 1, hi: e, next: e + 1 }
        } else {
            SpanResult::Failed { at: p }
        }
    } else {
        SpanResult::Failed { at: p }
    }
}

/// A blank-node label at `p`: `_:` followed by one or more name characters;
/// the value is the name after `_:`, running to the next delimiter.
pub open spec fn spec_blanknodelabel(s: Seq<char>, p: int) -> SpanResult {
    if 0 <= p && p + 1 < s.len() && s[p] == '_' && s[p + 1] == ':' {
        let e = scan_class(s, p + 2, CharClass::Name);
        if e > p + 2 {
            SpanResult::Found { lo: p + 2, hi: e, next: e }
        } else {
            SpanResult::Failed { at: p }
        }
    } else {
        SpanResult::Failed { at: p }
    }
}

/// A language tag at `p`: `@` followed by a tag that begins with a letter
/// and runs over letters, digits and `-`.
pub open spec fn spec_langtag(s: Seq<char>, p: int) -> SpanResult {
    if 0 <= p && p + 1 < s.len() && s[p] == '@' && is_alpha_char(s[p + 1]) {
        let e = scan_class(s, p + 1, CharClass::Tag);
        SpanResult::Found { lo: p + 1, hi: e, next: e }
    } else {
        SpanResult::Failed { at: p }
    }
}

/// A datatype suffix at `p`: the two-character marker `^^` followed by a
/// well-formed IRI reference; the marker without a valid reference is a
/// failure. The value is the reference's.
pub open spec fn spec_datatype(s: Seq<char>, p: int) -> SpanResult {
    if 0 <= p && p + 1 < s.len() && s[p] == '^' && s[p + 1] == '^' {
        spec_iriref(s, p + 2)
    } else {
        SpanResult::Failed { at: p }
    }
}

/// A literal at `p`: a mandatory quoted string plus an optional trailing
/// suffix that is either a language tag or a datatype, never both. The
/// choice is purely syntactic — `@` after the closing quote demands a
/// language tag, `^` demands a datatype — and a second suffix directly
/// after the first is rejected.
pub open spec fn spec_literal(s: Seq<char>, p: int) -> TermResult {
    match spec_string_literal_quote(s, p) {
        SpanResult::Failed { at } => TermResult::Failed { at },
        SpanResult::Found { lo, hi, next } => {
            let v = s.subrange(lo, hi);
            if next < s.len() && s[next] == '@' {
                match spec_langtag(s, next) {
                    SpanResult::Failed { at } => TermResult::Failed { at },
                    SpanResult::Found { lo: l2, hi: h2, next: n2 } => {
                        if n2 < s.len() && (s[n2] == '@' || s[n2] == '^') {
                            TermResult::Failed { at: n2 }
                        } else {
                            TermResult::Found {
                                term: TermV::Literal {
                                    value: v,
                                    language: Some(s.subrange(l2, h2)),
                                    datatype: None,
                                },
                                next: n2,
                            }
                        }
                    },
                }
            } else if next < s.len() && s[next] == '^' {
                match spec_datatype(s, next) {
                    SpanResult::Failed { at } => TermResult::Failed { at },
                    SpanResult::Found { lo: l2, hi: h2, next: n2 } => {
                        if n2 < s.len() && (s[n2] == '@' || s[n2] == '^') {
                            TermResult::Failed { at: n2 }
                        } else {
                            TermResult::Found {
                                term: TermV::Literal {
                                    value: v,
                                    language: None,
                                    datatype: Some(s.subrange(l2, h2)),
                                },
                                next: n2,
                            }
                        }
                    },
                }
            } else {
                TermResult::Found {
                    term: TermV::Literal { value: v, language: None, datatype: None },
                    next,
                }
            }
        },
    }
}

/// A term at `p`, decided by its first character: `<` an IRI reference
/// yielding a named node, `_` a blank-node label yielding a blank node, `"`
/// a literal.
pub open spec fn spec_term(s: Seq<char>, p: int) -> TermResult {
    if 0 <= p < s.len() {
        if s[p] == '<' {
            match spec_iriref(s, p) {
                SpanResult::Found { lo, hi, next } => TermResult::Found {
                    term: TermV::NamedNode { value: s.subrange(lo, hi) },
                    next,
                },
                SpanResult::Failed { at } => TermResult::Failed { at },
            }
        } else if s[p] == '_' {
            match spec_blanknodelabel(s, p) {
                SpanResult::Found { lo, hi, next } => TermResult::Found {
                    term: TermV::BlankNode { value: s.subrange(lo, hi) },
                    next,
                },
                SpanResult::Failed { at } => TermResult::Failed { at },
            }
        } else if s[p] == '"' {
            spec_literal(s, p)
        } else {
            TermResult::Failed { at: p }
        }
    } else {
        TermResult::Failed { at: p }
    }
}

/// A triple at `p`: subject, predicate and object terms separated by inline
/// whitespace, closed by a period. The predicate must be a named node; a
/// predicate of another shape fails at its own position.
pub open spec fn spec_triple(s: Seq<char>, p: int) -> TripleResult {
    let p1 = skip_ws(s, p);
    match spec_term(s, p1) {
        TermResult::Failed { at } => TripleResult::Failed { at },
        TermResult::Found { term: subject, next: n1 } => {
            let p2 = skip_ws(s, n1);
            match spec_term(s, p2) {
                TermResult::Failed { at } => TripleResult::Failed { at },
                TermResult::Found { term: predicate, next: n2 } => {
                    if !(predicate is NamedNode) {
                        TripleResult::Failed { at: p2 }
                    } else {
                        let p3 = skip_ws(s, n2);
                        match spec_term(s, p3) {
                            TermResult::Failed { at } => TripleResult::Failed { at },
                            TermResult::Found { term: object, next: n3 } => {
                                let p4 = skip_ws(s, n3);
                                if p4 < s.len() && s[p4] == '.' {
                                    TripleResult::Found {
                                        triple: TripleV { subject, predicate, object },
                                        next: p4 + 1,
                                    }
                                } else {
                                    TripleResult::Failed { at: p4 }
                                }
                            },
                        }
                    }
                },
            }
        },
    }
}

/// The position of the first occurrence of `c` at or after `from`.
#[verifier::loop_isolation(false)]
fn find_char(s: &str, from: usize, c: char) -> (r: usize)
    requires
        from as int <= s@.len(),
    ensures
        from <= r,
        r as int == find_from(s@, from as int, c),
{
    let n = s.unicode_len();
    let mut i: usize = from;
    while i < n
        invariant
            from <= i <= n,
            forall|j: int| from <= j < i ==> s@[j] != c,
        decreases n - i,
    {
        if s.get_char(i) == c {
            proof {
                lemma_find_from_is(s@, from as int, c, i as int);
            }
            return i;
        }
        i = i + 1;
    }
    proof {
        lemma_find_from_is(s@, from as int, c, n as int);
    }
    n
}

/// The end of the maximal run of class-`k` characters starting at `from`.
#[verifier::loop_isolation(false)]
fn class_end(s: &str, from: usize, k: CharClass) -> (r: usize)
    requires
        from as int <= s@.len(),
    ensures
        from <= r,
        r as int == scan_class(s@, from as int, k),
{
    let n = s.unicode_len();
    let mut i: usize = from;
    while i < n
        invariant
            from <= i <= n,
            forall|j: int| from <= j < i ==> in_class(k, s@[j]),
        decreases n - i,
    {
        if !crate::parse::in_class_exec(k, s.get_char(i)) {
            proof {
                lemma_scan_class_is(s@, from as int, k, i as int);
            }
            return i;
        }
        i = i + 1;
    }
    proof {
        lemma_scan_class_is(s@, from as int, k, n as int);
    }
    n
}

/// The position of the first character at or after `from` that is not
/// inline whitespace.
#[verifier::loop_isolation(false)]
fn ws_end(s: &str, from: usize) -> (r: usize)
    requires
        from as int <= s@.len(),
    ensures
        from <= r,
        r as int == skip_ws(s@, from as int),
{
    let n = s.unicode_len();
    let mut i: usize = from;
    while i < n && is_ws(s.get_char(i))
        invariant
            from <= i <= n,
            skip_ws(s@, from as int) == skip_ws(s@, i as int),
        decreases n - i,
    {
        i = i + 1;
    }
    i
}

/// The IRI-reference production at position `p`, yielding the value's text
/// and the position of the rest.
fn iriref_at<'a>(s: &'a str, p: usize) -> (r: Result<(&'a str, usize), ParseError>)
    requires
        p as int <= s@.len(),
    ensures
        match spec_iriref(s@, p as int) {
            SpanResult::Found { lo, hi, next } => r matches Ok((v, np)) && v@ == s@.subrange(
                lo,
                hi,
            ) && np as int == next && np as int <= s@.len(),
            SpanResult::Failed { at } => r matches Err(e) && e.offset as int == at,
        },
{
    let n = s.unicode_len();
    if p < n && s.get_char(p) == '<' {
        let e = find_char(s, p + 1, '>');
        proof {
            lemma_find_from(s@, p + 1 as int, '>');
        }
        if e < n && e > p + 1 {
            Ok((s.substring_char(p + 1, e), e + 1))
        } else {
            Err(ParseError { offset: p })
        }
    } else {
        Err(ParseError { offset: p })
    }
}

/// The quoted-string production at position `p`.
fn string_literal_quote_at<'a>(s: &'a str, p: usize) -> (r: Result<(&'a str, usize), ParseError>)
    requires
        p as int <= s@.len(),
    ensures
        match spec_string_literal_quote(s@, p as int) {
            SpanResult::Found { lo, hi, next } => r matches Ok((v, np)) && v@ == s@.subrange(
                lo,
                hi,
            ) && np as int == next && np as int <= s@.len(),
            SpanResult::Failed { at } => r matches Err(e) && e.offset as int == at,
        },
{
    let n = s.unicode_len();
    if p < n && s.get_char(p) == '"' {
        let e = find_char(s, p + 1, '"');
        proof {
            lemma_find_from(s@, p + 1 as int, '"');
        }
        if e < n && e > p + 1 {
            Ok((s.substring_char(p + 1, e), e + 1))
        } else {
            Err(ParseError { offset: p })
        }
    } else {
        Err(ParseError { offset: p })
    }
}

/// The blank-node-label production at position `p`.
fn blanknodelabel_at<'a>(s: &'a str, p: usize) -> (r: Result<(&'a str, usize), ParseError>)
    requires
        p as int <= s@.len(),
    ensures
        match spec_blanknodelabel(s@, p as int) {
            SpanResult::Found { lo, hi, next } => r matches Ok((v, np)) && v@ == s@.subrange(
                lo,
                hi,
            ) && np as int == next && np as int <= s@.len(),
            SpanResult::Failed { at } => r matches Err(e) && e.offset as int == at,
        },
{
    let n = s.unicode_len();
    if p < n && p + 1 < n && s.get_char(p) == '_' && s.get_char(p + 1) == ':' {
        let e = class_end(s, p + 2, CharClass::Name);
        proof {
            lemma_scan_class(s@, p + 2 as int, CharClass::Name);
        }
        if e > p + 2 {
            Ok((s.substring_char(p + 2, e), e))
        } else {
            Err(ParseError { offset: p })
        }
    } else {
        Err(ParseError { offset: p })
    }
}

/// The language-tag production at position `p`.
fn langtag_at<'a>(s: &'a str, p: usize) -> (r: Result<(&'a str, usize), ParseError>)
    requires
        p as int <= s@.len(),
    ensures
        match spec_langtag(s@, p as int) {
            SpanResult::Found { lo, hi, next } => r matches Ok((v, np)) && v@ == s@.subrange(
                lo,
                hi,
            ) && np as int == next && np as int <= s@.len(),
            SpanResult::Failed { at } => r matches Err(e) && e.offset as int == at,
        },
{
    let n = s.unicode_len();
    if p < n && p + 1 < n && s.get_char(p) == '@' && is_alpha(s.get_char(p + 1)) {
        let e = class_end(s, p + 1, CharClass::Tag);
        proof {
            lemma_scan_class(s@, p + 1 as int, CharClass::Tag);
        }
        Ok((s.substring_char(p + 1, e), e))
    } else {
        Err(ParseError { offset: p })
    }
}

/// The datatype-suffix production at position `p`.
fn datatype_at<'a>(s: &'a str, p: usize) -> (r: Result<(&'a str, usize), ParseError>)
    requires
        p as int <= s@.len(),
    ensures
        match spec_datatype(s@, p as int) {
            SpanResult::Found { lo, hi, next } => r matches Ok((v, np)) && v@ == s@.subrange(
                lo,
                hi,
            ) && np as int == next && np as int <= s@.len(),
            SpanResult::Failed { at } => r matches Err(e) && e.offset as int == at,
        },
{
    let n = s.unicode_len();
    if p < n && p + 1 < n && s.get_char(p) == '^' && s.get_char(p + 1) == '^' {
        iriref_at(s, p + 2)
    } else {
        Err(ParseError { offset: p })
    }
}

/// The literal production at position `p`, yielding the built term.
fn literal_at<'a>(s: &'a str, p: usize) -> (r: Result<(Term<'a>, usize), ParseError>)
    requires
        p as int <= s@.len(),
    ensures
        match spec_literal(s@, p as int) {
            TermResult::Found { term, next } => r matches Ok((t, np)) && t@ == term && np as int
                == next && np as int <= s@.len(),
            TermResult::Failed { at } => r matches Err(e) && e.offset as int == at,
        },
{
    let n = s.unicode_len();
    match string_literal_quote_at(s, p) {
        Err(e) => Err(e),
        Ok((v, next)) => {
            if next < n && s.get_char(next) == '@' {
                match langtag_at(s, next) {
                    Err(e) => Err(e),
                    Ok((l, n2)) => {
                        if n2 < n && (s.get_char(n2) == '@' || s.get_char(n2) == '^') {
                            Err(ParseError { offset: n2 })
                        } else {
                            Ok((Term::Literal { value: v, language: Some(l), datatype: None }, n2))
                        }
                    },
                }
            } else if next < n && s.get_char(next) == '^' {
                match datatype_at(s, next) {
                    Err(e) => Err(e),
                    Ok((d, n2)) => {
                        if n2 < n && (s.get_char(n2) == '@' || s.get_char(n2) == '^') {
                            Err(ParseError { offset: n2 })
                        } else {
                            Ok((Term::Literal { value: v, language: None, datatype: Some(d) }, n2))
                        }
                    },
                }
            } else {
                Ok((Term::Literal { value: v, language: None, datatype: None }, next))
            }
        },
    }
}

/// The term production at position `p`.
fn term_at<'a>(s: &'a str, p: usize) -> (r: Result<(Term<'a>, usize), ParseError>)
    requires
        p as int <= s@.len(),
    ensures
        match spec_term(s@, p as int) {
            TermResult::Found { term, next } => r matches Ok((t, np)) && t@ == term && np as int
                == next && np as int <= s@.len(),
            TermResult::Failed { at } => r matches Err(e) && e.offset as int == at,
        },
{
    let n = s.unicode_len();
    if p < n {
        let c = s.get_char(p);
        if c == '<' {
            match iriref_at(s, p) {
                Ok((v, np)) => Ok((Term::NamedNode { value: v }, np)),
                Err(e) => Err(e),
            }
        } else if c == '_' {
            match blanknodelabel_at(s, p) {
                Ok((v, np)) => Ok((Term::BlankNode { value: v }, np)),
                Err(e) => Err(e),
            }
        } else if c == '"' {
            literal_at(s, p)
        } else {
            Err(ParseError { offset: p })
        }
    } else {
        Err(ParseError { offset: p })
    }
}

/// The rest of the input from position `np` on.
fn rest_of<'a>(s: &'a str, np: usize) -> (r: &'a str)
    requires
        np as int <= s@.len(),
    ensures
        r@ == s@.subrange(np as int, s@.len() as int),
{
    let n = s.unicode_len();
    s.substring_char(np, n)
}

/// Parse an IRI reference at the start of `input`: `<`, the value, `>`.
/// On success the result carries the remaining input and the value between
/// the brackets; [`spec_iriref`] says exactly which inputs succeed.
pub fn iriref<'a>(input: &'a str) -> (r: Result<(&'a str, &'a str), ParseError>)
    ensures
        match spec_iriref(input@, 0) {
            SpanResult::Found { lo, hi, next } => r matches Ok((rest, v)) && v@ == input@.subrange(
                lo,
                hi,
            ) && rest@ == input@.subrange(next, input@.len() as int),
            SpanResult::Failed { at } => r matches Err(e) && e.offset as int == at,
        },
{
    match iriref_at(input, 0) {
        Ok((v, np)) => Ok((rest_of(input, np), v)),
        Err(e) => Err(e),
    }
}

/// Parse a blank-node label at the start of `input`: `_:` then the name.
pub fn blanknodelabel<'a>(input: &'a str) -> (r: Result<(&'a str, &'a str), ParseError>)
    ensures
        match spec_blanknodelabel(input@, 0) {
            SpanResult::Found { lo, hi, next } => r matches Ok((rest, v)) && v@ == input@.subrange(
                lo,
                hi,
            ) && rest@ == input@.subrange(next, input@.len() as int),
            SpanResult::Failed { at } => r matches Err(e) && e.offset as int == at,
        },
{
    match blanknodelabel_at(input, 0) {
        Ok((v, np)) => Ok((rest_of(input, np), v)),
        Err(e) => Err(e),
    }
}

/// Parse a datatype suffix at the start of `input`: `^^` then an IRI
/// reference, whose value is returned.
pub fn datatype<'a>(input: &'a str) -> (r: Result<(&'a str, &'a str), ParseError>)
    ensures
        match spec_datatype(input@, 0) {
            SpanResult::Found { lo, hi, next } => r matches Ok((rest, v)) && v@ == input@.subrange(
                lo,
                hi,
            ) && rest@ == input@.subrange(next, input@.len() as int),
            SpanResult::Failed { at } => r matches Err(e) && e.offset as int == at,
        },
{
    match datatype_at(input, 0) {
        Ok((v, np)) => Ok((rest_of(input, np), v)),
        Err(e) => Err(e),
    }
}

/// Parse a language tag at the start of `input`: `@` then the tag.
pub fn langtag<'a>(input: &'a str) -> (r: Result<(&'a str, &'a str), ParseError>)
    ensures
        match spec_langtag(input@, 0) {
            SpanResult::Found { lo, hi, next } => r matches Ok((rest, v)) && v@ == input@.subrange(
                lo,
                hi,
            ) && rest@ == input@.subrange(next, input@.len() as int),
            SpanResult::Failed { at } => r matches Err(e) && e.offset as int == at,
        },
{
    match langtag_at(input, 0) {
        Ok((v, np)) => Ok((rest_of(input, np), v)),
        Err(e) => Err(e),
    }
}

/// Parse a quoted string literal at the start of `input`; the value excludes
/// the quotes.
pub fn string_literal_quote<'a>(input: &'a str) -> (r: Result<(&'a str, &'a str), ParseError>)
    ensures
        match spec_string_literal_quote(input@, 0) {
            SpanResult::Found { lo, hi, next } => r matches Ok((rest, v)) && v@ == input@.subrange(
                lo,
                hi,
            ) && rest@ == input@.subrange(next, input@.len() as int),
            SpanResult::Failed { at } => r matches Err(e) && e.offset as int == at,
        },
{
    match string_literal_quote_at(input, 0) {
        Ok((v, np)) => Ok((rest_of(input, np), v)),
        Err(e) => Err(e),
    }
}

/// Parse a literal at the start of `input`: a quoted string with an optional
/// language tag or datatype suffix — never both, as [`spec_literal`] states.
pub fn literal<'a>(input: &'a str) -> (r: Result<(&'a str, Term<'a>), ParseError>)
    ensures
        match spec_literal(input@, 0) {
            TermResult::Found { term, next } => r matches Ok((rest, t)) && t@ == term && rest@
                == input@.subrange(next, input@.len() as int),
            TermResult::Failed { at } => r matches Err(e) && e.offset as int == at,
        },
{
    match literal_at(input, 0) {
        Ok((t, np)) => Ok((rest_of(input, np), t)),
        Err(e) => Err(e),
    }
}

/// Parse one term at the start of `input`: an IRI reference, a blank-node
/// label, or a literal, decided by the first character.
pub fn term<'a>(input: &'a str) -> (r: Result<(&'a str, Term<'a>), ParseError>)
    ensures
        match spec_term(input@, 0) {
            TermResult::Found { term, next } => r matches Ok((rest, t)) && t@ == term && rest@
                == input@.subrange(next, input@.len() as int),
            TermResult::Failed { at } => r matches Err(e) && e.offset as int == at,
        },
{
    match term_at(input, 0) {
        Ok((t, np)) => Ok((rest_of(input, np), t)),
        Err(e) => Err(e),
    }
}

/// Parse one triple at the start of `input`: subject, predicate and object
/// terms separated by inline whitespace and closed by a period. The
/// predicate must be a named node.
pub fn triple<'a>(input: &'a str) -> (r: Result<(&'a str, Triple<'a>), ParseError>)
    ensures
        match spec_triple(input@, 0) {
            TripleResult::Found { triple, next } => r matches Ok((rest, t)) && t@ == triple
                && rest@ == input@.subrange(next, input@.len() as int),
            TripleResult::Failed { at } => r matches Err(e) && e.offset as int == at,
        },
{
    let s = input;
    let n = s.unicode_len();
    let p1 = ws_end(s, 0);
    proof {
        lemma_skip_ws(s@, 0);
    }
    match term_at(s, p1) {
        Err(e) => Err(e),
        Ok((subject, n1)) => {
            let p2 = ws_end(s, n1);
            proof {
                lemma_skip_ws(s@, n1 as int);
            }
            match term_at(s, p2) {
                Err(e) => Err(e),
                Ok((predicate, n2)) => {
                    let is_named = match &predicate {
                        Term::NamedNode { .. } => true,
                        _ => false,
                    };
                    if !is_named {
                        Err(ParseError { offset: p2 })
                    } else {
                        let p3 = ws_end(s, n2);
                        proof {
                            lemma_skip_ws(s@, n2 as int);
                        }
                        match term_at(s, p3) {
                            Err(e) => Err(e),
                            Ok((object, n3)) => {
                                let p4 = ws_end(s, n3);
                                proof {
                                    lemma_skip_ws(s@, n3 as int);
                                }
                                if p4 < n && s.get_char(p4) == '.' {
                                    Ok((
                                        rest_of(s, p4 + 1),
                                        Triple { subject, predicate, object },
                                    ))
                                } else {
                                    Err(ParseError { offset: p4 })
                                }
                            },
                        }
                    }
                },
            }
        },
    }
}

/// Law: every term the literal production yields is well formed — it never
/// carries both a language tag and a datatype.
pub proof fn lemma_literal_wf(s: Seq<char>, p: int)
    ensures
        spec_literal(s, p) matches TermResult::Found { term, .. } ==> term_wf(term),
{
}

/// Law: every term the term production yields is well formed.
pub proof fn lemma_term_wf(s: Seq<char>, p: int)
    ensures
        spec_term(s, p) matches TermResult::Found { term, .. } ==> term_wf(term),
{
    lemma_literal_wf(s, p);
}

/// Law: every triple the triple production yields is well formed: its terms
/// are well formed and its predicate is a named node.
pub proof fn lemma_triple_wf(s: Seq<char>, p: int)
    ensures
        spec_triple(s, p) matches TripleResult::Found { triple, .. } ==> triple_wf(triple),
{
    let p1 = skip_ws(s, p);
    lemma_term_wf(s, p1);
    match spec_term(s, p1) {
        TermResult::Found { term: subject, next: n1 } => {
            let p2 = skip_ws(s, n1);
            lemma_term_wf(s, p2);
            match spec_term(s, p2) {
                TermResult::Found { term: predicate, next: n2 } => {
                    let p3 = skip_ws(s, n2);
                    lemma_term_wf(s, p3);
                },
                TermResult::Failed { .. } => {},
            }
        },
        TermResult::Failed { .. } => {},
    }
}

/// Law: `_:` followed by a nonempty run of name characters parses to a
/// blank node whose value is exactly that name; `_:` with nothing following
/// fails.
pub proof fn lemma_blank_node_label(name: Seq<char>)
    requires
        name.len() > 0,
        forall|j: int| 0 <= j < name.len() ==> in_class(CharClass::Name, name[j]),
    ensures
        spec_term(seq!['_', ':'] + name, 0) == (TermResult::Found {
            term: TermV::BlankNode { value: name },
            next: (name.len() + 2) as int,
        }),
        spec_blanknodelabel(seq!['_', ':'], 0) == (SpanResult::Failed { at: 0 }),
{
    let s = seq!['_', ':'] + name;
    assert(s.len() == name.len() + 2);
    assert(s[0] == '_' && s[1] == ':');
    assert(forall|j: int| 2 <= j < s.len() ==> s[j] == name[j - 2] && in_class(
        CharClass::Name,
        s[j],
    ));
    lemma_scan_class_is(s, 2, CharClass::Name, s.len() as int);
    assert(s.subrange(2, s.len() as int) =~= name);
    let s2 = seq!['_', ':'];
    assert(s2.len() == 2);
    assert(scan_class(s2, 2, CharClass::Name) == 2);
}

/// Law: a quoted string may carry a language tag or a datatype IRI, never
/// both. `"v"` alone is a plain literal; `"v"@lang` carries the language
/// alone; `"v"^^<dt>` carries the datatype alone; and `"v"@lang^^<dt>`,
/// with both suffixes, is rejected.
pub proof fn lemma_literal_suffixes(v: Seq<char>, lang: Seq<char>, dt: Seq<char>)
    requires
        v.len() > 0,
        forall|j: int| 0 <= j < v.len() ==> v[j] != '"',
        lang.len() > 0,
        is_alpha_char(lang[0]),
        forall|j: int| 0 <= j < lang.len() ==> in_class(CharClass::Tag, lang[j]),
        dt.len() > 0,
        forall|j: int| 0 <= j < dt.len() ==> dt[j] != '>',
    ensures
        spec_literal(seq!['"'] + v + seq!['"'], 0) == (TermResult::Found {
            term: TermV::Literal { value: v, language: None, datatype: None },
            next: (v.len() + 2) as int,
        }),
        spec_literal(seq!['"'] + v + seq!['"', '@'] + lang, 0) == (TermResult::Found {
            term: TermV::Literal { value: v, language: Some(lang), datatype: None },
            next: (v.len() + lang.len() + 3) as int,
        }),
        spec_literal(seq!['"'] + v + seq!['"', '^', '^', '<'] + dt + seq!['>'], 0)
            == (TermResult::Found {
            term: TermV::Literal { value: v, language: None, datatype: Some(dt) },
            next: (v.len() + dt.len() + 6) as int,
        }),
        spec_literal(
            seq!['"'] + v + seq!['"', '@'] + lang + seq!['^', '^', '<'] + dt + seq!['>'],
            0,
        ) matches TermResult::Failed { .. },
{
    let s1 = seq!['"'] + v + seq!['"'];
    assert(s1.len() == v.len() + 2);
    assert(s1[0] == '"');
    assert(forall|j: int| 1 <= j < v.len() + 1 ==> s1[j] == v[j - 1]);
    assert(s1[(v.len() + 1) as int] == '"');
    lemma_find_from_is(s1, 1, '"', (v.len() + 1) as int);
    assert(s1.subrange(1, (v.len() + 1) as int) =~= v);

    let s2 = seq!['"'] + v + seq!['"', '@'] + lang;
    let q2 = (v.len() + 1) as int;
    assert(s2.len() == v.len() + lang.len() + 3);
    assert(s2[0] == '"');
    assert(forall|j: int| 1 <= j < q2 ==> s2[j] == v[j - 1]);
    assert(s2[q2] == '"');
    lemma_find_from_is(s2, 1, '"', q2);
    assert(s2.subrange(1, q2) =~= v);
    assert(s2[q2 + 1] == '@');
    assert(forall|j: int| q2 + 2 <= j < s2.len() ==> s2[j] == lang[j - (q2 + 2)]);
    assert(s2[q2 + 2] == lang[0]);
    assert(forall|j: int| q2 + 2 <= j < s2.len() ==> in_class(CharClass::Tag, s2[j]));
    lemma_scan_class_is(s2, q2 + 2, CharClass::Tag, s2.len() as int);
    assert(s2.subrange(q2 + 2, s2.len() as int) =~= lang);

    let s3 = seq!['"'] + v + seq!['"', '^', '^', '<'] + dt + seq!['>'];
    let q3 = (v.len() + 1) as int;
    assert(s3.len() == v.len() + dt.len() + 6);
    assert(s3[0] == '"');
    assert(forall|j: int| 1 <= j < q3 ==> s3[j] == v[j - 1]);
    assert(s3[q3] == '"');
    lemma_find_from_is(s3, 1, '"', q3);
    assert(s3.subrange(1, q3) =~= v);
    assert(s3[q3 + 1] == '^' && s3[q3 + 2] == '^' && s3[q3 + 3] == '<');
    assert(forall|j: int| q3 + 4 <= j < q3 + 4 + dt.len() ==> s3[j] == dt[j - (q3 + 4)]);
    assert(s3[q3 + 4 + dt.len() as int] == '>');
    assert(forall|j: int| q3 + 4 <= j < q3 + 4 + dt.len() ==> s3[j] != '>');
    lemma_find_from_is(s3, q3 + 4, '>', q3 + 4 + dt.len() as int);
    assert(s3.subrange(q3 + 4, q3 + 4 + dt.len() as int) =~= dt);
    assert(spec_iriref(s3, q3 + 3) == (SpanResult::Found {
        lo: q3 + 4,
        hi: q3 + 4 + dt.len() as int,
        next: q3 + 5 + dt.len() as int,
    }));

    let s4 = seq!['"'] + v + seq!['"', '@'] + lang + seq!['^', '^', '<'] + dt + seq!['>'];
    let q4 = (v.len() + 1) as int;
    let e4 = q4 + 2 + lang.len() as int;
    assert(s4.len() == v.len() + lang.len() + dt.len() + 7);
    assert(s4[0] == '"');
    assert(forall|j: int| 1 <= j < q4 ==> s4[j] == v[j - 1]);
    assert(s4[q4] == '"');
    lemma_find_from_is(s4, 1, '"', q4);
    assert(s4[q4 + 1] == '@');
    assert(forall|j: int| q4 + 2 <= j < e4 ==> s4[j] == lang[j - (q4 + 2)]);
    assert(s4[q4 + 2] == lang[0]);
    assert(s4[e4] == '^');
    assert(!in_class(CharClass::Tag, '^'));
    assert(forall|j: int| q4 + 2 <= j < e4 ==> in_class(CharClass::Tag, s4[j]));
    lemma_scan_class_is(s4, q4 + 2, CharClass::Tag, e4);
}

} // verus!

