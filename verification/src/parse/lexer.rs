//! The lexical scanner: a forward-only pass over borrowed text, classifying
//! it into typed tokens with exact character-span provenance and no semantic
//! validation.
//!
//! The scanner's functional specification is [`scan`]: what token, if any,
//! starts at a given position of the text. Each call of [`Lexer::next`]
//! returns exactly what `scan` says for the current position, or `None` at
//! the end of input, or the offset of the first character that fits no token
//! rule. A failure ends the sequence: the scanner does not resynchronize.

use vstd::prelude::*;

use crate::parse::CharClass;
use crate::parse::ci_eq;
use crate::parse::find_from;
use crate::parse::in_class;
use crate::parse::is_alpha;
use crate::parse::is_alpha_char;
use crate::parse::is_digit;
use crate::parse::is_digit_char;
use crate::parse::is_ws;
use crate::parse::lemma_find_from;
use crate::parse::lemma_find_from_is;
use crate::parse::lemma_scan_class;
use crate::parse::lemma_scan_class_is;
use crate::parse::lower_code_exec;
use crate::parse::scan_class;
use crate::parse::skip_ws;

verus! {

/// A lexical token. Tokens that carry text borrow it from the scanned
/// buffer.
#[allow(missing_docs)]
#[allow(non_camel_case_types)]
#[derive(Clone, Copy, Debug, PartialEq)]
pub enum Token<'input> {
    EOL,
    Period,
    Comma,
    SemiColon,
    LeftBracket,
    RightBracket,
    LeftParen,
    RightParen,
    Carets,
    A,
    True,
    False,
    Prefix,
    Base,
    SparqlPrefix,
    SparqlBase,
    PNAME_LN,
    PNAME_NS,
    IRIRef(&'input str),
    LangTag(&'input str),
    Integer,
    Decimal,
    Double,
    StringLiteralQuote(&'input str),
    BlankNodeLabel(&'input str),
    ANON,
    Comment(&'input str),
}

/// The mathematical model of a [`Token`]: the same classification over
/// character sequences.
#[allow(missing_docs)]
#[allow(non_camel_case_types)]
pub ghost enum TokenV {
    EOL,
    Period,
    Comma,
    SemiColon,
    LeftBracket,
    RightBracket,
    LeftParen,
    RightParen,
    Carets,
    A,
    True,
    False,
    Prefix,
    Base,
    SparqlPrefix,
    SparqlBase,
    PNAME_LN,
    PNAME_NS,
    IRIRef(Seq<char>),
    LangTag(Seq<char>),
    Integer,
    Decimal,
    Double,
    StringLiteralQuote(Seq<char>),
    BlankNodeLabel(Seq<char>),
    ANON,
    Comment(Seq<char>),
}

impl<'input> View for Token<'input> {
    type V = TokenV;

    open spec fn view(&self) -> TokenV {
        match self {
            Token::EOL => TokenV::EOL,
            Token::Period => TokenV::Period,
            Token::Comma => TokenV::Comma,
            Token::SemiColon => TokenV::SemiColon,
            Token::LeftBracket => TokenV::LeftBracket,
            Token::RightBracket => TokenV::RightBracket,
            Token::LeftParen => TokenV::LeftParen,
            Token::RightParen => TokenV::RightParen,
            Token::Carets => TokenV::Carets,
            Token::A => TokenV::A,
            Token::True => TokenV::True,
            Token::False => TokenV::False,
            Token::Prefix => TokenV::Prefix,
            Token::Base => TokenV::Base,
            Token::SparqlPrefix => TokenV::SparqlPrefix,
            Token::SparqlBase => TokenV::SparqlBase,
            Token::PNAME_LN => TokenV::PNAME_LN,
            Token::PNAME_NS => TokenV::PNAME_NS,
            Token::IRIRef(v) => TokenV::IRIRef(v@),
            Token::LangTag(v) => TokenV::LangTag(v@),
            Token::Integer => TokenV::Integer,
            Token::Decimal => TokenV::Decimal,
            Token::Double => TokenV::Double,
            Token::StringLiteralQuote(v) => TokenV::StringLiteralQuote(v@),
            Token::BlankNodeLabel(v) => TokenV::BlankNodeLabel(v@),
            Token::ANON => TokenV::ANON,
            Token::Comment(v) => TokenV::Comment(v@),
        }
    }
}

/// A lexical failure: the first character that fits no token rule, or the
/// start of a delimited construct left unterminated at end of input.
#[allow(missing_docs)]
#[derive(Clone, Copy, Debug, PartialEq, Eq)]
pub struct LexError {
    pub offset: usize,
}

/// One step of the scanner: the end of input, a token with its character
/// span (start inclusive, end exclusive), or a lexical failure at an offset.
#[allow(missing_docs)]
pub ghost enum ScanStep {
    End,
    Tok { start: int, token: TokenV, end: int },
    Fail { offset: int },
}

/// The token starting at an `@`: the `@prefix` and `@base` directives, or a
/// language tag (which must begin with a letter).
pub open spec fn scan_tag(s: Seq<char>, p: int) -> ScanStep {
    if p + 1 < s.len() && is_alpha_char(s[p + 1]) {
        let e = scan_class(s, p + 1, CharClass::Tag);
        let w = s.subrange(p + 1, e);
        if w == "prefix"@ {
            ScanStep::Tok { start: p, token: TokenV::Prefix, end: e }
        } else if w == "base"@ {
            ScanStep::Tok { start: p, token: TokenV::Base, end: e }
        } else {
            ScanStep::Tok { start: p, token: TokenV::LangTag(w), end: e }
        }
    } else {
        ScanStep::Fail { offset: p }
    }
}

/// The token starting at a bare word: the reserved keywords (`a`, `true`,
/// `false`, and the case-insensitive SPARQL-style `PREFIX` and `BASE`), or a
/// prefixed name split at its first colon (`PNAME_LN` when a local part
/// follows the colon, `PNAME_NS` when nothing does). A word with no colon
/// that is no keyword fits no rule.
pub open spec fn scan_word(s: Seq<char>, p: int) -> ScanStep {
    let e = scan_class(s, p, CharClass::Word);
    let w = s.subrange(p, e);
    let colon = find_from(s, p, ':');
    if w == "a"@ {
        ScanStep::Tok { start: p, token: TokenV::A, end: e }
    } else if w == "true"@ {
        ScanStep::Tok { start: p, token: TokenV::True, end: e }
    } else if w == "false"@ {
        ScanStep::Tok { start: p, token: TokenV::False, end: e }
    } else if ci_eq(w, "prefix"@) {
        ScanStep::Tok { start: p, token: TokenV::SparqlPrefix, end: e }
    } else if ci_eq(w, "base"@) {
        ScanStep::Tok { start: p, token: TokenV::SparqlBase, end: e }
    } else if colon < e {
        if colon + 1 < e {
            ScanStep::Tok { start: p, token: TokenV::PNAME_LN, end: e }
        } else {
            ScanStep::Tok { start: p, token: TokenV::PNAME_NS, end: e }
        }
    } else {
        ScanStep::Fail { offset: p }
    }
}

/// The numeric token starting at a digit or a sign: an optional sign, one or
/// more digits, an optional fraction (`.` followed by at least one digit —
/// otherwise the `.` is left for the next token), and an optional exponent.
/// An exponent makes it a double, a fraction without one a decimal, bare
/// digits an integer. A sign or exponent marker without digits fits no rule.
pub open spec fn scan_number(s: Seq<char>, p: int) -> ScanStep {
    let q = if s[p] == '+' || s[p] == '-' {
        p + 1
    } else {
        p
    };
    let d1 = scan_class(s, q, CharClass::Digit);
    if d1 == q {
        ScanStep::Fail { offset: p }
    } else {
        let m = if d1 < s.len() && s[d1] == '.' && scan_class(s, d1 + 1, CharClass::Digit) > d1
            + 1 {
            scan_class(s, d1 + 1, CharClass::Digit)
        } else {
            d1
        };
        if m < s.len() && (s[m] == 'e' || s[m] == 'E') {
            let x0 = if m + 1 < s.len() && (s[m + 1] == '+' || s[m + 1] == '-') {
                m + 2
            } else {
                m + 1
            };
            let x1 = scan_class(s, x0, CharClass::Digit);
            if x1 == x0 {
                ScanStep::Fail { offset: p }
            } else {
                ScanStep::Tok { start: p, token: TokenV::Double, end: x1 }
            }
        } else if m > d1 {
            ScanStep::Tok { start: p, token: TokenV::Decimal, end: m }
        } else {
            ScanStep::Tok { start: p, token: TokenV::Integer, end: m }
        }
    }
}

/// The token starting at position `p`, which must hold a character that is
/// not inline whitespace.
pub open spec fn scan_at(s: Seq<char>, p: int) -> ScanStep {
    let c = s[p];
    if c == '\n' {
        ScanStep::Tok { start: p, token: TokenV::EOL, end: p + 1 }
    } else if c == '.' {
        ScanStep::Tok { start: p, token: TokenV::Period, end: p + 1 }
    } else if c == ',' {
        ScanStep::Tok { start: p, token: TokenV::Comma, end: p + 1 }
    } else if c == ';' {
        ScanStep::Tok { start: p, token: TokenV::SemiColon, end: p + 1 }
    } else if c == '(' {
        ScanStep::Tok { start: p, token: TokenV::LeftParen, end: p + 1 }
    } else if c == ')' {
        ScanStep::Tok { start: p, token: TokenV::RightParen, end: p + 1 }
    } else if c == ']' {
        ScanStep::Tok { start: p, token: TokenV::RightBracket, end: p + 1 }
    } else if c == '[' {
        if p + 1 < s.len() && s[p + 1] == ']' {
            ScanStep::Tok { start: p, token: TokenV::ANON, end: p + 2 }
        } else {
            ScanStep::Tok { start: p, token: TokenV::LeftBracket, end: p + 1 }
        }
    } else if c == '^' {
        if p + 1 < s.len() && s[p + 1] == '^' {
            ScanStep::Tok { start: p, token: TokenV::Carets, end: p + 2 }
        } else {
            ScanStep::Fail { offset: p }
        }
    } else if c == '<' {
        let e = find_from(s, p + 1, '>');
        if e < s.len() {
            ScanStep::Tok { start: p, token: TokenV::IRIRef(s.subrange(p + 1, e)), end: e + 1 }
        } else {
            ScanStep::Fail { offset: p }
        }
    } else if c == '"' {
        let e = find_from(s, p + 1, '"');
        if e < s.len() {
            ScanStep::Tok {
                start: p,
                token: TokenV::StringLiteralQuote(s.subrange(p + 1, e)),
                end: e + 1,
            }
        } else {
            ScanStep::Fail { offset: p }
        }
    } else if c == '#' {
        let e = find_from(s, p + 1, '\n');
        ScanStep::Tok { start: p, token: TokenV::Comment(s.subrange(p + 1, e)), end: e }
    } else if c == '@' {
        scan_tag(s, p)
    } else if c == '_' {
        if p + 1 < s.len() && s[p + 1] == ':' {
            let e = scan_class(s, p + 2, CharClass::Name);
            if e > p + 2 {
                ScanStep::Tok { start: p, token: TokenV::BlankNodeLabel(s.subrange(p + 2, e)), end: e }
            } else {
                ScanStep::Fail { offset: p }
            }
        } else {
            ScanStep::Fail { offset: p }
        }
    } else if is_digit_char(c) || c == '+' || c == '-' {
        scan_number(s, p)
    } else if is_alpha_char(c) || c == ':' {
        scan_word(s, p)
    } else {
        ScanStep::Fail { offset: p }
    }
}

/// The scanner's functional specification: skip inline whitespace from `p0`,
/// then the end of input or the token found there.
pub open spec fn scan(s: Seq<char>, p0: int) -> ScanStep {
    let p = skip_ws(s, p0);
    if p >= s.len() {
        ScanStep::End
    } else {
        scan_at(s, p)
    }
}

/// Whether a returned token triple, or error, is the one a [`ScanStep`]
/// describes, with the scanner left at `newpos`.
pub open spec fn token_result_matches<'a>(
    s: Seq<char>,
    step: ScanStep,
    r: Result<(usize, Token<'a>, usize), LexError>,
    newpos: int,
) -> bool {
    match step {
        ScanStep::End => false,
        ScanStep::Tok { start, token, end } => match r {
            Ok((a, t, b)) => a as int == start && t@ == token && b as int == end && newpos == end,
            Err(_) => false,
        },
        ScanStep::Fail { offset } => match r {
            Err(e) => e.offset as int == offset && newpos == s.len(),
            Ok(_) => false,
        },
    }
}

/// Whether the value returned by one call of [`Lexer::next`] is what a
/// [`ScanStep`] describes, with the scanner left at `newpos`.
pub open spec fn step_matches<'a>(
    s: Seq<char>,
    step: ScanStep,
    r: Option<Result<(usize, Token<'a>, usize), LexError>>,
    newpos: int,
) -> bool {
    match step {
        ScanStep::End => r is None && newpos == s.len(),
        _ => r matches Some(inner) && token_result_matches(s, step, inner, newpos),
    }
}

/// The lexer: a forward-only scanner over a borrowed buffer. It yields a
/// lazy, finite sequence of tokens, one per call of [`Lexer::next`].
pub struct Lexer<'input> {
    text: &'input str,
    pos: usize,
}

impl<'input> Lexer<'input> {
    /// The scanner never stands past the end of its text.
    pub closed spec fn wf(&self) -> bool {
        self.pos <= self.text@.len()
    }

    /// The scanned text.
    pub closed spec fn input_view(&self) -> Seq<char> {
        self.text@
    }

    /// The current position, as a character offset into the text.
    pub closed spec fn position(&self) -> int {
        self.pos as int
    }

    /// Create a new lexer from the source string, standing at its start.
    pub fn new(text: &'input str) -> (l: Self)
        ensures
            l.wf(),
            l.input_view() == text@,
            l.position() == 0,
    {
        Lexer { text, pos: 0 }
    }

    /// Bump the current position in the source string by one character,
    /// returning the current character and its position, or `None` at the
    /// end of the text.
    fn bump(&mut self) -> (r: Option<(usize, char)>)
        requires
            old(self).wf(),
        ensures
            final(self).wf(),
            final(self).text == old(self).text,
            old(self).pos < old(self).text@.len() ==> (r matches Some((p, c)) && p == old(self).pos
                && c == old(self).text@[old(self).pos as int] && final(self).pos == old(self).pos
                + 1),
            old(self).pos >= old(self).text@.len() ==> r is None && final(self).pos == old(
                self,
            ).pos,
    {
        if self.pos < self.text.unicode_len() {
            let p = self.pos;
            let c = self.text.get_char(p);
            self.pos = p + 1;
            Some((p, c))
        } else {
            None
        }
    }

    /// The text between two character positions.
    fn slice(&self, start: usize, end: usize) -> (r: &'input str)
        requires
            self.wf(),
            start <= end,
            end as int <= self.text@.len(),
        ensures
            r@ == self.text@.subrange(start as int, end as int),
    {
        let t: &'input str = self.text;
        t.substring_char(start, end)
    }

    /// Consume characters until `stop` is the current character, then return
    /// its position; the whole rest of the text is consumed when `stop` does
    /// not occur.
    #[verifier::loop_isolation(false)]
    fn take_until(&mut self, stop: char) -> (r: usize)
        requires
            old(self).wf(),
        ensures
            final(self).wf(),
            final(self).text == old(self).text,
            old(self).pos <= r <= final(self).text@.len(),
            r as int == find_from(old(self).text@, old(self).pos as int, stop),
            final(self).pos == r,
    {
        let ghost s = self.text@;
        let ghost p0 = self.pos as int;
        let n = self.text.unicode_len();
        while self.pos < n
            invariant
                self.text == old(self).text,
                s == self.text@,
                0 <= p0,
                n == self.text@.len(),
                self.pos <= n,
                p0 <= self.pos,
                forall|j: int| p0 <= j < self.pos ==> self.text@[j] != stop,
            decreases n - self.pos,
        {
            if self.text.get_char(self.pos) == stop {
                proof {
                    lemma_find_from_is(s, p0, stop, self.pos as int);
                }
                return self.pos;
            }
            self.pos = self.pos + 1;
        }
        proof {
            lemma_find_from_is(s, p0, stop, n as int);
        }
        self.pos
    }

    /// Consume the maximal run of characters of class `k` from the current
    /// position, then return the position just past it.
    #[verifier::loop_isolation(false)]
    fn take_while(&mut self, k: CharClass) -> (r: usize)
        requires
            old(self).wf(),
        ensures
            final(self).wf(),
            final(self).text == old(self).text,
            old(self).pos <= r <= final(self).text@.len(),
            r as int == scan_class(old(self).text@, old(self).pos as int, k),
            final(self).pos == r,
    {
        let ghost s = self.text@;
        let ghost p0 = self.pos as int;
        let n = self.text.unicode_len();
        while self.pos < n
            invariant
                self.text == old(self).text,
                s == self.text@,
                0 <= p0,
                n == self.text@.len(),
                self.pos <= n,
                p0 <= self.pos,
                forall|j: int| p0 <= j < self.pos ==> in_class(k, self.text@[j]),
            decreases n - self.pos,
        {
            if !crate::parse::in_class_exec(k, self.text.get_char(self.pos)) {
                proof {
                    lemma_scan_class_is(s, p0, k, self.pos as int);
                }
                return self.pos;
            }
            self.pos = self.pos + 1;
        }
        proof {
            lemma_scan_class_is(s, p0, k, n as int);
        }
        self.pos
    }

    /// Whether the text between `start` and `end` is exactly `kw`.
    #[verifier::loop_isolation(false)]
    fn word_eq(&self, start: usize, end: usize, kw: &str) -> (b: bool)
        requires
            self.wf(),
            start <= end,
            end as int <= self.text@.len(),
        ensures
            b == (self.text@.subrange(start as int, end as int) == kw@),
    {
        let m = kw.unicode_len();
        if end - start != m {
            return false;
        }
        let mut j: usize = 0;
        while j < m
            invariant
                self.wf(),
                m == kw@.len(),
                start <= end,
                end as int <= self.text@.len(),
                end - start == m,
                j <= m,
                forall|i: int| 0 <= i < j ==> self.text@[start + i] == kw@[i],
            decreases m - j,
        {
            if self.text.get_char(start + j) != kw.get_char(j) {
                proof {
                    assert(self.text@.subrange(start as int, end as int)[j as int] != kw@[j as int]);
                }
                return false;
            }
            j = j + 1;
        }
        proof {
            assert(self.text@.subrange(start as int, end as int) =~= kw@);
        }
        true
    }

    /// Whether the text between `start` and `end` is `kw` up to ASCII case.
    #[verifier::loop_isolation(false)]
    fn word_eq_ci(&self, start: usize, end: usize, kw: &str) -> (b: bool)
        requires
            self.wf(),
            start <= end,
            end as int <= self.text@.len(),
        ensures
            b == ci_eq(self.text@.subrange(start as int, end as int), kw@),
    {
        let ghost w = self.text@.subrange(start as int, end as int);
        let m = kw.unicode_len();
        if end - start != m {
            return false;
        }
        let mut j: usize = 0;
        while j < m
            invariant
                self.wf(),
                m == kw@.len(),
                start <= end,
                end as int <= self.text@.len(),
                end - start == m,
                j <= m,
                w == self.text@.subrange(start as int, end as int),
                forall|i: int| 0 <= i < j ==> crate::parse::lower_code(w[i]) == crate::parse::lower_code(kw@[i]),
            decreases m - j,
        {
            if lower_code_exec(self.text.get_char(start + j)) != lower_code_exec(kw.get_char(j)) {
                proof {
                    assert(w[j as int] == self.text@[start + j]);
                }
                return false;
            }
            j = j + 1;
        }
        true
    }

    /// Scan the token that begins with a caret: the two-character datatype
    /// marker. A single caret fits no rule. `start` is the caret's position;
    /// the scanner stands just past it.
    fn take_double_caret(&mut self, start: usize) -> (r: Result<(usize, Token<'input>, usize), LexError>)
        requires
            old(self).wf(),
            (start as int) < old(self).text@.len(),
            old(self).pos == start + 1,
            old(self).text@[start as int] == '^',
        ensures
            final(self).wf(),
            final(self).text == old(self).text,
            token_result_matches(
                old(self).text@,
                scan_at(old(self).text@, start as int),
                r,
                final(self).pos as int,
            ),
    {
        let n = self.text.unicode_len();
        if self.pos < n && self.text.get_char(self.pos) == '^' {
            self.pos = self.pos + 1;
            Ok((start, Token::Carets, start + 2))
        } else {
            self.pos = n;
            Err(LexError { offset: start })
        }
    }

    /// Scan the token that begins with `@`: the `@prefix` or `@base`
    /// directive, or a language tag. `start` is the position of the `@`; the
    /// scanner stands just past it.
    fn take_lang_tag(&mut self, start: usize) -> (r: Result<(usize, Token<'input>, usize), LexError>)
        requires
            old(self).wf(),
            (start as int) < old(self).text@.len(),
            old(self).pos == start + 1,
            old(self).text@[start as int] == '@',
        ensures
            final(self).wf(),
            final(self).text == old(self).text,
            token_result_matches(
                old(self).text@,
                scan_at(old(self).text@, start as int),
                r,
                final(self).pos as int,
            ),
    {
        let n = self.text.unicode_len();
        if self.pos < n && is_alpha(self.text.get_char(self.pos)) {
            let e = self.take_while(CharClass::Tag);
            if self.word_eq(start + 1, e, "prefix") {
                Ok((start, Token::Prefix, e))
            } else if self.word_eq(start + 1, e, "base") {
                Ok((start, Token::Base, e))
            } else {
                let v = self.slice(start + 1, e);
                Ok((start, Token::LangTag(v), e))
            }
        } else {
            self.pos = n;
            Err(LexError { offset: start })
        }
    }

    /// Scan a keyword or prefixed name. `start` is the position of its first
    /// character (a letter or a colon); the scanner stands just past it.
    #[verifier::loop_isolation(false)]
    fn take_word(&mut self, start: usize) -> (r: Result<(usize, Token<'input>, usize), LexError>)
        requires
            old(self).wf(),
            (start as int) < old(self).text@.len(),
            old(self).pos == start + 1,
            is_alpha_char(old(self).text@[start as int]) || old(self).text@[start as int] == ':',
        ensures
            final(self).wf(),
            final(self).text == old(self).text,
            token_result_matches(
                old(self).text@,
                scan_at(old(self).text@, start as int),
                r,
                final(self).pos as int,
            ),
    {
        let ghost s = self.text@;
        let n = self.text.unicode_len();
        proof {
            assert(in_class(CharClass::Word, s[start as int]));
            assert(scan_class(s, start as int, CharClass::Word) == scan_class(
                s,
                start as int + 1,
                CharClass::Word,
            ));
        }
        let e = self.take_while(CharClass::Word);
        if self.word_eq(start, e, "a") {
            Ok((start, Token::A, e))
        } else if self.word_eq(start, e, "true") {
            Ok((start, Token::True, e))
        } else if self.word_eq(start, e, "false") {
            Ok((start, Token::False, e))
        } else if self.word_eq_ci(start, e, "prefix") {
            Ok((start, Token::SparqlPrefix, e))
        } else if self.word_eq_ci(start, e, "base") {
            Ok((start, Token::SparqlBase, e))
        } else {
            let mut j: usize = start;
            while j < e
                invariant
                    self.text == old(self).text,
                    self.wf(),
                    s == self.text@,
                    start <= j <= e,
                    e as int <= s.len(),
                    self.pos == e,
                    forall|i: int| start <= i < j ==> s[i] != ':',
                decreases e - j,
            {
                if self.text.get_char(j) == ':' {
                    proof {
                        lemma_find_from_is(s, start as int, ':', j as int);
                    }
                    if j + 1 < e {
                        return Ok((start, Token::PNAME_LN, e));
                    } else {
                        return Ok((start, Token::PNAME_NS, e));
                    }
                }
                j = j + 1;
            }
            proof {
                lemma_find_from(s, start as int, ':');
            }
            self.pos = n;
            Err(LexError { offset: start })
        }
    }

    /// Scan a numeric literal. `start` is the position of its first
    /// character (a digit or a sign); the scanner stands just past it.
    #[verifier::loop_isolation(false)]
    fn take_number(&mut self, start: usize) -> (r: Result<(usize, Token<'input>, usize), LexError>)
        requires
            old(self).wf(),
            (start as int) < old(self).text@.len(),
            old(self).pos == start + 1,
            is_digit_char(old(self).text@[start as int]) || old(self).text@[start as int] == '+'
                || old(self).text@[start as int] == '-',
        ensures
            final(self).wf(),
            final(self).text == old(self).text,
            token_result_matches(
                old(self).text@,
                scan_at(old(self).text@, start as int),
                r,
                final(self).pos as int,
            ),
    {
        let ghost s = self.text@;
        let n = self.text.unicode_len();
        let c0 = self.text.get_char(start);
        let q: usize = if c0 == '+' || c0 == '-' {
            start + 1
        } else {
            proof {
                assert(in_class(CharClass::Digit, s[start as int]));
                assert(scan_class(s, start as int, CharClass::Digit) == scan_class(
                    s,
                    start as int + 1,
                    CharClass::Digit,
                ));
            }
            start
        };
        let d1 = self.take_while(CharClass::Digit);
        if d1 == q {
            self.pos = n;
            return Err(LexError { offset: start });
        }
        let mut m: usize = d1;
        if d1 < n && self.text.get_char(d1) == '.' {
            if d1 + 1 < n && is_digit(self.text.get_char(d1 + 1)) {
                proof {
                    lemma_scan_class(s, d1 + 1 as int, CharClass::Digit);
                    assert(scan_class(s, d1 + 1 as int, CharClass::Digit) == scan_class(
                        s,
                        d1 + 2 as int,
                        CharClass::Digit,
                    ));
                }
                self.pos = d1 + 1;
                m = self.take_while(CharClass::Digit);
            }
        }
        if m < n && (self.text.get_char(m) == 'e' || self.text.get_char(m) == 'E') {
            let x0: usize = if m + 1 < n && (self.text.get_char(m + 1) == '+' || self.text.get_char(
                m + 1,
            ) == '-') {
                m + 2
            } else {
                m + 1
            };
            self.pos = x0;
            let x1 = self.take_while(CharClass::Digit);
            if x1 == x0 {
                self.pos = n;
                Err(LexError { offset: start })
            } else {
                Ok((start, Token::Double, x1))
            }
        } else if m > d1 {
            Ok((start, Token::Decimal, m))
        } else {
            Ok((start, Token::Integer, m))
        }
    }

    /// Scan the next token. Returns `None` at the end of input, the next
    /// token with its character span otherwise, or the offset at which the
    /// text fits no token rule; after a failure the rest of the text is
    /// abandoned.
    #[verifier::loop_isolation(false)]
    pub fn next(&mut self) -> (r: Option<Result<(usize, Token<'input>, usize), LexError>>)
        requires
            old(self).wf(),
        ensures
            final(self).wf(),
            final(self).input_view() == old(self).input_view(),
            step_matches(
                old(self).input_view(),
                scan(old(self).input_view(), old(self).position()),
                r,
                final(self).position(),
            ),
    {
        let ghost s = self.text@;
        let ghost p0 = self.pos as int;
        let n = self.text.unicode_len();
        while self.pos < n && is_ws(self.text.get_char(self.pos))
            invariant
                self.text == old(self).text,
                n == self.text@.len(),
                self.pos <= n,
                p0 <= self.pos,
                skip_ws(self.text@, p0) == skip_ws(self.text@, self.pos as int),
            decreases n - self.pos,
        {
            self.pos = self.pos + 1;
        }
        let (start, c) = match self.bump() {
            None => {
                return None;
            },
            Some(pc) => pc,
        };
        if c == '\n' {
            Some(Ok((start, Token::EOL, start + 1)))
        } else if c == '.' {
            Some(Ok((start, Token::Period, start + 1)))
        } else if c == ',' {
            Some(Ok((start, Token::Comma, start + 1)))
        } else if c == ';' {
            Some(Ok((start, Token::SemiColon, start + 1)))
        } else if c == '(' {
            Some(Ok((start, Token::LeftParen, start + 1)))
        } else if c == ')' {
            Some(Ok((start, Token::RightParen, start + 1)))
        } else if c == ']' {
            Some(Ok((start, Token::RightBracket, start + 1)))
        } else if c == '[' {
            if self.pos < n && self.text.get_char(self.pos) == ']' {
                self.pos = start + 2;
                Some(Ok((start, Token::ANON, start + 2)))
            } else {
                Some(Ok((start, Token::LeftBracket, start + 1)))
            }
        } else if c == '^' {
            Some(self.take_double_caret(start))
        } else if c == '<' {
            let e = self.take_until('>');
            if e < n {
                let v = self.slice(start + 1, e);
                self.pos = e + 1;
                Some(Ok((start, Token::IRIRef(v), e + 1)))
            } else {
                Some(Err(LexError { offset: start }))
            }
        } else if c == '"' {
            let e = self.take_until('"');
            if e < n {
                let v = self.slice(start + 1, e);
                self.pos = e + 1;
                Some(Ok((start, Token::StringLiteralQuote(v), e + 1)))
            } else {
                Some(Err(LexError { offset: start }))
            }
        } else if c == '#' {
            let e = self.take_until('\n');
            let v = self.slice(start + 1, e);
            Some(Ok((start, Token::Comment(v), e)))
        } else if c == '@' {
            Some(self.take_lang_tag(start))
        } else if c == '_' {
            if self.pos < n && self.text.get_char(self.pos) == ':' {
                self.pos = start + 2;
                let e = self.take_while(CharClass::Name);
                if e > start + 2 {
                    let v = self.slice(start + 2, e);
                    Some(Ok((start, Token::BlankNodeLabel(v), e)))
                } else {
                    self.pos = n;
                    Some(Err(LexError { offset: start }))
                }
            } else {
                self.pos = n;
                Some(Err(LexError { offset: start }))
            }
        } else if is_digit(c) || c == '+' || c == '-' {
            Some(self.take_number(start))
        } else if is_alpha(c) || c == ':' {
            Some(self.take_word(start))
        } else {
            self.pos = n;
            Some(Err(LexError { offset: start }))
        }
    }
}

/// Law: for any content `x` holding no `>`, the text `<x>` scans to exactly
/// one token — an IRI reference whose value is `x` and whose span is the
/// whole text — after which the sequence ends; the unterminated `<x` is a
/// lexical failure at the opening bracket.
pub proof fn lemma_iriref_scan(x: Seq<char>)
    requires
        forall|j: int| 0 <= j < x.len() ==> x[j] != '>',
    ensures
        scan(seq!['<'] + x + seq!['>'], 0) == (ScanStep::Tok {
            start: 0,
            token: TokenV::IRIRef(x),
            end: x.len() + 2 as int,
        }),
        scan(seq!['<'] + x + seq!['>'], x.len() + 2 as int) == ScanStep::End,
        scan(seq!['<'] + x, 0) == (ScanStep::Fail { offset: 0 }),
{
    let s = seq!['<'] + x + seq!['>'];
    assert(s.len() == x.len() + 2);
    assert(s[0] == '<');
    assert(skip_ws(s, 0) == 0);
    assert(forall|j: int| 1 <= j < x.len() + 1 ==> s[j] == x[j - 1]);
    assert(s[x.len() + 1 as int] == '>');
    lemma_find_from_is(s, 1, '>', x.len() + 1 as int);
    assert(s.subrange(1, x.len() + 1 as int) =~= x);
    assert(skip_ws(s, s.len() as int) == s.len());
    let u = seq!['<'] + x;
    assert(u.len() == x.len() + 1);
    assert(u[0] == '<');
    assert(forall|j: int| 1 <= j < u.len() ==> u[j] == x[j - 1] && u[j] != '>');
    lemma_find_from_is(u, 1, '>', u.len() as int);
    assert(skip_ws(u, 0) == 0);
}

} // verus!
