//! The three token grammars: source level, argument level and format level.
use crate::ir::CType;
use crate::parse::Specifier;
use vstd::prelude::*;

verus! {

/// A half-open range of byte offsets into the analysed source text.
#[derive(Clone, Copy, Debug, PartialEq, Eq, Structural)]
pub struct Span {
    pub start: usize,
    pub end: usize,
}

/// The smallest span that covers `span` (if any) and `other`.
pub open spec fn spec_union(span: Option<Span>, other: Span) -> Span {
    match span {
        Some(sp) => Span { start: sp.start, end: other.end },
        None => other,
    }
}

pub open spec fn is_ws(b: u8) -> bool {
    b == 0x20 || b == 0x09 || b == 0x0b || b == 0x0d || b == 0x0a || b == 0x0c
}

pub open spec fn is_digit(b: u8) -> bool {
    0x30 <= b && b <= 0x39
}

pub open spec fn is_ident_start(b: u8) -> bool {
    (0x61 <= b && b <= 0x7a) || (0x41 <= b && b <= 0x5a) || b == 0x5f || b == 0x24
}

pub open spec fn is_ident_continue(b: u8) -> bool {
    is_ident_start(b) || is_digit(b)
}

/// The first position at or after `p` that does not hold white space.
pub open spec fn skip_ws(s: Seq<u8>, p: int) -> int
    decreases s.len() - p,
{
    if 0 <= p < s.len() && is_ws(s[p]) {
        skip_ws(s, p + 1)
    } else {
        p
    }
}

/// The first position at or after `p` that does not continue an identifier.
pub open spec fn ident_end(s: Seq<u8>, p: int) -> int
    decreases s.len() - p,
{
    if 0 <= p < s.len() && is_ident_continue(s[p]) {
        ident_end(s, p + 1)
    } else {
        p
    }
}

/// The first line break at or after `p`, or the end of the text.
pub open spec fn line_end(s: Seq<u8>, p: int) -> int
    decreases s.len() - p,
{
    if 0 <= p < s.len() && s[p] != 0x0a && s[p] != 0x0d {
        line_end(s, p + 1)
    } else {
        p
    }
}

/// The position just past the first `*/` at or after `p`, if there is one.
pub open spec fn block_comment_close(s: Seq<u8>, p: int) -> Option<int>
    decreases s.len() - p,
{
    if p < 0 || p + 1 >= s.len() {
        None
    } else if s[p] == 0x2a && s[p + 1] == 0x2f {
        Some(p + 2)
    } else {
        block_comment_close(s, p + 1)
    }
}

/// The position just past the closing `quote` of a literal whose body starts
/// at `p`; a backslash escapes the byte after it, and a bare line break or the
/// end of the text leaves the literal unterminated.
pub open spec fn quoted_close(s: Seq<u8>, p: int, quote: u8) -> Option<int>
    decreases s.len() - p,
{
    if p < 0 || p >= s.len() {
        None
    } else if s[p] == quote {
        Some(p + 1)
    } else if s[p] == 0x5c {
        if p + 1 < s.len() {
            quoted_close(s, p + 2, quote)
        } else {
            None
        }
    } else if s[p] == 0x0a {
        None
    } else {
        quoted_close(s, p + 1, quote)
    }
}

pub fn skip_whitespace(s: &[u8], p: usize) -> (r: usize)
    requires
        p <= s@.len(),
    ensures
        r == skip_ws(s@, p as int),
        p <= r <= s@.len(),
{
    let mut i: usize = p;
    while i < s.len() && (s[i] == 0x20 || s[i] == 0x09 || s[i] == 0x0b || s[i] == 0x0d
        || s[i] == 0x0a || s[i] == 0x0c)
        invariant
            p <= i <= s@.len(),
            skip_ws(s@, i as int) == skip_ws(s@, p as int),
        decreases s@.len() - i,
    {
        i = i + 1;
    }
    i
}


pub fn ident_end_exec(s: &[u8], p: usize) -> (r: usize)
    requires
        p <= s@.len(),
    ensures
        r == ident_end(s@, p as int),
        p <= r <= s@.len(),
{
    let mut i: usize = p;
    while i < s.len() && is_ident_byte(s[i])
        invariant
            p <= i <= s@.len(),
            ident_end(s@, i as int) == ident_end(s@, p as int),
        decreases s@.len() - i,
    {
        i = i + 1;
    }
    i
}

fn is_ident_byte(b: u8) -> (r: bool)
    ensures
        r == is_ident_continue(b),
{
    (0x61 <= b && b <= 0x7a) || (0x41 <= b && b <= 0x5a) || b == 0x5f || b == 0x24 || (0x30 <= b
        && b <= 0x39)
}

fn line_end_exec(s: &[u8], p: usize) -> (r: usize)
    requires
        p <= s@.len(),
    ensures
        r == line_end(s@, p as int),
        p <= r <= s@.len(),
{
    let mut i: usize = p;
    while i < s.len() && s[i] != 0x0a && s[i] != 0x0d
        invariant
            p <= i <= s@.len(),
            line_end(s@, i as int) == line_end(s@, p as int),
        decreases s@.len() - i,
    {
        i = i + 1;
    }
    i
}

/// An optional position as an optional integer.
pub open spec fn opt_int(o: Option<usize>) -> Option<int> {
    match o {
        Some(e) => Some(e as int),
        None => None,
    }
}

fn block_comment_close_exec(s: &[u8], p: usize) -> (r: Option<usize>)
    requires
        p <= s@.len(),
    ensures
        opt_int(r) == block_comment_close(s@, p as int),
        r is Some ==> p < r->0 <= s@.len(),
{
    let mut i: usize = p;
    while i < s.len() && s.len() - i >= 2
        invariant
            p <= i <= s@.len(),
            block_comment_close(s@, i as int) == block_comment_close(s@, p as int),
        decreases s@.len() - i,
    {
        if s[i] == 0x2a && s[i + 1] == 0x2f {
            return Some(i + 2);
        }
        i = i + 1;
    }
    None
}

fn quoted_close_exec(s: &[u8], p: usize, quote: u8) -> (r: Option<usize>)
    requires
        p <= s@.len(),
    ensures
        opt_int(r) == quoted_close(s@, p as int, quote),
        r is Some ==> p < r->0 <= s@.len(),
{
    let mut i: usize = p;
    while i < s.len()
        invariant
            p <= i <= s@.len(),
            quoted_close(s@, i as int, quote) == quoted_close(s@, p as int, quote),
        decreases s@.len() - i,
    {
        if s[i] == quote {
            return Some(i + 1);
        } else if s[i] == 0x5c {
            if s.len() - i >= 2 {
                i = i + 2;
            } else {
                return None;
            }
        } else if s[i] == 0x0a {
            return None;
        } else {
            i = i + 1;
        }
    }
    None
}

/// Whether the text holds the bytes `w` at position `p`.
pub open spec fn starts_with(s: Seq<u8>, p: int, w: Seq<u8>) -> bool {
    0 <= p && p + w.len() <= s.len() && s.subrange(p, p + w.len()) == w
}

pub fn starts_with_exec(s: &[u8], p: usize, w: &[u8]) -> (r: bool)
    ensures
        r == starts_with(s@, p as int, w@),
{
    if p > s.len() || w.len() > s.len() - p {
        return false;
    }
    let mut i: usize = 0;
    while i < w.len()
        invariant
            0 <= i <= w@.len(),
            p + w@.len() <= s@.len(),
            s@.len() <= usize::MAX,
            forall|j: int| 0 <= j < i ==> s@[p + j] == w@[j],
        decreases w@.len() - i,
    {
        assert(p + i < s@.len());
        if s[p + i] != w[i] {
            assert(s@.subrange(p as int, p + w@.len())[i as int] != w@[i as int]);
            return false;
        }
        i = i + 1;
    }
    assert(s@.subrange(p as int, p + w@.len()) =~= w@);
    true
}

/// The position of the opening quote of a literal at `p`, after an optional
/// encoding prefix (`u8`, `u`, `U` or `L`).
pub open spec fn piece_open(s: Seq<u8>, p: int, quote: u8) -> Option<int> {
    if 0 <= p && p + 2 < s.len() && s[p] == 0x75 && s[p + 1] == 0x38 && s[p + 2] == quote {
        Some(p + 2)
    } else if 0 <= p && p + 1 < s.len() && (s[p] == 0x75 || s[p] == 0x55 || s[p] == 0x4c) && s[p
        + 1] == quote {
        Some(p + 1)
    } else if 0 <= p < s.len() && s[p] == quote {
        Some(p)
    } else {
        None
    }
}

/// The end of a terminated literal that starts at `p`.
pub open spec fn piece_close(s: Seq<u8>, p: int, quote: u8) -> Option<int> {
    match piece_open(s, p, quote) {
        Some(o) => quoted_close(s, o + 1, quote),
        None => None,
    }
}

fn piece_open_exec(s: &[u8], p: usize, quote: u8) -> (r: Option<usize>)
    requires
        p <= s@.len(),
    ensures
        opt_int(r) == piece_open(s@, p as int, quote),
        r is Some ==> p <= r->0 < s@.len(),
{
    let n = s.len();
    if p < n && n - p > 2 && s[p] == 0x75 && s[p + 1] == 0x38 && s[p + 2] == quote {
        Some(p + 2)
    } else if p < n && n - p > 1 && (s[p] == 0x75 || s[p] == 0x55 || s[p] == 0x4c) && s[p + 1]
        == quote {
        Some(p + 1)
    } else if p < n && s[p] == quote {
        Some(p)
    } else {
        None
    }
}

fn piece_close_exec(s: &[u8], p: usize, quote: u8) -> (r: Option<usize>)
    requires
        p <= s@.len(),
    ensures
        opt_int(r) == piece_close(s@, p as int, quote),
        r is Some ==> p < r->0 <= s@.len(),
{
    let n = s.len();
    let open = piece_open_exec(s, p, quote);
    match open {
        Some(o) => {
            assert(o < s@.len());
            quoted_close_exec(s, o + 1, quote)
        },
        None => None,
    }
}

/// The end of a run of string literals separated by white space, given the
/// end `q` of its first literal: adjacent literals form one token.
pub open spec fn string_run_close(s: Seq<u8>, q: int) -> int
    decreases s.len() - q,
{
    match piece_close(s, skip_ws(s, q), 0x22) {
        Some(e) => if q < e <= s.len() {
            string_run_close(s, e)
        } else {
            q
        },
        None => q,
    }
}

fn string_run_close_exec(s: &[u8], q: usize) -> (r: usize)
    requires
        q <= s@.len(),
    ensures
        r == string_run_close(s@, q as int),
        q <= r <= s@.len(),
{
    let mut cur: usize = q;
    loop
        invariant
            q <= cur <= s@.len(),
            string_run_close(s@, cur as int) == string_run_close(s@, q as int),
        decreases s@.len() - cur,
    {
        let r = skip_whitespace(s, cur);
        match piece_close_exec(s, r, 0x22) {
            Some(e) => {
                if cur < e && e <= s.len() {
                    cur = e;
                } else {
                    return cur;
                }
            },
            None => {
                return cur;
            },
        }
    }
}

/// The end of a comment at `p`: a line comment runs to the end of its line, a
/// block comment through its `*/`; an unterminated block comment is none.
pub open spec fn comment_end(s: Seq<u8>, p: int) -> Option<int> {
    if starts_with(s, p, seq![0x2fu8, 0x2f]) {
        Some(line_end(s, p + 2))
    } else if starts_with(s, p, seq![0x2fu8, 0x2a]) {
        block_comment_close(s, p + 2)
    } else {
        None
    }
}

fn comment_end_exec(s: &[u8], p: usize) -> (r: Option<usize>)
    requires
        p <= s@.len(),
    ensures
        opt_int(r) == comment_end(s@, p as int),
        r is Some ==> p < r->0 <= s@.len(),
{
    let n = s.len();
    if p < n && n - p >= 2 && s[p] == 0x2f && s[p + 1] == 0x2f {
        assert(s@.subrange(p as int, p + 2) =~= seq![0x2fu8, 0x2f]);
        Some(line_end_exec(s, p + 2))
    } else if p < n && n - p >= 2 && s[p] == 0x2f && s[p + 1] == 0x2a {
        assert(s@.subrange(p as int, p + 2) =~= seq![0x2fu8, 0x2a]);
        assert(!starts_with(s@, p as int, seq![0x2fu8, 0x2f])) by {
            assert(s@.subrange(p as int, p + 2)[1] != seq![0x2fu8, 0x2f][1]);
        }
        block_comment_close_exec(s, p + 2)
    } else {
        assert(!starts_with(s@, p as int, seq![0x2fu8, 0x2f])) by {
            if p + 2 <= n {
                assert(s@.subrange(p as int, p + 2)[0] == s@[p as int]);
                assert(s@.subrange(p as int, p + 2)[1] == s@[p + 1]);
            }
        }
        assert(!starts_with(s@, p as int, seq![0x2fu8, 0x2a])) by {
            if p + 2 <= n {
                assert(s@.subrange(p as int, p + 2)[0] == s@[p as int]);
                assert(s@.subrange(p as int, p + 2)[1] == s@[p + 1]);
            }
        }
        None
    }
}

/// The end of a string literal token at `p` (adjacent literals included).
pub open spec fn string_end(s: Seq<u8>, p: int) -> Option<int> {
    match piece_close(s, p, 0x22) {
        Some(e) => Some(string_run_close(s, e)),
        None => None,
    }
}

fn string_end_exec(s: &[u8], p: usize) -> (r: Option<usize>)
    requires
        p <= s@.len(),
    ensures
        opt_int(r) == string_end(s@, p as int),
        r is Some ==> p < r->0 <= s@.len(),
{
    match piece_close_exec(s, p, 0x22) {
        Some(e) => Some(string_run_close_exec(s, e)),
        None => None,
    }
}


/// Tokens of the source grammar. White space is skipped between tokens.
#[derive(Clone, Copy, Debug, PartialEq, Eq, Structural)]
pub enum SourceToken {
    Comment,
    String,
    LParen,
    RParen,
    Printf,
    Sprintf,
    Snprintf,
    Other,
}

pub open spec fn printf_word() -> Seq<u8> {
    seq![0x70u8, 0x72, 0x69, 0x6e, 0x74, 0x66]
}

pub open spec fn sprintf_word() -> Seq<u8> {
    seq![0x73u8] + printf_word()
}

pub open spec fn snprintf_word() -> Seq<u8> {
    seq![0x73u8, 0x6e] + printf_word()
}

/// The source token for an identifier: one of the tracked names, or other text.
pub open spec fn word_kind(w: Seq<u8>) -> SourceToken {
    if w == printf_word() {
        SourceToken::Printf
    } else if w == sprintf_word() {
        SourceToken::Sprintf
    } else if w == snprintf_word() {
        SourceToken::Snprintf
    } else {
        SourceToken::Other
    }
}

/// The source token at `q` (which holds no white space) and the position just
/// past it.
pub open spec fn source_token(s: Seq<u8>, q: int) -> (SourceToken, int) {
    if comment_end(s, q) is Some {
        (SourceToken::Comment, comment_end(s, q)->0)
    } else if string_end(s, q) is Some {
        (SourceToken::String, string_end(s, q)->0)
    } else if piece_close(s, q, 0x27) is Some {
        (SourceToken::Other, piece_close(s, q, 0x27)->0)
    } else if s[q] == 0x28 {
        (SourceToken::LParen, q + 1)
    } else if s[q] == 0x29 {
        (SourceToken::RParen, q + 1)
    } else if is_ident_start(s[q]) {
        (word_kind(s.subrange(q, ident_end(s, q + 1))), ident_end(s, q + 1))
    } else {
        (SourceToken::Other, q + 1)
    }
}

fn word_is(s: &[u8], q: usize, e: usize, w: &[u8]) -> (r: bool)
    requires
        q <= e <= s@.len(),
    ensures
        r == (s@.subrange(q as int, e as int) == w@),
{
    if e - q != w.len() {
        assert(s@.subrange(q as int, e as int).len() != w@.len());
        return false;
    }
    starts_with_exec(s, q, w)
}

fn word_kind_exec(s: &[u8], q: usize, e: usize) -> (r: SourceToken)
    requires
        q <= e <= s@.len(),
    ensures
        r == word_kind(s@.subrange(q as int, e as int)),
{
    let w1: &[u8] = &[0x70u8, 0x72, 0x69, 0x6e, 0x74, 0x66];
    let w2: &[u8] = &[0x73u8, 0x70, 0x72, 0x69, 0x6e, 0x74, 0x66];
    let w3: &[u8] = &[0x73u8, 0x6e, 0x70, 0x72, 0x69, 0x6e, 0x74, 0x66];
    assert(w1@ =~= printf_word());
    assert(w2@ =~= sprintf_word());
    assert(w3@ =~= snprintf_word());
    if word_is(s, q, e, w1) {
        SourceToken::Printf
    } else if word_is(s, q, e, w2) {
        SourceToken::Sprintf
    } else if word_is(s, q, e, w3) {
        SourceToken::Snprintf
    } else {
        SourceToken::Other
    }
}

/// Reads the source token at `q`, which must not hold white space.
pub fn next_source_token(s: &[u8], q: usize) -> (r: (SourceToken, usize))
    requires
        q < s@.len(),
    ensures
        (r.0, r.1 as int) == source_token(s@, q as int),
        q < r.1 <= s@.len(),
{
    if let Some(e) = comment_end_exec(s, q) {
        (SourceToken::Comment, e)
    } else if let Some(e) = string_end_exec(s, q) {
        (SourceToken::String, e)
    } else if let Some(e) = piece_close_exec(s, q, 0x27) {
        (SourceToken::Other, e)
    } else if s[q] == 0x28 {
        (SourceToken::LParen, q + 1)
    } else if s[q] == 0x29 {
        (SourceToken::RParen, q + 1)
    } else if is_ident_start_byte(s[q]) {
        let e = ident_end_exec(s, q + 1);
        (word_kind_exec(s, q, e), e)
    } else {
        (SourceToken::Other, q + 1)
    }
}

fn is_ident_start_byte(b: u8) -> (r: bool)
    ensures
        r == is_ident_start(b),
{
    (0x61 <= b && b <= 0x7a) || (0x41 <= b && b <= 0x5a) || b == 0x5f || b == 0x24
}

/// Tokens of the argument grammar. White space is skipped between tokens.
#[derive(Clone, Copy, Debug, PartialEq, Eq, Structural)]
pub enum ArgToken {
    Comment,
    Symbol,
    LParen,
    RParen,
    Comma,
    Char,
    /// A string literal; the span covers its content, from just past the first
    /// opening quote to just before the last closing quote.
    String(Span),
    Int,
    Float,
    /// One of the casts `(int)`, `(float)` and `(char*)`.
    TypeCast(CType),
    /// An identifier; the span covers it.
    Identifier(Span),
    Unknown,
}

pub open spec fn is_symbol(b: u8) -> bool {
    b == 0x3b || b == 0x7b || b == 0x7d || b == 0x3a || b == 0x3d || b == 0x5b || b == 0x5d || b
        == 0x2e || b == 0x26 || b == 0x21 || b == 0x7e || b == 0x2d || b == 0x2b || b == 0x2a || b
        == 0x2f || b == 0x25 || b == 0x3c || b == 0x3e || b == 0x5e || b == 0x7c || b == 0x3f || b
        == 0x5c || b == 0x23
}

fn is_symbol_byte(b: u8) -> (r: bool)
    ensures
        r == is_symbol(b),
{
    b == 0x3b || b == 0x7b || b == 0x7d || b == 0x3a || b == 0x3d || b == 0x5b || b == 0x5d || b
        == 0x2e || b == 0x26 || b == 0x21 || b == 0x7e || b == 0x2d || b == 0x2b || b == 0x2a || b
        == 0x2f || b == 0x25 || b == 0x3c || b == 0x3e || b == 0x5e || b == 0x7c || b == 0x3f || b
        == 0x5c || b == 0x23
}

pub open spec fn is_exponent_letter(b: u8) -> bool {
    b == 0x65 || b == 0x45 || b == 0x70 || b == 0x50
}

/// The end of a numeric literal whose rest starts at `p`: digits, letters,
/// dots, and a sign right after an exponent letter.
pub open spec fn number_end(s: Seq<u8>, p: int) -> int
    decreases s.len() - p,
{
    if 0 < p < s.len() && (is_ident_continue(s[p]) || s[p] == 0x2e || ((s[p] == 0x2b || s[p]
        == 0x2d) && is_exponent_letter(s[p - 1]))) {
        number_end(s, p + 1)
    } else {
        p
    }
}

fn number_end_exec(s: &[u8], p: usize) -> (r: usize)
    requires
        0 < p <= s@.len(),
    ensures
        r == number_end(s@, p as int),
        p <= r <= s@.len(),
{
    let mut i: usize = p;
    while i < s.len() && (is_ident_byte(s[i]) || s[i] == 0x2e || ((s[i] == 0x2b || s[i] == 0x2d)
        && (s[i - 1] == 0x65 || s[i - 1] == 0x45 || s[i - 1] == 0x70 || s[i - 1] == 0x50)))
        invariant
            0 < p <= i <= s@.len(),
            number_end(s@, i as int) == number_end(s@, p as int),
        decreases s@.len() - i,
    {
        i = i + 1;
    }
    i
}

/// Whether a byte of `[p, e)` is `a` or `b`.
pub open spec fn has_byte(s: Seq<u8>, p: int, e: int, a: u8, b: u8) -> bool {
    exists|i: int| p <= i < e && (s[i] == a || s[i] == b)
}

fn has_byte_exec(s: &[u8], p: usize, e: usize, a: u8, b: u8) -> (r: bool)
    requires
        p <= e <= s@.len(),
    ensures
        r == has_byte(s@, p as int, e as int, a, b),
{
    let mut i: usize = p;
    while i < e
        invariant
            p <= i <= e <= s@.len(),
            forall|j: int| p <= j < i ==> s@[j] != a && s@[j] != b,
        decreases e - i,
    {
        if s[i] == a || s[i] == b {
            return true;
        }
        i = i + 1;
    }
    false
}

/// Whether the numeric literal `[q, e)` is a floating-point literal: it has a
/// dot, or an exponent (`p` after a hexadecimal prefix, `e` otherwise).
pub open spec fn number_is_float(s: Seq<u8>, q: int, e: int) -> bool {
    has_byte(s, q, e, 0x2e, 0x2e) || if q + 1 < e && s[q] == 0x30 && (s[q + 1] == 0x78 || s[q
        + 1] == 0x58) {
        has_byte(s, q, e, 0x70, 0x50)
    } else {
        has_byte(s, q, e, 0x65, 0x45)
    }
}

/// The argument token at `q` (which holds no white space) and the position
/// just past it.
pub open spec fn arg_token(s: Seq<u8>, q: int) -> (ArgToken, int) {
    if comment_end(s, q) is Some {
        (ArgToken::Comment, comment_end(s, q)->0)
    } else if string_end(s, q) is Some {
        (
            ArgToken::String(
                Span {
                    start: (piece_open(s, q, 0x22)->0 + 1) as usize,
                    end: (string_end(s, q)->0 - 1) as usize,
                },
            ),
            string_end(s, q)->0,
        )
    } else if piece_close(s, q, 0x27) is Some {
        (ArgToken::Char, piece_close(s, q, 0x27)->0)
    } else if starts_with(s, q, seq![0x28u8, 0x69, 0x6e, 0x74, 0x29]) {
        (ArgToken::TypeCast(CType::Int), q + 5)
    } else if starts_with(s, q, seq![0x28u8, 0x66, 0x6c, 0x6f, 0x61, 0x74, 0x29]) {
        (ArgToken::TypeCast(CType::Float), q + 7)
    } else if starts_with(s, q, seq![0x28u8, 0x63, 0x68, 0x61, 0x72, 0x2a, 0x29]) {
        (ArgToken::TypeCast(CType::String), q + 7)
    } else if s[q] == 0x28 {
        (ArgToken::LParen, q + 1)
    } else if s[q] == 0x29 {
        (ArgToken::RParen, q + 1)
    } else if s[q] == 0x2c {
        (ArgToken::Comma, q + 1)
    } else if is_digit(s[q]) || (s[q] == 0x2e && q + 1 < s.len() && is_digit(s[q + 1])) {
        (
            if number_is_float(s, q, number_end(s, q + 1)) {
                ArgToken::Float
            } else {
                ArgToken::Int
            },
            number_end(s, q + 1),
        )
    } else if is_ident_start(s[q]) {
        (
            ArgToken::Identifier(Span { start: q as usize, end: ident_end(s, q + 1) as usize }),
            ident_end(s, q + 1),
        )
    } else if is_symbol(s[q]) {
        (ArgToken::Symbol, q + 1)
    } else {
        (ArgToken::Unknown, q + 1)
    }
}

/// The span without its first and last byte: the content of a quoted literal.
pub fn trim(sp: Span) -> (r: Span)
    requires
        sp.start + 2 <= sp.end,
    ensures
        r == (Span { start: (sp.start + 1) as usize, end: (sp.end - 1) as usize }),
{
    Span { start: sp.start + 1, end: sp.end - 1 }
}

/// Reads the argument token at `q`, which must not hold white space.
pub fn next_arg_token(s: &[u8], q: usize) -> (r: (ArgToken, usize))
    requires
        q < s@.len(),
    ensures
        (r.0, r.1 as int) == arg_token(s@, q as int),
        q < r.1 <= s@.len(),
        r.0 matches ArgToken::String(c) ==> c.start <= c.end <= s@.len(),
        r.0 matches ArgToken::Identifier(id) ==> id.start <= id.end <= s@.len(),
{
    let n = s.len();
    if let Some(e) = comment_end_exec(s, q) {
        return (ArgToken::Comment, e);
    }
    if let Some(open) = piece_open_exec(s, q, 0x22) {
        if let Some(c) = quoted_close_exec(s, open + 1, 0x22) {
            let e = string_run_close_exec(s, c);
            return (ArgToken::String(trim(Span { start: open, end: e })), e);
        }
    }
    if let Some(e) = piece_close_exec(s, q, 0x27) {
        return (ArgToken::Char, e);
    }
    let cast_int: &[u8] = &[0x28u8, 0x69, 0x6e, 0x74, 0x29];
    let cast_float: &[u8] = &[0x28u8, 0x66, 0x6c, 0x6f, 0x61, 0x74, 0x29];
    let cast_string: &[u8] = &[0x28u8, 0x63, 0x68, 0x61, 0x72, 0x2a, 0x29];
    assert(cast_int@ =~= seq![0x28u8, 0x69, 0x6e, 0x74, 0x29]);
    assert(cast_float@ =~= seq![0x28u8, 0x66, 0x6c, 0x6f, 0x61, 0x74, 0x29]);
    assert(cast_string@ =~= seq![0x28u8, 0x63, 0x68, 0x61, 0x72, 0x2a, 0x29]);
    if starts_with_exec(s, q, cast_int) {
        return (ArgToken::TypeCast(CType::Int), q + 5);
    }
    if starts_with_exec(s, q, cast_float) {
        return (ArgToken::TypeCast(CType::Float), q + 7);
    }
    if starts_with_exec(s, q, cast_string) {
        return (ArgToken::TypeCast(CType::String), q + 7);
    }
    let b = s[q];
    if b == 0x28 {
        (ArgToken::LParen, q + 1)
    } else if b == 0x29 {
        (ArgToken::RParen, q + 1)
    } else if b == 0x2c {
        (ArgToken::Comma, q + 1)
    } else if (0x30 <= b && b <= 0x39) || (b == 0x2e && n - q > 1 && 0x30 <= s[q + 1] && s[q + 1]
        <= 0x39) {
        let e = number_end_exec(s, q + 1);
        let dot = has_byte_exec(s, q, e, 0x2e, 0x2e);
        let hex = q + 1 < e && b == 0x30 && (s[q + 1] == 0x78 || s[q + 1] == 0x58);
        let exp = if hex {
            has_byte_exec(s, q, e, 0x70, 0x50)
        } else {
            has_byte_exec(s, q, e, 0x65, 0x45)
        };
        if dot || exp {
            (ArgToken::Float, e)
        } else {
            (ArgToken::Int, e)
        }
    } else if is_ident_start_byte(b) {
        let e = ident_end_exec(s, q + 1);
        (ArgToken::Identifier(Span { start: q, end: e }), e)
    } else if is_symbol_byte(b) {
        (ArgToken::Symbol, q + 1)
    } else {
        (ArgToken::Unknown, q + 1)
    }
}


/// Tokens of the format grammar, read inside a format string's content.
#[derive(Clone, Copy, Debug, PartialEq, Eq, Structural)]
pub enum FormatToken {
    /// `%d`, `%i`, `%f` or `%s`, with optional options in between.
    Specifier(Specifier),
    /// Any other text, `%%` and escape sequences included.
    Normal,
}

/// The first position at or after `p`, and before `ce`, that is no digit.
pub open spec fn digits_end(s: Seq<u8>, p: int, ce: int) -> int
    decreases ce - p,
{
    if 0 <= p < ce && p < s.len() && is_digit(s[p]) {
        digits_end(s, p + 1, ce)
    } else {
        p
    }
}

fn digits_end_exec(s: &[u8], p: usize, ce: usize) -> (r: usize)
    requires
        p <= ce <= s@.len(),
    ensures
        r == digits_end(s@, p as int, ce as int),
        p <= r <= ce,
{
    let mut i: usize = p;
    while i < ce && 0x30 <= s[i] && s[i] <= 0x39
        invariant
            p <= i <= ce <= s@.len(),
            digits_end(s@, i as int, ce as int) == digits_end(s@, p as int, ce as int),
        decreases ce - i,
    {
        i = i + 1;
    }
    i
}

/// The end of a specifier's options starting at `p`: an optional sign, then
/// digits with an optional fraction, or a dot and digits. Where there are no
/// options this is `p`.
pub open spec fn options_end(s: Seq<u8>, p: int, ce: int) -> int {
    let a = if p < ce && (s[p] == 0x2b || s[p] == 0x2d) {
        p + 1
    } else {
        p
    };
    let d = digits_end(s, a, ce);
    if d > a {
        if d < ce && s[d] == 0x2e {
            digits_end(s, d + 1, ce)
        } else {
            d
        }
    } else if a + 1 < ce && s[a] == 0x2e && is_digit(s[a + 1]) {
        digits_end(s, a + 1, ce)
    } else {
        p
    }
}

fn options_end_exec(s: &[u8], p: usize, ce: usize) -> (r: usize)
    requires
        p <= ce <= s@.len(),
    ensures
        r == options_end(s@, p as int, ce as int),
        p <= r <= ce,
{
    let a = if p < ce && (s[p] == 0x2b || s[p] == 0x2d) {
        p + 1
    } else {
        p
    };
    let d = digits_end_exec(s, a, ce);
    if d > a {
        if d < ce && s[d] == 0x2e {
            digits_end_exec(s, d + 1, ce)
        } else {
            d
        }
    } else if ce - a > 1 && s[a] == 0x2e && 0x30 <= s[a + 1] && s[a + 1] <= 0x39 {
        digits_end_exec(s, a + 1, ce)
    } else {
        p
    }
}

/// The type a specifier letter asks for.
pub open spec fn letter_type(b: u8) -> Option<CType> {
    if b == 0x64 || b == 0x69 {
        Some(CType::Int)
    } else if b == 0x66 {
        Some(CType::Float)
    } else if b == 0x73 {
        Some(CType::String)
    } else {
        None
    }
}

/// The format token at `p`, inside content that ends at `ce`, and the
/// position just past it.
pub open spec fn format_token(s: Seq<u8>, p: int, ce: int) -> (FormatToken, int) {
    if s[p] == 0x25 {
        if p + 1 < ce && s[p + 1] == 0x25 {
            (FormatToken::Normal, p + 2)
        } else {
            let o = options_end(s, p + 1, ce);
            if o < ce && letter_type(s[o]) is Some {
                (
                    FormatToken::Specifier(
                        Specifier {
                            options: Span { start: (p + 1) as usize, end: o as usize },
                            ctype: letter_type(s[o])->0,
                        },
                    ),
                    o + 1,
                )
            } else {
                (FormatToken::Normal, p + 1)
            }
        }
    } else if s[p] == 0x5c && p + 1 < ce {
        (FormatToken::Normal, p + 2)
    } else {
        (FormatToken::Normal, p + 1)
    }
}

/// Reads the format token at `p`, inside content that ends at `ce`.
pub fn next_format_token(s: &[u8], p: usize, ce: usize) -> (r: (FormatToken, usize))
    requires
        p < ce <= s@.len(),
    ensures
        (r.0, r.1 as int) == format_token(s@, p as int, ce as int),
        p < r.1 <= ce,
        r.0 matches FormatToken::Specifier(sp) ==> p < sp.options.start <= sp.options.end < r.1,
{
    if s[p] == 0x25 {
        if ce - p > 1 && s[p + 1] == 0x25 {
            (FormatToken::Normal, p + 2)
        } else {
            let o = options_end_exec(s, p + 1, ce);
            if o < ce {
                let b = s[o];
                let ctype = if b == 0x64 || b == 0x69 {
                    Some(CType::Int)
                } else if b == 0x66 {
                    Some(CType::Float)
                } else if b == 0x73 {
                    Some(CType::String)
                } else {
                    None
                };
                if let Some(t) = ctype {
                    return (
                        FormatToken::Specifier(
                            Specifier { options: Span { start: p + 1, end: o }, ctype: t },
                        ),
                        o + 1,
                    );
                }
            }
            (FormatToken::Normal, p + 1)
        }
    } else if s[p] == 0x5c && ce - p > 1 {
        (FormatToken::Normal, p + 2)
    } else {
        (FormatToken::Normal, p + 1)
    }
}

} // verus!
