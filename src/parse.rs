//! Splitting a call into its arguments, and a format string into specifiers.
use crate::error::{nonliteral_help, Error, ErrorModel};
use crate::ir::CType;
use crate::lex::{arg_token, next_arg_token, skip_whitespace, skip_ws, spec_union, ArgToken, format_token, next_format_token, FormatToken, Span};
use vstd::prelude::*;

verus! {

/// A specifier in a format string, such as `%-2.3f`.
#[derive(Clone, Copy, Debug, PartialEq, Eq, Structural)]
pub struct Specifier {
    /// The span of the options between `%` and the letter (`-2.3` in `%-2.3f`).
    pub options: Span,
    /// The C type that the specifier's letter asks for.
    pub ctype: CType,
}


impl Specifier {
    /// Returns a new [`Specifier`].
    pub fn new(options: Span, ctype: CType) -> (r: Self)
        ensures
            r == (Specifier { options, ctype }),
    {
        Specifier { options, ctype }
    }
}

/// One specifier found in a format string, with the literal text before it.
#[derive(Clone, Copy, Debug, PartialEq, Eq, Structural)]
pub struct FormatItem {
    /// The literal text between the previous specifier (or the start of the
    /// content) and this one.
    pub before: Span,
    pub specifier: Specifier,
    /// The span of the whole specifier, `%` and letter included.
    pub span: Span,
}

/// Scans format content from `p` to `ce`; `chunk` is where the literal text
/// pending since the last specifier starts. Returns the specifiers and the
/// literal text after the last of them.
pub open spec fn format_scan(s: Seq<u8>, p: int, ce: int, chunk: int, acc: Seq<FormatItem>) -> (
    Seq<FormatItem>,
    Span,
)
    decreases ce - p,
{
    let rest = Span { start: chunk as usize, end: ce as usize };
    if p < 0 || p >= ce || ce > s.len() {
        (acc, rest)
    } else {
        let (t, e) = format_token(s, p, ce);
        if e <= p {
            (acc, rest)
        } else {
            match t {
                FormatToken::Specifier(sp) => format_scan(
                    s,
                    e,
                    ce,
                    e,
                    acc.push(
                        FormatItem {
                            before: Span { start: chunk as usize, end: p as usize },
                            specifier: sp,
                            span: Span { start: p as usize, end: e as usize },
                        },
                    ),
                ),
                FormatToken::Normal => format_scan(s, e, ce, chunk, acc),
            }
        }
    }
}

/// The specifiers of the format content `content`, and the text after the last.
pub open spec fn format_items(s: Seq<u8>, content: Span) -> (Seq<FormatItem>, Span) {
    format_scan(s, content.start as int, content.end as int, content.start as int, seq![])
}

/// Whether the literal text and the options of every specifier lie within a
/// text of `n` bytes.
pub open spec fn items_wf(items: Seq<FormatItem>, n: int) -> bool {
    forall|i: int|
        0 <= i < items.len() ==> span_wf(#[trigger] items[i].before, n) && span_wf(
            items[i].specifier.options,
            n,
        )
}

/// The specifiers of a format string, each with the literal text before it,
/// and the literal text after the last one.
#[derive(Debug)]
pub struct Specifiers {
    pub items: Vec<FormatItem>,
    /// The text after the last specifier.
    pub remainder: Span,
}

impl Specifiers {
    /// Scans the format string content at `content` in `s`.
    pub fn new(s: &[u8], content: Span) -> (r: Self)
        requires
            content.start <= content.end <= s@.len(),
        ensures
            (r.items@, r.remainder) == format_items(s@, content),
            span_wf(r.remainder, s@.len() as int),
            items_wf(r.items@, s@.len() as int),
    {
        let ce = content.end;
        let mut p: usize = content.start;
        let mut chunk: usize = content.start;
        let mut items: Vec<FormatItem> = Vec::new();
        while p < ce
            invariant
                content.start <= chunk <= p <= ce,
                ce == content.end,
                ce <= s@.len(),
                items_wf(items@, s@.len() as int),
                format_items(s@, content) == format_scan(
                    s@,
                    p as int,
                    ce as int,
                    chunk as int,
                    items@,
                ),
            decreases ce - p,
        {
            let (t, e) = next_format_token(s, p, ce);
            match t {
                FormatToken::Specifier(sp) => {
                    items.push(
                        FormatItem {
                            before: Span { start: chunk, end: p },
                            specifier: sp,
                            span: Span { start: p, end: e },
                        },
                    );
                    chunk = e;
                },
                FormatToken::Normal => {},
            }
            p = e;
        }
        Specifiers { items, remainder: Span { start: chunk, end: ce } }
    }
}


/// An argument in a function call.
#[derive(Clone, Copy, Debug)]
pub struct Arg {
    /// The token, if there's exactly one (not counting comments, parentheses
    /// and a leading cast).
    pub single_token: Option<ArgToken>,
    /// The span of the argument's text.
    pub span: Span,
    /// The argument's leading type cast and its span, if it has one.
    pub cast: Option<(CType, Span)>,
}

/// An argument as far as it has been read.
#[derive(Clone, Copy, Debug)]
pub struct ArgDraft {
    /// The span of the tokens read so far, if any.
    pub span: Option<Span>,
    pub cast: Option<(CType, Span)>,
    /// The first counted token, while it is the only one.
    pub single: Option<ArgToken>,
    /// Whether a counted token has been read.
    pub counted: bool,
    /// Whether anything but comments has been read.
    pub content: bool,
}

pub open spec fn empty_draft() -> ArgDraft {
    ArgDraft { span: None, cast: None, single: None, counted: false, content: false }
}

/// The draft after one more token that neither ends the argument nor the list.
/// Comments only widen the span; parentheses are content but not counted; a
/// cast before any content is the argument's cast; anything else is counted.
pub open spec fn draft_step(d: ArgDraft, tok: ArgToken, sp: Span) -> ArgDraft {
    let span = Some(spec_union(d.span, sp));
    match tok {
        ArgToken::Comment => ArgDraft { span, ..d },
        ArgToken::LParen | ArgToken::RParen => ArgDraft { span, content: true, ..d },
        ArgToken::TypeCast(t) if !d.content => ArgDraft {
            span,
            cast: Some((t, sp)),
            content: true,
            ..d
        },
        _ => ArgDraft {
            span,
            single: if d.counted {
                None
            } else {
                Some(tok)
            },
            counted: true,
            content: true,
            ..d
        },
    }
}

/// The argument that a draft makes; an empty draft makes none.
pub open spec fn draft_arg(d: ArgDraft) -> Option<Arg> {
    match d.span {
        Some(span) => Some(Arg { single_token: d.single, span, cast: d.cast }),
        None => None,
    }
}

/// Adds the argument of a finished draft, unless the list has already ended
/// at an empty argument; an empty draft ends it.
pub open spec fn finish(args: Seq<Arg>, done: bool, d: ArgDraft) -> (Seq<Arg>, bool) {
    if done {
        (args, true)
    } else {
        match draft_arg(d) {
            Some(a) => (args.push(a), false),
            None => (args, true),
        }
    }
}

/// Splits arguments from `p` on. `region` is where the argument list starts,
/// `depth` the number of open inner parentheses, `last` the end of the last
/// token read. Returns the arguments, the span of the argument list, and the
/// position just past its closing parenthesis (the end of the text if there
/// is none; the unterminated last argument is then dropped).
pub open spec fn split_scan(
    s: Seq<u8>,
    p: int,
    region: int,
    depth: int,
    d: ArgDraft,
    args: Seq<Arg>,
    done: bool,
    last: int,
) -> (Seq<Arg>, Span, int)
    decreases s.len() - p,
{
    let q = skip_ws(s, p);
    if q < 0 || q >= s.len() {
        (args, Span { start: region as usize, end: last as usize }, s.len() as int)
    } else {
        let (tok, e) = arg_token(s, q);
        let sp = Span { start: q as usize, end: e as usize };
        if e <= p || e > s.len() {
            (args, Span { start: region as usize, end: last as usize }, s.len() as int)
        } else if tok == ArgToken::Comma && depth == 0 {
            let (args2, done2) = finish(args, done, d);
            split_scan(s, e, region, 0, empty_draft(), args2, done2, e)
        } else if tok == ArgToken::RParen && depth == 0 {
            (finish(args, done, d).0, Span { start: region as usize, end: q as usize }, e)
        } else if tok == ArgToken::LParen {
            split_scan(s, e, region, depth + 1, draft_step(d, tok, sp), args, done, e)
        } else if tok == ArgToken::RParen {
            split_scan(s, e, region, depth - 1, draft_step(d, tok, sp), args, done, e)
        } else {
            split_scan(s, e, region, depth, draft_step(d, tok, sp), args, done, e)
        }
    }
}

/// The arguments of a call whose opening parenthesis ends at `start`.
pub open spec fn split_args(s: Seq<u8>, start: int) -> (Seq<Arg>, Span, int) {
    split_scan(s, start, start, 0, empty_draft(), seq![], false, start)
}

/// The smallest span that covers `span` (if any) and `other`, which follows it.
pub fn union(span: Option<Span>, other: Span) -> (r: Span)
    ensures
        r == spec_union(span, other),
{
    match span {
        Some(x) => Span { start: x.start, end: other.end },
        None => other,
    }
}

fn draft_step_exec(d: ArgDraft, tok: ArgToken, sp: Span) -> (r: ArgDraft)
    ensures
        r == draft_step(d, tok, sp),
{
    let span = Some(union(d.span, sp));
    match tok {
        ArgToken::Comment => ArgDraft { span, ..d },
        ArgToken::LParen | ArgToken::RParen => ArgDraft { span, content: true, ..d },
        ArgToken::TypeCast(t) if !d.content => ArgDraft {
            span,
            cast: Some((t, sp)),
            content: true,
            ..d
        },
        _ => ArgDraft {
            span,
            single: if d.counted {
                None
            } else {
                Some(tok)
            },
            counted: true,
            content: true,
            ..d
        },
    }
}

fn finish_exec(args: &mut Vec<Arg>, done: bool, d: ArgDraft) -> (r: bool)
    ensures
        (final(args)@, r) == finish(old(args)@, done, d),
        final(args)@.len() == old(args)@.len() || final(args)@ == old(args)@.push(
            draft_arg(d)->0,
        ) && draft_arg(d) is Some,
{
    if done {
        true
    } else {
        match d.span {
            Some(span) => {
                args.push(Arg { single_token: d.single, span, cast: d.cast });
                false
            },
            None => true,
        }
    }
}

/// The arguments of one call, read up to its closing parenthesis.
#[derive(Debug)]
pub struct Args {
    pub args: Vec<Arg>,
    /// The span of the whole argument list, parentheses excluded.
    pub span: Span,
    /// The position just past the closing parenthesis.
    pub end: usize,
}

impl Args {
    /// Reads the arguments of a call whose opening parenthesis ends at `start`.
    pub fn new(s: &[u8], start: usize) -> (r: Self)
        requires
            start <= s@.len(),
        ensures
            (r.args@, r.span, r.end as int) == split_args(s@, start as int),
            start <= r.end <= s@.len(),
            r.wf(s@.len() as int),
    {
        let mut p: usize = start;
        let mut depth: usize = 0;
        let mut d = ArgDraft { span: None, cast: None, single: None, counted: false, content: false };
        let mut args: Vec<Arg> = Vec::new();
        let mut done = false;
        let mut last: usize = start;
        loop
            invariant
                start <= p <= s@.len(),
                depth <= p,
                start <= last <= p,
                forall|i: int| 0 <= i < args@.len() ==> arg_wf(#[trigger] args@[i], s@.len() as int),
                d.span matches Some(x) ==> x.start <= x.end <= p,
                d.single matches Some(t) ==> token_wf(t, s@.len() as int),
                d.cast matches Some(c) ==> span_wf(c.1, s@.len() as int),
                split_args(s@, start as int) == split_scan(
                    s@,
                    p as int,
                    start as int,
                    depth as int,
                    d,
                    args@,
                    done,
                    last as int,
                ),
            decreases s@.len() - p,
        {
            let q = skip_whitespace(s, p);
            if q >= s.len() {
                return Args { args, span: Span { start, end: last }, end: s.len() };
            }
            let (tok, e) = next_arg_token(s, q);
            let sp = Span { start: q, end: e };
            if tok == ArgToken::Comma && depth == 0 {
                done = finish_exec(&mut args, done, d);
                d = ArgDraft { span: None, cast: None, single: None, counted: false, content: false };
            } else if tok == ArgToken::RParen && depth == 0 {
                finish_exec(&mut args, done, d);
                return Args { args, span: Span { start, end: q }, end: e };
            } else if tok == ArgToken::LParen {
                depth = depth + 1;
                d = draft_step_exec(d, tok, sp);
            } else if tok == ArgToken::RParen {
                depth = depth - 1;
                d = draft_step_exec(d, tok, sp);
            } else {
                d = draft_step_exec(d, tok, sp);
            }
            p = e;
            last = e;
        }
    }
}


/// Whether a span lies within a text of `n` bytes.
pub open spec fn span_wf(sp: Span, n: int) -> bool {
    sp.start <= sp.end <= n
}

/// Whether the spans a token carries lie within a text of `n` bytes.
pub open spec fn token_wf(t: ArgToken, n: int) -> bool {
    match t {
        ArgToken::String(c) => span_wf(c, n),
        ArgToken::Identifier(id) => span_wf(id, n),
        _ => true,
    }
}

/// Whether the spans an argument carries lie within a text of `n` bytes.
pub open spec fn arg_wf(a: Arg, n: int) -> bool {
    span_wf(a.span, n) && (a.single_token matches Some(t) ==> token_wf(t, n)) && (a.cast matches Some(
        c,
    ) ==> span_wf(c.1, n))
}

/// The format string at argument `i`: its content and its span, or the error
/// on a missing or nonliteral format string.
pub open spec fn format_string_at(s: Seq<u8>, args: Seq<Arg>, span: Span, i: int) -> Result<
    (Span, Span),
    ErrorModel,
> {
    if i >= args.len() {
        Err(ErrorModel::MissingFunctionArgs(span))
    } else {
        match args[i].single_token {
            Some(ArgToken::String(c)) => Ok((c, args[i].span)),
            _ => Err(
                ErrorModel::NonliteralFormat { span: args[i].span, help: nonliteral_help(s, args[i]) },
            ),
        }
    }
}

impl Args {
    /// Whether every span held lies within a text of `n` bytes.
    pub open spec fn wf(&self, n: int) -> bool {
        span_wf(self.span, n) && forall|i: int| 0 <= i < self.args@.len() ==> arg_wf(self.args@[i], n)
    }

    /// The number of arguments after the first `consumed`, and the span of the
    /// whole argument list.
    pub fn short_circuit(&self, consumed: usize) -> (r: (usize, Span))
        requires
            consumed <= self.args@.len(),
        ensures
            r == ((self.args@.len() - consumed) as usize, self.span),
    {
        (self.args.len() - consumed, self.span)
    }

    /// Reads argument `i` as a format string literal: returns the span of its
    /// content and its own span.
    pub fn next_format_string(&self, s: &[u8], i: usize) -> (r: Result<(Span, Span), Error>)
        requires
            self.wf(s@.len() as int),
        ensures
            match r {
                Ok(v) => format_string_at(s@, self.args@, self.span, i as int) == Ok::<
                    (Span, Span),
                    ErrorModel,
                >(v),
                Err(e) => format_string_at(s@, self.args@, self.span, i as int) == Err::<
                    (Span, Span),
                    ErrorModel,
                >(e@),
            },
            r matches Ok(v) ==> span_wf(v.0, s@.len() as int) && span_wf(v.1, s@.len() as int),
    {
        if i >= self.args.len() {
            return Err(Error::MissingFunctionArgs(self.span));
        }
        let arg = &self.args[i];
        assert(arg_wf(*arg, s@.len() as int));
        match arg.single_token {
            Some(ArgToken::String(c)) => Ok((c, arg.span)),
            _ => Err(Error::nonliteral(s, arg)),
        }
    }
}

} // verus!
