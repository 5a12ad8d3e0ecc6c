//! The intermediate representation of a checked file and its two renderings.
use crate::error::{errors_view, Error, ErrorModel};
use crate::lex::{next_source_token, skip_whitespace, skip_ws, source_token, SourceToken, Span};
use crate::parse::{arg_wf, format_items, items_wf, span_wf, Arg, Args, FormatItem, Specifier, Specifiers};
use vstd::prelude::*;
use vstd::string::*;

verus! {

/// C types that can be formatted.
#[derive(Clone, Copy, Debug, PartialEq, Eq, Structural)]
pub enum CType {
    /// int
    Int,
    /// float
    Float,
    /// char*
    String,
}

/// The letter of the specifier that prints a type.
pub open spec fn spec_specifier_char(t: CType) -> char {
    match t {
        CType::Int => 'd',
        CType::Float => 'f',
        CType::String => 's',
    }
}

/// The name of the runtime function that prints a type.
pub open spec fn format_fn_name(t: CType) -> Seq<char> {
    match t {
        CType::Int => "fmt_int"@,
        CType::Float => "fmt_float"@,
        CType::String => "fmt_string"@,
    }
}

/// How a type is written in C.
pub open spec fn ctype_name(t: CType) -> Seq<char> {
    match t {
        CType::Int => "int"@,
        CType::Float => "float"@,
        CType::String => "char*"@,
    }
}

impl CType {
    /// Character used that tells C how to format a value in a format string.
    pub fn specifier_char(&self) -> (r: char)
        ensures
            r == spec_specifier_char(*self),
    {
        match self {
            CType::Int => 'd',
            CType::Float => 'f',
            CType::String => 's',
        }
    }

    /// Name of our function ptr that optimizes a print for a C type.
    pub fn format_fn(&self) -> (r: &'static str)
        ensures
            r@ == format_fn_name(*self),
    {
        match self {
            CType::Int => "fmt_int",
            CType::Float => "fmt_float",
            CType::String => "fmt_string",
        }
    }

    /// How the type is written in C.
    pub fn name(&self) -> (r: &'static str)
        ensures
            r@ == ctype_name(*self),
    {
        match self {
            CType::Int => "int",
            CType::Float => "float",
            CType::String => "char*",
        }
    }
}

/// Pair between an argument to be printed and the specifier that tells us
/// how it should be printed.
#[derive(Clone, Copy, Debug, PartialEq, Eq, Structural)]
pub struct FormatValue {
    /// The span of the argument e.g. `name`.
    pub arg: Span,
    /// The argument was type casted the same type as the specifier expects.
    pub type_checked: bool,
    /// The specifier e.g. `%10s`.
    pub specifier: Specifier,
}

impl View for FormatValue {
    type V = FormatValue;

    open spec fn view(&self) -> FormatValue {
        *self
    }
}

/// A set of string chunks and values that separate them.
#[derive(Debug)]
pub struct Interpolation<T> {
    pub pairs: Vec<(Span, T)>,
    pub last: Span,
}

/// An [`Interpolation`] with each value seen through its view.
pub struct InterpolationModel<V> {
    pub pairs: Seq<(Span, V)>,
    pub last: Span,
}

impl<T: View> View for Interpolation<T> {
    type V = InterpolationModel<T::V>;

    open spec fn view(&self) -> InterpolationModel<T::V> {
        InterpolationModel { pairs: self.pairs@.map_values(|p: (Span, T)| (p.0, p.1@)), last: self.last }
    }
}

impl<T> Interpolation<T> {
    /// Returns a new [`Interpolation`].
    pub fn new(pairs: Vec<(Span, T)>, last: Span) -> (r: Self)
        ensures
            r.pairs@ == pairs@,
            r.last == last,
    {
        Interpolation { pairs, last }
    }
}

/// Whether every span of a matched format string lies within a text of `n` bytes.
pub open spec fn format_wf(m: InterpolationModel<FormatValue>, n: int) -> bool {
    span_wf(m.last, n) && values_wf(m.pairs, n)
}

/// Whether every chunk, argument and option span of the values lies within a
/// text of `n` bytes.
pub open spec fn values_wf(pairs: Seq<(Span, FormatValue)>, n: int) -> bool {
    forall|i: int|
        0 <= i < pairs.len() ==> span_wf(#[trigger] pairs[i].0, n) && span_wf(pairs[i].1.arg, n)
            && span_wf(pairs[i].1.specifier.options, n)
}

/// The value a specifier and its argument make; it is type checked when the
/// argument's cast is the specifier's type.
pub open spec fn value_of(item: FormatItem, arg: Arg) -> FormatValue {
    FormatValue {
        arg: arg.span,
        type_checked: match arg.cast {
            Some((t, _)) => t == item.specifier.ctype,
            None => false,
        },
        specifier: item.specifier,
    }
}

/// The type errors among the first `n` pairs of specifiers and arguments: one
/// for each argument whose cast differs from its specifier's type, in order.
pub open spec fn mismatches(items: Seq<FormatItem>, args: Seq<Arg>, n: int) -> Seq<ErrorModel>
    decreases n,
{
    if n <= 0 {
        seq![]
    } else {
        let prev = mismatches(items, args, n - 1);
        if cast_mismatch(items[n - 1], args[n - 1]) {
            prev.push(mismatch_error(items[n - 1], args[n - 1]))
        } else {
            prev
        }
    }
}

/// Whether an argument is cast to another type than its specifier's.
pub open spec fn cast_mismatch(item: FormatItem, arg: Arg) -> bool {
    match arg.cast {
        Some((t, _)) => t != item.specifier.ctype,
        None => false,
    }
}

/// The error on an argument cast to another type than its specifier's.
pub open spec fn mismatch_error(item: FormatItem, arg: Arg) -> ErrorModel {
    ErrorModel::SpecifierCastMismatch {
        specifier_span: item.span,
        specifier_ctype: item.specifier.ctype,
        cast_span: (arg.cast->0).1,
        cast_ctype: (arg.cast->0).0,
    }
}

/// One step of matching: a type error where the cast differs, else the value.
fn match_one(
    pairs: &mut Vec<(Span, FormatValue)>,
    errors: &mut Vec<Error>,
    item: FormatItem,
    arg: Arg,
)
    ensures
        cast_mismatch(item, arg) ==> final(pairs)@ == old(pairs)@ && errors_view(final(errors)@)
            == errors_view(old(errors)@).push(mismatch_error(item, arg)),
        !cast_mismatch(item, arg) ==> final(errors)@ == old(errors)@ && final(pairs)@ == old(
            pairs,
        )@.push((item.before, value_of(item, arg))),
{
    let ghost prev_errors = errors@;
    match arg.cast {
        Some((t, sp)) => {
            if t != item.specifier.ctype {
                errors.push(
                    Error::SpecifierCastMismatch {
                        specifier_span: item.span,
                        specifier_ctype: item.specifier.ctype,
                        cast_span: sp,
                        cast_ctype: t,
                    },
                );
                assert(errors_view(errors@) =~= errors_view(prev_errors).push(errors@.last()@));
            } else {
                pairs.push(
                    (item.before, FormatValue { arg: arg.span, type_checked: true, specifier: item.specifier }),
                );
            }
        },
        None => {
            pairs.push(
                (item.before, FormatValue { arg: arg.span, type_checked: false, specifier: item.specifier }),
            );
        },
    }
}

/// Matches the specifiers of a format string (whose span is `format_span`,
/// with `last` the text after its last specifier) against the arguments that
/// follow it (in an argument list whose span is `args_span`).
///
/// Every type error among the pairs is reported; a difference in count adds
/// one error after them. With neither, each specifier gets its argument.
pub open spec fn match_values(
    items: Seq<FormatItem>,
    args: Seq<Arg>,
    format_span: Span,
    args_span: Span,
    last: Span,
) -> Result<InterpolationModel<FormatValue>, Seq<ErrorModel>> {
    let n = if items.len() < args.len() {
        items.len() as int
    } else {
        args.len() as int
    };
    let errs = mismatches(items, args, n);
    if items.len() > args.len() {
        Err(
            errs.push(
                ErrorModel::ExcessSpecifiers {
                    format_span,
                    args_span,
                    additional_specifiers: (items.len() - args.len()) as usize,
                },
            ),
        )
    } else if args.len() > items.len() {
        Err(
            errs.push(
                ErrorModel::ExcessArgs {
                    format_span,
                    args_span,
                    additional_args: (args.len() - items.len()) as usize,
                },
            ),
        )
    } else if errs.len() > 0 {
        Err(errs)
    } else {
        Ok(
            InterpolationModel {
                pairs: Seq::new(items.len(), |i: int| (items[i].before, value_of(items[i], args[i]))),
                last,
            },
        )
    }
}

/// What one call checks to: the spans of the `pre` arguments before its format
/// string and its matched format string, or its errors.
pub open spec fn call_result(s: Seq<u8>, args: Seq<Arg>, span: Span, pre: int) -> Result<
    (Seq<Span>, InterpolationModel<FormatValue>),
    Seq<ErrorModel>,
> {
    if args.len() < pre {
        Err(seq![ErrorModel::MissingFunctionArgs(span)])
    } else {
        match crate::parse::format_string_at(s, args, span, pre) {
            Err(e) => Err(seq![e]),
            Ok((content, format_span)) => {
                let (items, last) = format_items(s, content);
                match match_values(
                    items,
                    args.subrange(pre + 1, args.len() as int),
                    format_span,
                    span,
                    last,
                ) {
                    Ok(m) => Ok((Seq::new(pre as nat, |i: int| args[i].span), m)),
                    Err(es) => Err(es),
                }
            },
        }
    }
}

/// Matches the specifiers of a format string against the arguments from
/// `from` on.
fn match_args(
    items: &Vec<FormatItem>,
    args: &Args,
    from: usize,
    format_span: Span,
    last: Span,
    s_len: Ghost<int>,
) -> (r: Result<Interpolation<FormatValue>, Vec<Error>>)
    requires
        from <= args.args@.len(),
        args.wf(s_len@),
        span_wf(last, s_len@),
        items_wf(items@, s_len@),
    ensures
        r matches Ok(v) ==> format_wf(v@, s_len@),
        match r {
            Ok(v) => match_values(
                items@,
                args.args@.subrange(from as int, args.args@.len() as int),
                format_span,
                args.span,
                last,
            ) == Ok::<InterpolationModel<FormatValue>, Seq<ErrorModel>>(v@),
            Err(es) => match_values(
                items@,
                args.args@.subrange(from as int, args.args@.len() as int),
                format_span,
                args.span,
                last,
            ) == Err::<InterpolationModel<FormatValue>, Seq<ErrorModel>>(errors_view(es@)),
        },
{
    let ghost rest = args.args@.subrange(from as int, args.args@.len() as int);
    let mut pairs: Vec<(Span, FormatValue)> = Vec::new();
    let mut errors: Vec<Error> = Vec::new();
    let mut i: usize = 0;
    while i < items.len() && i < args.args.len() - from
        invariant
            from <= args.args@.len(),
            rest == args.args@.subrange(from as int, args.args@.len() as int),
            0 <= i <= items@.len(),
            i <= rest.len(),
            errors_view(errors@) == mismatches(items@, rest, i as int),
            errors@.len() == 0 ==> pairs@ == Seq::new(
                i as nat,
                |j: int| (items@[j].before, value_of(items@[j], rest[j])),
            ),
            args.wf(s_len@),
            items_wf(items@, s_len@),
            values_wf(pairs@, s_len@),
        decreases items@.len() - i,
    {
        let item = items[i];
        let arg = args.args[from + i];
        assert(arg == rest[i as int]);
        assert(arg_wf(args.args@[from + i], s_len@));
        assert(span_wf(items@[i as int].before, s_len@));
        let ghost prev_pairs = pairs@;
        let ghost prev_errors = errors@;
        match_one(&mut pairs, &mut errors, item, arg);
        proof {
            assert forall|j: int| 0 <= j < pairs@.len() implies span_wf(#[trigger] pairs@[j].0, s_len@)
                && span_wf(pairs@[j].1.arg, s_len@) && span_wf(pairs@[j].1.specifier.options, s_len@) by {
                if j < prev_pairs.len() {
                    assert(pairs@[j] == prev_pairs[j]);
                }
            }
            if errors@.len() == 0 {
                assert(errors_view(errors@).len() == 0);
                assert(!cast_mismatch(item, arg));
                assert(prev_errors.len() == 0);
                assert(prev_pairs == Seq::new(
                    i as nat,
                    |j: int| (items@[j].before, value_of(items@[j], rest[j])),
                ));
                assert(pairs@ =~= Seq::new(
                    (i + 1) as nat,
                    |j: int| (items@[j].before, value_of(items@[j], rest[j])),
                ));
            }
        }
        i = i + 1;
    }
    if items.len() > args.args.len() - from {
        let ghost prev_errors = errors@;
        errors.push(
            Error::ExcessSpecifiers {
                format_span,
                args_span: args.span,
                additional_specifiers: items.len() - (args.args.len() - from),
            },
        );
        assert(errors_view(errors@) =~= errors_view(prev_errors).push(errors@.last()@));
        return Err(errors);
    }
    if items.len() < args.args.len() - from {
        let (remaining, args_span) = args.short_circuit(from + items.len());
        let ghost prev_errors = errors@;
        errors.push(Error::ExcessArgs { format_span, args_span, additional_args: remaining });
        assert(errors_view(errors@) =~= errors_view(prev_errors).push(errors@.last()@));
        return Err(errors);
    }
    if errors.len() > 0 {
        return Err(errors);
    }
    let r = Interpolation::new(pairs, last);
    assert(format_wf(r@, s_len@));
    assert(r@.pairs =~= Seq::new(
        items@.len(),
        |j: int| (items@[j].before, value_of(items@[j], rest[j])),
    ));
    Ok(r)
}


/// Different callsites for string formatting in C.
#[derive(Debug)]
pub enum Site {
    /// printf
    Printf { format: Interpolation<FormatValue> },
    /// sprintf
    Sprintf { buffer: Span, format: Interpolation<FormatValue> },
    /// snprintf
    Snprintf { buffer: Span, bufsz: Span, format: Interpolation<FormatValue> },
}

/// A [`Site`] with its format string seen through its view.
pub enum SiteModel {
    Printf { format: InterpolationModel<FormatValue> },
    Sprintf { buffer: Span, format: InterpolationModel<FormatValue> },
    Snprintf { buffer: Span, bufsz: Span, format: InterpolationModel<FormatValue> },
}

impl View for Site {
    type V = SiteModel;

    open spec fn view(&self) -> SiteModel {
        match self {
            Site::Printf { format } => SiteModel::Printf { format: format@ },
            Site::Sprintf { buffer, format } => SiteModel::Sprintf { buffer: *buffer, format: format@ },
            Site::Snprintf { buffer, bufsz, format } => SiteModel::Snprintf {
                buffer: *buffer,
                bufsz: *bufsz,
                format: format@,
            },
        }
    }
}

/// Whether every span of a call lies within a text of `n` bytes.
pub open spec fn site_wf(site: SiteModel, n: int) -> bool {
    match site {
        SiteModel::Printf { format } => format_wf(format, n),
        SiteModel::Sprintf { buffer, format } => span_wf(buffer, n) && format_wf(format, n),
        SiteModel::Snprintf { buffer, bufsz, format } => span_wf(buffer, n) && span_wf(bufsz, n)
            && format_wf(format, n),
    }
}

/// Whether every chunk and call lies within a text of `n` bytes.
pub open spec fn site_pairs_wf(pairs: Seq<(Span, SiteModel)>, n: int) -> bool {
    forall|i: int| 0 <= i < pairs.len() ==> span_wf(#[trigger] pairs[i].0, n) && site_wf(pairs[i].1, n)
}

/// Whether every span of a checked file lies within a text of `n` bytes: no
/// span is inverted or reaches past the end.
pub open spec fn sites_wf(m: InterpolationModel<SiteModel>, n: int) -> bool {
    span_wf(m.last, n) && site_pairs_wf(m.pairs, n)
}

/// Whether a source token names a tracked function.
pub open spec fn is_tracked(t: SourceToken) -> bool {
    t == SourceToken::Printf || t == SourceToken::Sprintf || t == SourceToken::Snprintf
}

/// How many arguments a tracked function takes before its format string.
pub open spec fn pre_arg_count(t: SourceToken) -> int {
    match t {
        SourceToken::Sprintf => 1,
        SourceToken::Snprintf => 2,
        _ => 0,
    }
}

/// What a call of the tracked function `t`, with arguments `args` in a list
/// whose span is `span`, checks to.
pub open spec fn site_result(s: Seq<u8>, t: SourceToken, args: Seq<Arg>, span: Span) -> Result<
    SiteModel,
    Seq<ErrorModel>,
> {
    match call_result(s, args, span, pre_arg_count(t)) {
        Ok((pre, format)) => Ok(
            match t {
                SourceToken::Sprintf => SiteModel::Sprintf { buffer: pre[0], format },
                SourceToken::Snprintf => SiteModel::Snprintf { buffer: pre[0], bufsz: pre[1], format },
                _ => SiteModel::Printf { format },
            },
        ),
        Err(es) => Err(es),
    }
}

/// Checks one call: the spans of the `pre` arguments before its format
/// string, and its format string matched against the arguments after it.
pub fn parse_args(s: &[u8], args: &Args, pre: usize) -> (r: Result<
    (Vec<Span>, Interpolation<FormatValue>),
    Vec<Error>,
>)
    requires
        args.wf(s@.len() as int),
    ensures
        match r {
            Ok((spans, format)) => call_result(s@, args.args@, args.span, pre as int) == Ok::<
                (Seq<Span>, InterpolationModel<FormatValue>),
                Seq<ErrorModel>,
            >((spans@, format@)),
            Err(es) => call_result(s@, args.args@, args.span, pre as int) == Err::<
                (Seq<Span>, InterpolationModel<FormatValue>),
                Seq<ErrorModel>,
            >(errors_view(es@)),
        },
        r matches Ok(v) ==> format_wf(v.1@, s@.len() as int) && forall|i: int|
            0 <= i < v.0@.len() ==> span_wf(#[trigger] v.0@[i], s@.len() as int),
{
    if args.args.len() < pre {
        let mut errors = Vec::new();
        errors.push(Error::MissingFunctionArgs(args.span));
        assert(errors_view(errors@) =~= seq![ErrorModel::MissingFunctionArgs(args.span)]);
        return Err(errors);
    }
    let mut spans: Vec<Span> = Vec::new();
    let mut i: usize = 0;
    while i < pre
        invariant
            pre <= args.args@.len(),
            0 <= i <= pre,
            spans@ =~= Seq::new(i as nat, |j: int| args.args@[j].span),
            args.wf(s@.len() as int),
        decreases pre - i,
    {
        assert(arg_wf(args.args@[i as int], s@.len() as int));
        spans.push(args.args[i].span);
        i = i + 1;
    }
    match args.next_format_string(s, pre) {
        Err(e) => {
            let mut errors = Vec::new();
            errors.push(e);
            assert(errors_view(errors@) =~= seq![e@]);
            Err(errors)
        },
        Ok((content, format_span)) => {
            let specifiers = Specifiers::new(s, content);
            match match_args(
                &specifiers.items,
                args,
                pre + 1,
                format_span,
                specifiers.remainder,
                Ghost(s@.len() as int),
            ) {
                Ok(format) => Ok((spans, format)),
                Err(es) => Err(es),
            }
        },
    }
}

/// Scans the source from `p` on. `chunk` is where the ordinary text pending
/// since the last call starts; `acc` holds the checked calls so far, `errs`
/// the errors so far, and `ok` whether every call so far checked.
///
/// A tracked name whose next token is `(` starts a call; the scan goes on
/// just past the call's closing parenthesis. Anything else is ordinary text.
pub open spec fn scan(
    s: Seq<u8>,
    p: int,
    chunk: int,
    acc: Seq<(Span, SiteModel)>,
    errs: Seq<ErrorModel>,
    ok: bool,
) -> Result<InterpolationModel<SiteModel>, Seq<ErrorModel>>
    decreases s.len() - p,
{
    let q = skip_ws(s, p);
    let end = if ok {
        Ok(InterpolationModel { pairs: acc, last: Span { start: chunk as usize, end: s.len() as usize } })
    } else {
        Err(errs)
    };
    if q < 0 || q >= s.len() {
        end
    } else {
        let (tok, e) = source_token(s, q);
        let r = skip_ws(s, e);
        if e <= p || e > s.len() {
            end
        } else if is_tracked(tok) && 0 <= r < s.len() && s[r] == 0x28 {
            let (args, span, after) = crate::parse::split_args(s, r + 1);
            if after <= p || after > s.len() {
                end
            } else {
                match site_result(s, tok, args, span) {
                    Ok(site) => scan(
                        s,
                        after,
                        after,
                        acc.push((Span { start: chunk as usize, end: q as usize }, site)),
                        errs,
                        ok,
                    ),
                    Err(es) => scan(s, after, after, acc, errs + es, false),
                }
            }
        } else {
            scan(s, e, chunk, acc, errs, ok)
        }
    }
}

/// What checking the source `s` gives: the file as alternating ordinary text
/// and checked calls, or every error found.
pub open spec fn spec_parse(s: Seq<u8>) -> Result<InterpolationModel<SiteModel>, Seq<ErrorModel>> {
    scan(s, 0, 0, seq![], seq![], true)
}

/// The pairs of ordinary text and call seen through their views.
pub open spec fn sites_view(pairs: Seq<(Span, Site)>) -> Seq<(Span, SiteModel)> {
    pairs.map_values(|p: (Span, Site)| (p.0, p.1@))
}

/// Checks the call of the tracked function `t` whose arguments are `args`.
fn check_call(s: &[u8], t: SourceToken, args: &Args) -> (r: Result<Site, Vec<Error>>)
    requires
        is_tracked(t),
        args.wf(s@.len() as int),
    ensures
        match r {
            Ok(site) => site_result(s@, t, args.args@, args.span) == Ok::<
                SiteModel,
                Seq<ErrorModel>,
            >(site@) && site_wf(site@, s@.len() as int),
            Err(es) => site_result(s@, t, args.args@, args.span) == Err::<
                SiteModel,
                Seq<ErrorModel>,
            >(errors_view(es@)),
        },
{
    let pre: usize = if t == SourceToken::Sprintf {
        1
    } else if t == SourceToken::Snprintf {
        2
    } else {
        0
    };
    match parse_args(s, args, pre) {
        Ok((spans, format)) => {
            if t == SourceToken::Sprintf {
                Ok(Site::Sprintf { buffer: spans[0], format })
            } else if t == SourceToken::Snprintf {
                Ok(Site::Snprintf { buffer: spans[0], bufsz: spans[1], format })
            } else {
                Ok(Site::Printf { format })
            }
        },
        Err(es) => Err(es),
    }
}

fn push_pair(pairs: &mut Vec<(Span, Site)>, chunk: Span, site: Site, n: Ghost<int>)
    requires
        site_pairs_wf(sites_view(old(pairs)@), n@),
        span_wf(chunk, n@),
        site_wf(site@, n@),
    ensures
        sites_view(final(pairs)@) == sites_view(old(pairs)@).push((chunk, site@)),
        site_pairs_wf(sites_view(final(pairs)@), n@),
{
    let ghost prev = pairs@;
    let ghost viewed = site@;
    pairs.push((chunk, site));
    assert(sites_view(pairs@) =~= sites_view(prev).push((chunk, viewed)));
    assert forall|j: int| 0 <= j < sites_view(pairs@).len() implies span_wf(
        #[trigger] sites_view(pairs@)[j].0,
        n@,
    ) && site_wf(sites_view(pairs@)[j].1, n@) by {
        if j < prev.len() {
            assert(sites_view(pairs@)[j] == sites_view(prev)[j]);
        }
    }
}

/// Intermediate representation for a parsed C file.
#[derive(Debug)]
pub struct IntermediateRepresentation<'src> {
    /// The source text that every span refers to.
    pub source: &'src str,
    /// Ordinary text alternating with checked calls, covering the source.
    pub sites: Interpolation<Site>,
}

impl<'src> IntermediateRepresentation<'src> {
    /// Parse C source code into an [`IntermediateRepresentation`],
    /// otherwise return a list of [`Error`]s.
    pub fn parse(source: &'src str) -> (r: Result<Self, Vec<Error>>)
        ensures
            match r {
                Ok(ir) => ir.source == source && spec_parse(source.spec_bytes()) == Ok::<
                    InterpolationModel<SiteModel>,
                    Seq<ErrorModel>,
                >(ir.sites@) && sites_wf(ir.sites@, source.spec_bytes().len() as int),
                Err(es) => spec_parse(source.spec_bytes()) == Err::<
                    InterpolationModel<SiteModel>,
                    Seq<ErrorModel>,
                >(errors_view(es@)),
            },
    {
        let s = source.as_bytes();
        let n = s.len();
        let mut p: usize = 0;
        let mut chunk: usize = 0;
        let mut pairs: Vec<(Span, Site)> = Vec::new();
        let mut errors: Vec<Error> = Vec::new();
        let mut ok = true;
        assert(sites_view(pairs@) =~= seq![]);
        assert(errors_view(errors@) =~= seq![]);
        loop
            invariant
                s@ == source.spec_bytes(),
                n == s@.len(),
                chunk <= p <= n,
                site_pairs_wf(sites_view(pairs@), n as int),
                spec_parse(s@) == scan(s@, p as int, chunk as int, sites_view(pairs@), errors_view(errors@), ok),
            decreases n - p,
        {
            let q = skip_whitespace(s, p);
            if q >= n {
                if ok {
                    let ghost viewed = sites_view(pairs@);
                    let ir = IntermediateRepresentation {
                        source,
                        sites: Interpolation::new(pairs, Span { start: chunk, end: n }),
                    };
                    assert(ir.sites@.pairs =~= viewed);
                    return Ok(ir);
                } else {
                    return Err(errors);
                }
            }
            let (tok, e) = next_source_token(s, q);
            let r = skip_whitespace(s, e);
            let is_call_name = tok == SourceToken::Printf || tok == SourceToken::Sprintf || tok == SourceToken::Snprintf;
            if is_call_name && r < n && s[r] == 0x28 {
                let args = Args::new(s, r + 1);
                match check_call(s, tok, &args) {
                    Ok(site) => {
                        push_pair(&mut pairs, Span { start: chunk, end: q }, site, Ghost(n as int));
                    },
                    Err(mut es) => {
                        let ghost prev = errors@;
                        let ghost more = es@;
                        errors.append(&mut es);
                        assert(errors_view(errors@) =~= errors_view(prev) + errors_view(more));
                        ok = false;
                    },
                }
                p = args.end;
                chunk = args.end;
            } else {
                p = e;
            }
        }
    }
}


/// ASCII characters as bytes.
pub open spec fn ascii_bytes(c: Seq<char>) -> Seq<u8> {
    c.map_values(|x: char| x as u8)
}

/// The bytes of a span of the source; a span outside it gives none.
pub open spec fn span_bytes(s: Seq<u8>, sp: Span) -> Seq<u8> {
    if sp.start <= sp.end <= s.len() {
        s.subrange(sp.start as int, sp.end as int)
    } else {
        seq![]
    }
}

/// The decimal digits of `n`, most significant first.
pub open spec fn decimal_bytes(n: nat) -> Seq<u8>
    decreases n,
{
    if n < 10 {
        seq![(n + 48) as u8]
    } else {
        decimal_bytes(n / 10).push(((n % 10) + 48) as u8)
    }
}

fn push_text(out: &mut Vec<u8>, t: &str)
    requires
        is_ascii(t),
    ensures
        final(out)@ == old(out)@ + ascii_bytes(t@),
{
    let b = t.as_bytes();
    proof {
        is_ascii_spec_bytes(t);
    }
    let ghost o0 = out@;
    let mut i: usize = 0;
    while i < b.len()
        invariant
            0 <= i <= b@.len(),
            b@ == ascii_bytes(t@),
            out@ == o0 + b@.subrange(0, i as int),
        decreases b@.len() - i,
    {
        out.push(b[i]);
        assert(b@.subrange(0, i + 1) =~= b@.subrange(0, i as int).push(b@[i as int]));
        i = i + 1;
    }
    assert(b@.subrange(0, b@.len() as int) =~= b@);
}

fn push_span(out: &mut Vec<u8>, s: &[u8], sp: Span)
    ensures
        final(out)@ == old(out)@ + span_bytes(s@, sp),
{
    if sp.start > sp.end || sp.end > s.len() {
        return;
    }
    let ghost o0 = out@;
    let mut i: usize = sp.start;
    while i < sp.end
        invariant
            sp.start <= i <= sp.end <= s@.len(),
            out@ == o0 + s@.subrange(sp.start as int, i as int),
        decreases sp.end - i,
    {
        out.push(s[i]);
        assert(s@.subrange(sp.start as int, i + 1) =~= s@.subrange(sp.start as int, i as int).push(
            s@[i as int],
        ));
        i = i + 1;
    }
}

fn push_decimal(out: &mut Vec<u8>, n: u128)
    ensures
        final(out)@ == old(out)@ + decimal_bytes(n as nat),
    decreases n,
{
    let ghost o0 = out@;
    if n >= 10 {
        push_decimal(out, n / 10);
    }
    let d = (n % 10) as u8;
    out.push(d + 48);
    assert(out@ =~= o0 + decimal_bytes(n as nat));
}

/// The optimized rendering of one value after its chunk: the chunk as a
/// string, the value's address (the value itself for a string), and the
/// runtime function that prints its type.
pub open spec fn optimize_value(s: Seq<u8>, chunk: Span, v: FormatValue) -> Seq<u8> {
    ascii_bytes(", \""@) + span_bytes(s, chunk) + ascii_bytes("\", (void*) "@) + (if v.specifier.ctype
        != CType::String {
        ascii_bytes("&"@)
    } else {
        seq![]
    }) + ascii_bytes("("@) + span_bytes(s, v.arg) + ascii_bytes("), "@) + ascii_bytes(
        format_fn_name(v.specifier.ctype),
    )
}

pub open spec fn optimize_values(s: Seq<u8>, pairs: Seq<(Span, FormatValue)>) -> Seq<u8>
    decreases pairs.len(),
{
    if pairs.len() == 0 {
        seq![]
    } else {
        optimize_values(s, pairs.drop_last()) + optimize_value(s, pairs.last().0, pairs.last().1)
    }
}

/// The optimized arguments of a call from its format string on: the number of
/// arguments that follow (three per value, one for the trailing chunk), the
/// values, and the trailing chunk.
pub open spec fn optimize_format(s: Seq<u8>, m: InterpolationModel<FormatValue>) -> Seq<u8> {
    decimal_bytes(3 * m.pairs.len() + 1) + optimize_values(s, m.pairs) + ascii_bytes(", \""@)
        + span_bytes(s, m.last) + ascii_bytes("\")"@)
}

/// A call rewritten to the fixed-arity safe variant of its function.
pub open spec fn optimize_site(s: Seq<u8>, site: SiteModel) -> Seq<u8> {
    match site {
        SiteModel::Printf { format } => ascii_bytes("safe_printf("@) + optimize_format(s, format),
        SiteModel::Sprintf { buffer, format } => ascii_bytes("safe_sprintf((char* restrict) ("@)
            + span_bytes(s, buffer) + ascii_bytes("), "@) + optimize_format(s, format),
        SiteModel::Snprintf { buffer, bufsz, format } => ascii_bytes(
            "safe_snprintf((char* restrict) ("@,
        ) + span_bytes(s, buffer) + ascii_bytes("), (size_t) ("@) + span_bytes(s, bufsz)
            + ascii_bytes("), "@) + optimize_format(s, format),
    }
}

/// The format string of a call as it was, specifier by specifier.
pub open spec fn typecast_format_string(s: Seq<u8>, pairs: Seq<(Span, FormatValue)>) -> Seq<u8>
    decreases pairs.len(),
{
    if pairs.len() == 0 {
        seq![]
    } else {
        let (chunk, v) = pairs.last();
        typecast_format_string(s, pairs.drop_last()) + span_bytes(s, chunk) + ascii_bytes("%"@)
            + span_bytes(s, v.specifier.options) + seq![
            spec_specifier_char(v.specifier.ctype) as u8,
        ]
    }
}

/// One argument of a call: as it was where its cast matched, else cast to
/// the specifier's type.
pub open spec fn typecast_arg(s: Seq<u8>, v: FormatValue) -> Seq<u8> {
    if v.type_checked {
        ascii_bytes(", "@) + span_bytes(s, v.arg)
    } else {
        ascii_bytes(", ("@) + ascii_bytes(ctype_name(v.specifier.ctype)) + ascii_bytes(") ("@)
            + span_bytes(s, v.arg) + ascii_bytes(")"@)
    }
}

pub open spec fn typecast_args(s: Seq<u8>, pairs: Seq<(Span, FormatValue)>) -> Seq<u8>
    decreases pairs.len(),
{
    if pairs.len() == 0 {
        seq![]
    } else {
        typecast_args(s, pairs.drop_last()) + typecast_arg(s, pairs.last().1)
    }
}

/// A call's format string and arguments with every argument cast.
pub open spec fn typecast_format(s: Seq<u8>, m: InterpolationModel<FormatValue>) -> Seq<u8> {
    typecast_format_string(s, m.pairs) + span_bytes(s, m.last) + ascii_bytes("\""@)
        + typecast_args(s, m.pairs) + ascii_bytes(")"@)
}

/// A call rewritten with explicit casts.
pub open spec fn typecast_site(s: Seq<u8>, site: SiteModel) -> Seq<u8> {
    match site {
        SiteModel::Printf { format } => ascii_bytes("printf(\""@) + typecast_format(s, format),
        SiteModel::Sprintf { buffer, format } => ascii_bytes("sprintf((char* restrict) ("@)
            + span_bytes(s, buffer) + ascii_bytes("), \""@) + typecast_format(s, format),
        SiteModel::Snprintf { buffer, bufsz, format } => ascii_bytes("snprintf((char* restrict) ("@)
            + span_bytes(s, buffer) + ascii_bytes("), (size_t) ("@) + span_bytes(s, bufsz)
            + ascii_bytes("), \""@) + typecast_format(s, format),
    }
}

/// The file rendered: each chunk of ordinary text as it was, each call
/// rendered by the optimizing (`optimize`) or the casting renderer.
pub open spec fn render_sites(s: Seq<u8>, pairs: Seq<(Span, SiteModel)>, optimize: bool) -> Seq<u8>
    decreases pairs.len(),
{
    if pairs.len() == 0 {
        seq![]
    } else {
        render_sites(s, pairs.drop_last(), optimize) + span_bytes(s, pairs.last().0) + if optimize {
            optimize_site(s, pairs.last().1)
        } else {
            typecast_site(s, pairs.last().1)
        }
    }
}

pub open spec fn render(s: Seq<u8>, m: InterpolationModel<SiteModel>, optimize: bool) -> Seq<u8> {
    render_sites(s, m.pairs, optimize) + span_bytes(s, m.last)
}

fn push_optimize_value(out: &mut Vec<u8>, s: &[u8], chunk: Span, v: FormatValue)
    ensures
        final(out)@ == old(out)@ + optimize_value(s@, chunk, v),
{
    let ghost o0 = out@;
    proof {
        reveal_strlit(", \"");
        reveal_strlit("\", (void*) ");
        reveal_strlit("&");
        reveal_strlit("(");
        reveal_strlit("), ");
        reveal_strlit("fmt_int");
        reveal_strlit("fmt_float");
        reveal_strlit("fmt_string");
    }
    push_text(out, ", \"");
    push_span(out, s, chunk);
    push_text(out, "\", (void*) ");
    if v.specifier.ctype != CType::String {
        push_text(out, "&");
    }
    push_text(out, "(");
    push_span(out, s, v.arg);
    push_text(out, "), ");
    push_text(out, v.specifier.ctype.format_fn());
    assert(out@ =~= o0 + optimize_value(s@, chunk, v));
}

fn push_optimize_format(out: &mut Vec<u8>, s: &[u8], format: &Interpolation<FormatValue>)
    ensures
        final(out)@ == old(out)@ + optimize_format(s@, format@),
{
    let ghost o0 = out@;
    let ghost pairs = format@.pairs;
    push_decimal(out, (format.pairs.len() as u128) * 3 + 1);
    let ghost o1 = out@;
    let mut i: usize = 0;
    while i < format.pairs.len()
        invariant
            0 <= i <= format.pairs@.len(),
            pairs == format@.pairs,
            pairs.len() == format.pairs@.len(),
            out@ == o1 + optimize_values(s@, pairs.subrange(0, i as int)),
        decreases format.pairs@.len() - i,
    {
        let (chunk, v) = format.pairs[i];
        assert(pairs[i as int] == (chunk, v));
        assert(pairs.subrange(0, i + 1).drop_last() =~= pairs.subrange(0, i as int));
        push_optimize_value(out, s, chunk, v);
        assert(out@ =~= o1 + optimize_values(s@, pairs.subrange(0, i + 1)));
        i = i + 1;
    }
    assert(pairs.subrange(0, pairs.len() as int) =~= pairs);
    proof {
        reveal_strlit(", \"");
        reveal_strlit("\")");
    }
    push_text(out, ", \"");
    push_span(out, s, format.last);
    push_text(out, "\")");
    assert(out@ =~= o0 + optimize_format(s@, format@));
}


fn push_typecast_args(out: &mut Vec<u8>, s: &[u8], format: &Interpolation<FormatValue>)
    ensures
        final(out)@ == old(out)@ + typecast_args(s@, format@.pairs),
{
    let ghost pairs = format@.pairs;
    let ghost o1 = out@;
    let mut i: usize = 0;
    while i < format.pairs.len()
        invariant
            0 <= i <= format.pairs@.len(),
            pairs == format@.pairs,
            pairs.len() == format.pairs@.len(),
            out@ == o1 + typecast_args(s@, pairs.subrange(0, i as int)),
        decreases format.pairs@.len() - i,
    {
        let (_, v) = format.pairs[i];
        assert(pairs[i as int].1 == v);
        assert(pairs.subrange(0, i + 1).drop_last() =~= pairs.subrange(0, i as int));
        proof {
            reveal_strlit(", ");
            reveal_strlit(", (");
            reveal_strlit(") (");
            reveal_strlit(")");
            reveal_strlit("int");
            reveal_strlit("float");
            reveal_strlit("char*");
        }
        if v.type_checked {
            push_text(out, ", ");
            push_span(out, s, v.arg);
        } else {
            push_text(out, ", (");
            push_text(out, v.specifier.ctype.name());
            push_text(out, ") (");
            push_span(out, s, v.arg);
            push_text(out, ")");
        }
        assert(out@ =~= o1 + typecast_args(s@, pairs.subrange(0, i + 1)));
        i = i + 1;
    }
    assert(pairs.subrange(0, pairs.len() as int) =~= pairs);
}

fn push_typecast_format(out: &mut Vec<u8>, s: &[u8], format: &Interpolation<FormatValue>)
    ensures
        final(out)@ == old(out)@ + typecast_format(s@, format@),
{
    let ghost o0 = out@;
    let ghost pairs = format@.pairs;
    let mut i: usize = 0;
    while i < format.pairs.len()
        invariant
            0 <= i <= format.pairs@.len(),
            pairs == format@.pairs,
            pairs.len() == format.pairs@.len(),
            out@ == o0 + typecast_format_string(s@, pairs.subrange(0, i as int)),
        decreases format.pairs@.len() - i,
    {
        let (chunk, v) = format.pairs[i];
        assert(pairs[i as int] == (chunk, v));
        assert(pairs.subrange(0, i + 1).drop_last() =~= pairs.subrange(0, i as int));
        proof {
            reveal_strlit("%");
        }
        push_span(out, s, chunk);
        push_text(out, "%");
        push_span(out, s, v.specifier.options);
        let c = v.specifier.ctype.specifier_char();
        out.push(c as u8);
        assert(out@ =~= o0 + typecast_format_string(s@, pairs.subrange(0, i + 1)));
        i = i + 1;
    }
    assert(pairs.subrange(0, pairs.len() as int) =~= pairs);
    proof {
        reveal_strlit("\"");
    }
    push_span(out, s, format.last);
    push_text(out, "\"");
    push_typecast_args(out, s, format);
    proof {
        reveal_strlit(")");
    }
    push_text(out, ")");
    assert(out@ =~= o0 + typecast_format(s@, format@));
}

fn push_site(out: &mut Vec<u8>, s: &[u8], site: &Site, optimize: bool)
    ensures
        final(out)@ == old(out)@ + if optimize {
            optimize_site(s@, site@)
        } else {
            typecast_site(s@, site@)
        },
{
    let ghost o0 = out@;
    proof {
        reveal_strlit("safe_printf(");
        reveal_strlit("safe_sprintf((char* restrict) (");
        reveal_strlit("safe_snprintf((char* restrict) (");
        reveal_strlit("), ");
        reveal_strlit("), (size_t) (");
        reveal_strlit("printf(\"");
        reveal_strlit("sprintf((char* restrict) (");
        reveal_strlit("snprintf((char* restrict) (");
        reveal_strlit("), \"");
    }
    let format = match site {
        Site::Printf { format } => {
            if optimize {
                push_text(out, "safe_printf(");
            } else {
                push_text(out, "printf(\"");
            }
            format
        },
        Site::Sprintf { buffer, format } => {
            if optimize {
                push_text(out, "safe_sprintf((char* restrict) (");
                push_span(out, s, *buffer);
                push_text(out, "), ");
            } else {
                push_text(out, "sprintf((char* restrict) (");
                push_span(out, s, *buffer);
                push_text(out, "), \"");
            }
            format
        },
        Site::Snprintf { buffer, bufsz, format } => {
            if optimize {
                push_text(out, "safe_snprintf((char* restrict) (");
            } else {
                push_text(out, "snprintf((char* restrict) (");
            }
            push_span(out, s, *buffer);
            push_text(out, "), (size_t) (");
            push_span(out, s, *bufsz);
            if optimize {
                push_text(out, "), ");
            } else {
                push_text(out, "), \"");
            }
            format
        },
    };
    if optimize {
        push_optimize_format(out, s, format);
    } else {
        push_typecast_format(out, s, format);
    }
    assert(out@ =~= o0 + if optimize {
        optimize_site(s@, site@)
    } else {
        typecast_site(s@, site@)
    });
}

impl<'src> IntermediateRepresentation<'src> {
    fn render_bytes(&self, optimize: bool) -> (r: Vec<u8>)
        ensures
            r@ == render(self.source.spec_bytes(), self.sites@, optimize),
    {
        let s = self.source.as_bytes();
        let ghost pairs = self.sites@.pairs;
        let mut out: Vec<u8> = Vec::new();
        let mut i: usize = 0;
        while i < self.sites.pairs.len()
            invariant
                s@ == self.source.spec_bytes(),
                0 <= i <= self.sites.pairs@.len(),
                pairs == self.sites@.pairs,
                pairs.len() == self.sites.pairs@.len(),
                out@ == render_sites(s@, pairs.subrange(0, i as int), optimize),
            decreases self.sites.pairs@.len() - i,
        {
            let pair = &self.sites.pairs[i];
            assert(pairs[i as int] == (pair.0, pair.1@));
            assert(pairs.subrange(0, i + 1).drop_last() =~= pairs.subrange(0, i as int));
            push_span(&mut out, s, pair.0);
            push_site(&mut out, s, &pair.1, optimize);
            assert(out@ =~= render_sites(s@, pairs.subrange(0, i + 1), optimize));
            i = i + 1;
        }
        assert(pairs.subrange(0, pairs.len() as int) =~= pairs);
        push_span(&mut out, s, self.sites.last);
        out
    }

    /// The file with `printf` and family replaced by optimized calls.
    pub fn display_optimize(&self) -> (r: Vec<u8>)
        ensures
            r@ == render(self.source.spec_bytes(), self.sites@, true),
    {
        self.render_bytes(true)
    }

    /// The file with type casts added to all formatted arguments.
    pub fn display_typecast(&self) -> (r: Vec<u8>)
        ensures
            r@ == render(self.source.spec_bytes(), self.sites@, false),
    {
        self.render_bytes(false)
    }
}


/// Whether no tracked name is followed by `(` anywhere in the source-level
/// token stream from `p` on.
pub open spec fn no_calls_from(s: Seq<u8>, p: int) -> bool
    decreases s.len() - p,
{
    let q = skip_ws(s, p);
    if q < 0 || q >= s.len() {
        true
    } else {
        let (tok, e) = source_token(s, q);
        let r = skip_ws(s, e);
        if e <= p || e > s.len() {
            true
        } else {
            !(is_tracked(tok) && 0 <= r < s.len() && s[r] == 0x28) && no_calls_from(s, e)
        }
    }
}

proof fn lemma_scan_without_calls(
    s: Seq<u8>,
    p: int,
    chunk: int,
    acc: Seq<(Span, SiteModel)>,
    errs: Seq<ErrorModel>,
)
    requires
        no_calls_from(s, p),
    ensures
        scan(s, p, chunk, acc, errs, true) == Ok::<InterpolationModel<SiteModel>, Seq<ErrorModel>>(
            InterpolationModel { pairs: acc, last: Span { start: chunk as usize, end: s.len() as usize } },
        ),
    decreases s.len() - p,
{
    let q = skip_ws(s, p);
    if 0 <= q < s.len() {
        let (tok, e) = source_token(s, q);
        if p < e <= s.len() {
            lemma_scan_without_calls(s, e, chunk, acc, errs);
        }
    }
}

/// A file without calls of the tracked functions checks to a single chunk of
/// ordinary text, and both renderings give the file back unchanged.
pub proof fn lemma_no_calls_round_trip(s: Seq<u8>)
    requires
        s.len() <= usize::MAX,
        no_calls_from(s, 0),
    ensures
        spec_parse(s) == Ok::<InterpolationModel<SiteModel>, Seq<ErrorModel>>(
            InterpolationModel { pairs: seq![], last: Span { start: 0, end: s.len() as usize } },
        ),
        render(s, spec_parse(s)->Ok_0, true) == s,
        render(s, spec_parse(s)->Ok_0, false) == s,
{
    lemma_scan_without_calls(s, 0, 0, seq![], seq![]);
    assert(s.subrange(0, s.len() as int) =~= s);
}

/// Checking is a function of the source text: two checks of the same text give
/// the same representation or the same errors.
pub proof fn lemma_parse_deterministic(
    s1: Seq<u8>,
    s2: Seq<u8>,
    r1: Result<InterpolationModel<SiteModel>, Seq<ErrorModel>>,
    r2: Result<InterpolationModel<SiteModel>, Seq<ErrorModel>>,
)
    requires
        s1 == s2,
        r1 == spec_parse(s1),
        r2 == spec_parse(s2),
    ensures
        r1 == r2,
{
}

proof fn lemma_no_mismatches(items: Seq<FormatItem>, args: Seq<Arg>, n: int)
    requires
        0 <= n <= items.len(),
        n <= args.len(),
        forall|i: int|
            0 <= i < n ==> match #[trigger] args[i].cast {
                Some((t, _)) => t == items[i].specifier.ctype,
                None => true,
            },
    ensures
        mismatches(items, args, n) == Seq::<ErrorModel>::empty(),
    decreases n,
{
    if n > 0 {
        lemma_no_mismatches(items, args, n - 1);
    }
}

/// Arguments written back as they were, each after a `, `.
pub open spec fn plain_args(s: Seq<u8>, args: Seq<Arg>) -> Seq<u8>
    decreases args.len(),
{
    if args.len() == 0 {
        seq![]
    } else {
        plain_args(s, args.drop_last()) + ascii_bytes(", "@) + span_bytes(s, args.last().span)
    }
}

/// Where every argument carries a cast to its specifier's type, matching
/// succeeds, every value is type checked, and the casting renderer writes the
/// arguments back unchanged.
pub proof fn lemma_matching_casts(
    s: Seq<u8>,
    items: Seq<FormatItem>,
    args: Seq<Arg>,
    format_span: Span,
    args_span: Span,
    last: Span,
)
    requires
        items.len() == args.len(),
        forall|i: int|
            0 <= i < args.len() ==> match #[trigger] args[i].cast {
                Some((t, _)) => t == items[i].specifier.ctype,
                None => false,
            },
    ensures
        match_values(items, args, format_span, args_span, last) is Ok,
        forall|i: int|
            0 <= i < items.len() ==> (#[trigger] match_values(
                items,
                args,
                format_span,
                args_span,
                last,
            )->Ok_0.pairs[i]).1.type_checked,
        typecast_args(s, match_values(items, args, format_span, args_span, last)->Ok_0.pairs)
            == plain_args(s, args),
{
    lemma_no_mismatches(items, args, items.len() as int);
    let pairs = match_values(items, args, format_span, args_span, last)->Ok_0.pairs;
    lemma_typecast_checked_args(s, items, args, pairs, items.len() as int);
    assert(pairs.subrange(0, items.len() as int) =~= pairs);
    assert(args.subrange(0, items.len() as int) =~= args);
}

proof fn lemma_typecast_checked_args(
    s: Seq<u8>,
    items: Seq<FormatItem>,
    args: Seq<Arg>,
    pairs: Seq<(Span, FormatValue)>,
    k: int,
)
    requires
        0 <= k <= pairs.len(),
        pairs.len() == args.len(),
        forall|i: int| 0 <= i < pairs.len() ==> (#[trigger] pairs[i]).1.type_checked,
        forall|i: int| 0 <= i < pairs.len() ==> (#[trigger] pairs[i]).1.arg == args[i].span,
    ensures
        typecast_args(s, pairs.subrange(0, k)) == plain_args(s, args.subrange(0, k)),
    decreases k,
{
    if k > 0 {
        lemma_typecast_checked_args(s, items, args, pairs, k - 1);
        assert(pairs.subrange(0, k).drop_last() =~= pairs.subrange(0, k - 1));
        assert(args.subrange(0, k).drop_last() =~= args.subrange(0, k - 1));
        assert(pairs.subrange(0, k).last() == pairs[k - 1]);
    }
}

/// Arguments without casts are exempt from type checking: with as many
/// arguments as specifiers, matching succeeds whatever the specifiers' types,
/// and no value is type checked.
pub proof fn lemma_uncast_arguments(
    items: Seq<FormatItem>,
    args: Seq<Arg>,
    format_span: Span,
    args_span: Span,
    last: Span,
)
    requires
        items.len() == args.len(),
        forall|i: int| 0 <= i < args.len() ==> (#[trigger] args[i].cast) is None,
    ensures
        match_values(items, args, format_span, args_span, last) is Ok,
        forall|i: int|
            0 <= i < items.len() ==> !(#[trigger] match_values(
                items,
                args,
                format_span,
                args_span,
                last,
            )->Ok_0.pairs[i]).1.type_checked,
{
    lemma_no_mismatches(items, args, items.len() as int);
}

} // verus!
