//! The diagnostics that checking a file can give.
use crate::ir::CType;
use crate::lex::{ArgToken, Span};
use crate::parse::Arg;
use vstd::prelude::*;
use vstd::string::*;

verus! {

/// Error that may occur during validation.
#[derive(Debug)]
pub enum Error {
    /// Missing function arguments.
    MissingFunctionArgs(Span),
    /// Format string isn't a string literal, this is potentially an overflow vulnerability!
    NonliteralFormat { span: Span, help: String },
    /// Incorrect specifier for type casted argument.
    SpecifierCastMismatch {
        specifier_span: Span,
        specifier_ctype: CType,
        cast_span: Span,
        cast_ctype: CType,
    },
    /// Excess specifiers, this will read arbitrary data off the stack!
    ExcessSpecifiers { format_span: Span, args_span: Span, additional_specifiers: usize },
    /// Excess arguments.
    ExcessArgs { format_span: Span, args_span: Span, additional_args: usize },
}

/// An [`Error`] with its help text seen as characters.
pub enum ErrorModel {
    MissingFunctionArgs(Span),
    NonliteralFormat { span: Span, help: Seq<char> },
    SpecifierCastMismatch {
        specifier_span: Span,
        specifier_ctype: CType,
        cast_span: Span,
        cast_ctype: CType,
    },
    ExcessSpecifiers { format_span: Span, args_span: Span, additional_specifiers: usize },
    ExcessArgs { format_span: Span, args_span: Span, additional_args: usize },
}

impl View for Error {
    type V = ErrorModel;

    open spec fn view(&self) -> ErrorModel {
        match self {
            Error::MissingFunctionArgs(sp) => ErrorModel::MissingFunctionArgs(*sp),
            Error::NonliteralFormat { span, help } => ErrorModel::NonliteralFormat {
                span: *span,
                help: help@,
            },
            Error::SpecifierCastMismatch {
                specifier_span,
                specifier_ctype,
                cast_span,
                cast_ctype,
            } => ErrorModel::SpecifierCastMismatch {
                specifier_span: *specifier_span,
                specifier_ctype: *specifier_ctype,
                cast_span: *cast_span,
                cast_ctype: *cast_ctype,
            },
            Error::ExcessSpecifiers { format_span, args_span, additional_specifiers } =>
                ErrorModel::ExcessSpecifiers {
                format_span: *format_span,
                args_span: *args_span,
                additional_specifiers: *additional_specifiers,
            },
            Error::ExcessArgs { format_span, args_span, additional_args } =>
                ErrorModel::ExcessArgs {
                format_span: *format_span,
                args_span: *args_span,
                additional_args: *additional_args,
            },
        }
    }
}

/// A list of errors, each seen through its view.
pub open spec fn errors_view(es: Seq<Error>) -> Seq<ErrorModel> {
    es.map_values(|e: Error| e@)
}

/// Bytes read as characters, one for one.
pub open spec fn ascii_chars(b: Seq<u8>) -> Seq<char> {
    b.map_values(|x: u8| x as char)
}

/// The decimal digits of `n`, most significant first.
pub open spec fn decimal_chars(n: nat) -> Seq<char>
    decreases n,
{
    if n < 10 {
        seq![((n + 48) as u8) as char]
    } else {
        decimal_chars(n / 10).push((((n % 10) + 48) as u8) as char)
    }
}

/// Relies on `String::push`: the character is appended at the end.
#[verifier::external_body]
fn push_char(s: &mut String, c: char)
    ensures
        final(s)@ == old(s)@.push(c),
{
    s.push(c);
}

fn push_decimal(s: &mut String, n: usize)
    ensures
        final(s)@ == old(s)@ + decimal_chars(n as nat),
    decreases n,
{
    if n >= 10 {
        push_decimal(s, n / 10);
    }
    let d = (n % 10) as u8;
    push_char(s, (d + 48) as char);
}

/// The help text on a nonliteral format string: it names the argument where
/// that is a single identifier.
pub open spec fn nonliteral_help(s: Seq<u8>, arg: Arg) -> Seq<char> {
    match arg.single_token {
        Some(ArgToken::Identifier(id)) => "To safely print a string, use `printf(\"%s\", "@
            + ascii_chars(s.subrange(id.start as int, id.end as int)) + ")` instead."@,
        _ => "Use a string literal as the first argument, like `printf(\"hello\")`."@,
    }
}

impl Error {
    /// The error on an argument that stands where a format string literal belongs.
    pub fn nonliteral(s: &[u8], arg: &Arg) -> (r: Self)
        requires
            arg.single_token matches Some(ArgToken::Identifier(id)) ==> id.start <= id.end
                <= s@.len(),
        ensures
            r@ == (ErrorModel::NonliteralFormat { span: arg.span, help: nonliteral_help(s@, *arg) }),
    {
        let mut help = String::new();
        match arg.single_token {
            Some(ArgToken::Identifier(id)) => {
                help.append("To safely print a string, use `printf(\"%s\", ");
                let ghost h0 = help@;
                let mut i: usize = id.start;
                while i < id.end
                    invariant
                        id.start <= i <= id.end <= s@.len(),
                        help@ == h0 + ascii_chars(s@.subrange(id.start as int, i as int)),
                    decreases id.end - i,
                {
                    push_char(&mut help, s[i] as char);
                    assert(ascii_chars(s@.subrange(id.start as int, i + 1)) =~= ascii_chars(
                        s@.subrange(id.start as int, i as int),
                    ).push(s@[i as int] as char));
                    i = i + 1;
                }
                help.append(")` instead.");
            },
            _ => {
                help.append("Use a string literal as the first argument, like `printf(\"hello\")`.");
            },
        }
        Error::NonliteralFormat { span: arg.span, help }
    }
}

/// The help text on excess arguments.
pub open spec fn excess_args_help(count: nat) -> Seq<char> {
    if count == 1 {
        "Add a specifier or remove an argument."@
    } else {
        "Add "@ + decimal_chars(count) + " specifiers or remove "@ + decimal_chars(count)
            + " arguments."@
    }
}

/// The help text on excess specifiers.
pub open spec fn excess_specifiers_help(count: nat) -> Seq<char> {
    if count == 1 {
        "Add an argument or remove a specifier."@
    } else {
        "Add "@ + decimal_chars(count) + " arguments or remove "@ + decimal_chars(count)
            + " specifiers."@
    }
}

/// The help text on `count` excess arguments.
pub fn help_excess_args(count: usize) -> (r: String)
    ensures
        r@ == excess_args_help(count as nat),
{
    let mut r = String::new();
    if count == 1 {
        r.append("Add a specifier or remove an argument.");
    } else {
        r.append("Add ");
        push_decimal(&mut r, count);
        r.append(" specifiers or remove ");
        push_decimal(&mut r, count);
        r.append(" arguments.");
    }
    r
}

/// The help text on `count` excess specifiers.
pub fn help_excess_specifiers(count: usize) -> (r: String)
    ensures
        r@ == excess_specifiers_help(count as nat),
{
    let mut r = String::new();
    if count == 1 {
        r.append("Add an argument or remove a specifier.");
    } else {
        r.append("Add ");
        push_decimal(&mut r, count);
        r.append(" arguments or remove ");
        push_decimal(&mut r, count);
        r.append(" specifiers.");
    }
    r
}

} // verus!
