use printf_check::error::{help_excess_args, help_excess_specifiers, Error};
use printf_check::ir::{CType, IntermediateRepresentation, Site};
use printf_check::lex::{ArgToken, Span};
use printf_check::parse::{Args, Specifiers};

fn errors_of(source: &str) -> Vec<Error> {
    match IntermediateRepresentation::parse(source) {
        Ok(_) => panic!("expected errors"),
        Err(errors) => errors,
    }
}

fn text(bytes: Vec<u8>) -> String {
    String::from_utf8(bytes).unwrap()
}

#[test]
fn no_calls_renders_unchanged() {
    let source = "  int printf_wrapper(int x);\n/* printf(\"%d\") */ char *s = \"printf(\";\nint main() { return printf; }\n";
    let ir = IntermediateRepresentation::parse(source).unwrap();
    assert_eq!(ir.sites.pairs.len(), 0);
    assert_eq!(ir.sites.last, Span { start: 0, end: source.len() });
    assert_eq!(text(ir.display_optimize()), source);
    assert_eq!(text(ir.display_typecast()), source);
}

#[test]
fn empty_source_is_valid() {
    let ir = IntermediateRepresentation::parse("").unwrap();
    assert_eq!(ir.sites.pairs.len(), 0);
    assert_eq!(text(ir.display_typecast()), "");
}

#[test]
fn matching_casts_are_type_checked() {
    let source = "printf(\"%d %s\", (int) x, (char*) name);";
    let ir = IntermediateRepresentation::parse(source).unwrap();
    match &ir.sites.pairs[0].1 {
        Site::Printf { format } => {
            assert_eq!(format.pairs.len(), 2);
            assert!(format.pairs.iter().all(|(_, v)| v.type_checked));
        }
        _ => panic!("expected a printf site"),
    }
    assert_eq!(text(ir.display_typecast()), source);
}

#[test]
fn uncast_arguments_always_validate() {
    let source = "printf(\"%d %f %s\", a, b, c);";
    let ir = IntermediateRepresentation::parse(source).unwrap();
    assert_eq!(
        text(ir.display_typecast()),
        "printf(\"%d %f %s\", (int) (a), (float) (b), (char*) (c));"
    );
}

#[test]
fn excess_args() {
    let errors = errors_of("printf(\"no specifiers\", x);");
    assert_eq!(errors.len(), 1);
    match &errors[0] {
        Error::ExcessArgs { format_span, args_span, additional_args } => {
            assert_eq!(*additional_args, 1);
            assert_eq!(*format_span, Span { start: 7, end: 22 });
            assert_eq!(*args_span, Span { start: 7, end: 25 });
        }
        e => panic!("unexpected {:?}", e),
    }
}

#[test]
fn excess_specifiers() {
    let errors = errors_of("printf(\"%d %d\", x);");
    assert_eq!(errors.len(), 1);
    match &errors[0] {
        Error::ExcessSpecifiers { format_span, additional_specifiers, .. } => {
            assert_eq!(*additional_specifiers, 1);
            assert_eq!(*format_span, Span { start: 7, end: 14 });
        }
        e => panic!("unexpected {:?}", e),
    }
}

#[test]
fn specifier_cast_mismatch() {
    let errors = errors_of("printf(\"%d\", (float) x);");
    assert_eq!(errors.len(), 1);
    match &errors[0] {
        Error::SpecifierCastMismatch { specifier_span, specifier_ctype, cast_span, cast_ctype } => {
            assert_eq!(*specifier_ctype, CType::Int);
            assert_eq!(*cast_ctype, CType::Float);
            assert_eq!(*specifier_span, Span { start: 8, end: 10 });
            assert_eq!(*cast_span, Span { start: 13, end: 20 });
        }
        e => panic!("unexpected {:?}", e),
    }
}

#[test]
fn every_cast_mismatch_is_reported() {
    let errors = errors_of("printf(\"%d %s %f\", (float) a, (char*) b, (int) c);");
    assert_eq!(errors.len(), 2);
    assert!(matches!(
        errors[0],
        Error::SpecifierCastMismatch { specifier_ctype: CType::Int, cast_ctype: CType::Float, .. }
    ));
    assert!(matches!(
        errors[1],
        Error::SpecifierCastMismatch { specifier_ctype: CType::Float, cast_ctype: CType::Int, .. }
    ));
}

#[test]
fn mismatch_then_count_error() {
    let errors = errors_of("printf(\"%d %d\", (float) a);");
    assert_eq!(errors.len(), 2);
    assert!(matches!(errors[0], Error::SpecifierCastMismatch { .. }));
    assert!(matches!(errors[1], Error::ExcessSpecifiers { additional_specifiers: 1, .. }));
}

#[test]
fn nonliteral_identifier_gets_suggestion() {
    let errors = errors_of("printf(name);");
    assert_eq!(errors.len(), 1);
    match &errors[0] {
        Error::NonliteralFormat { span, help } => {
            assert_eq!(*span, Span { start: 7, end: 11 });
            assert_eq!(help, "To safely print a string, use `printf(\"%s\", name)` instead.");
        }
        e => panic!("unexpected {:?}", e),
    }
}

#[test]
fn nonliteral_expression_gets_general_help() {
    let errors = errors_of("printf(a + b);");
    match &errors[0] {
        Error::NonliteralFormat { help, .. } => {
            assert_eq!(help, "Use a string literal as the first argument, like `printf(\"hello\")`.");
        }
        e => panic!("unexpected {:?}", e),
    }
}

#[test]
fn missing_function_args() {
    let errors = errors_of("printf();");
    assert_eq!(errors.len(), 1);
    assert!(matches!(errors[0], Error::MissingFunctionArgs(Span { start: 7, end: 7 })));
    let errors = errors_of("sprintf(buf);");
    assert!(matches!(errors[0], Error::MissingFunctionArgs(Span { start: 8, end: 11 })));
    let errors = errors_of("snprintf(buf);");
    assert!(matches!(errors[0], Error::MissingFunctionArgs(_)));
}

#[test]
fn snprintf_optimized() {
    let ir = IntermediateRepresentation::parse("snprintf(buf, n, \"%s\", str);").unwrap();
    assert_eq!(
        text(ir.display_optimize()),
        "safe_snprintf((char* restrict) (buf), (size_t) (n), 4, \"\", (void*) (str), fmt_string, \"\");"
    );
    assert_eq!(
        text(ir.display_typecast()),
        "snprintf((char* restrict) (buf), (size_t) (n), \"%s\", (char*) (str));"
    );
}

#[test]
fn sprintf_and_printf_optimized() {
    let source = "int main() {\n  sprintf(out, \"x=%5d!\", x);\n  printf(\"%s and %.2f\\n\", s, (float) y);\n}\n";
    let ir = IntermediateRepresentation::parse(source).unwrap();
    assert_eq!(
        text(ir.display_optimize()),
        "int main() {\n  safe_sprintf((char* restrict) (out), 4, \"x=\", (void*) &(x), fmt_int, \"!\");\n  safe_printf(7, \"\", (void*) (s), fmt_string, \" and \", (void*) &((float) y), fmt_float, \"\\n\");\n}\n"
    );
    assert_eq!(
        text(ir.display_typecast()),
        "int main() {\n  sprintf((char* restrict) (out), \"x=%5d!\", (int) (x));\n  printf(\"%s and %.2f\\n\", (char*) (s), (float) y);\n}\n"
    );
}

#[test]
fn nested_parentheses_stay_in_one_argument() {
    let source = "printf(\"%d\", f(a,b));";
    let args = Args::new(source.as_bytes(), 7);
    assert_eq!(args.args.len(), 2);
    assert_eq!(&source[args.args[1].span.start..args.args[1].span.end], "f(a,b)");
    assert_eq!(args.end, source.len() - 1);
    let ir = IntermediateRepresentation::parse(source).unwrap();
    assert_eq!(text(ir.display_typecast()), "printf(\"%d\", (int) (f(a,b)));");
}

#[test]
fn parse_is_deterministic() {
    let good = "printf(\"%d\", x); snprintf(b, 3, \"%s\", s);";
    let a = IntermediateRepresentation::parse(good).unwrap();
    let b = IntermediateRepresentation::parse(good).unwrap();
    assert_eq!(format!("{:?}", a), format!("{:?}", b));
    let bad = "printf(x); printf(\"%d\", (char*) y, z);";
    assert_eq!(format!("{:?}", errors_of(bad)), format!("{:?}", errors_of(bad)));
}

#[test]
fn errors_from_all_call_sites() {
    let errors = errors_of("printf(x);\nprintf(\"ok %d\", 1);\nprintf(\"%d\", 1, 2, 3);\n");
    assert_eq!(errors.len(), 2);
    assert!(matches!(errors[0], Error::NonliteralFormat { .. }));
    assert!(matches!(errors[1], Error::ExcessArgs { additional_args: 2, .. }));
}

#[test]
fn percent_escape_is_literal_text() {
    let ir = IntermediateRepresentation::parse("printf(\"100%%d\");").unwrap();
    assert_eq!(text(ir.display_optimize()), "safe_printf(1, \"100%%d\");");
    let errors = errors_of("printf(\"%x\", v);");
    assert!(matches!(errors[0], Error::ExcessArgs { additional_args: 1, .. }));
}

#[test]
fn tracked_name_without_paren_is_text() {
    let source = "int (*p)(const char*, ...) = printf; p(\"%d\");";
    let ir = IntermediateRepresentation::parse(source).unwrap();
    assert_eq!(ir.sites.pairs.len(), 0);
    let ir = IntermediateRepresentation::parse("xprintf(\"%d\"); printf (\"hi\");").unwrap();
    assert_eq!(ir.sites.pairs.len(), 1);
    assert_eq!(ir.sites.pairs[0].0, Span { start: 0, end: 15 });
}

#[test]
fn second_cast_is_content() {
    let source = "printf(\"%d\", (int) (float) x);";
    let ir = IntermediateRepresentation::parse(source).unwrap();
    assert_eq!(text(ir.display_typecast()), source);
    let args = Args::new(source.as_bytes(), 7);
    assert_eq!(args.args[1].cast, Some((CType::Int, Span { start: 13, end: 18 })));
    assert_eq!(args.args[1].single_token, None);
}

#[test]
fn single_token_classification() {
    let source = "f(name, \"a,b\" \"c\", 'x', 12, 1.5e3, /* c */ y);";
    let args = Args::new(source.as_bytes(), 2);
    assert_eq!(args.args.len(), 6);
    assert_eq!(args.args[0].single_token, Some(ArgToken::Identifier(Span { start: 2, end: 6 })));
    assert_eq!(args.args[1].single_token, Some(ArgToken::String(Span { start: 9, end: 16 })));
    assert_eq!(args.args[2].single_token, Some(ArgToken::Char));
    assert_eq!(args.args[3].single_token, Some(ArgToken::Int));
    assert_eq!(args.args[4].single_token, Some(ArgToken::Float));
    assert_eq!(args.args[5].single_token, Some(ArgToken::Identifier(Span { start: 43, end: 44 })));
}

#[test]
fn specifiers_and_chunks() {
    let content = "a%-2.3fb%ic%%d%s";
    let specs = Specifiers::new(content.as_bytes(), Span { start: 0, end: content.len() });
    assert_eq!(specs.items.len(), 3);
    assert_eq!(specs.items[0].before, Span { start: 0, end: 1 });
    assert_eq!(specs.items[0].specifier.options, Span { start: 2, end: 6 });
    assert_eq!(specs.items[0].specifier.ctype, CType::Float);
    assert_eq!(specs.items[1].specifier.ctype, CType::Int);
    assert_eq!(specs.items[2].before, Span { start: 10, end: 14 });
    assert_eq!(specs.items[2].specifier.ctype, CType::String);
    assert_eq!(specs.remainder, Span { start: 16, end: 16 });
}

#[test]
fn help_texts() {
    assert_eq!(help_excess_args(1), "Add a specifier or remove an argument.");
    assert_eq!(help_excess_args(12), "Add 12 specifiers or remove 12 arguments.");
    assert_eq!(help_excess_specifiers(1), "Add an argument or remove a specifier.");
    assert_eq!(help_excess_specifiers(3), "Add 3 arguments or remove 3 specifiers.");
}

#[test]
fn ctype_names() {
    assert_eq!(CType::Int.specifier_char(), 'd');
    assert_eq!(CType::Float.specifier_char(), 'f');
    assert_eq!(CType::String.specifier_char(), 's');
    assert_eq!(CType::Int.format_fn(), "fmt_int");
    assert_eq!(CType::Float.format_fn(), "fmt_float");
    assert_eq!(CType::String.format_fn(), "fmt_string");
    assert_eq!(CType::String.name(), "char*");
}
