use named::Expansion;
use named::FnItem;
use named::ParamSlot;
use named::ParamShape;
use named::Tok;
use named::TokKind;
use named::accumulator_name;
use named::format_names;
use named::generate_accumulator;
use named::generate_error_shim;
use named::generate_public;
use named::inner_fn_name;
use named::named;
use named::report_missing;

const CALL_SITE: usize = 300;

fn slot(name: &str, default: Option<&str>) -> ParamSlot {
    ParamSlot { name: name.to_string(), default: default.map(|d| d.to_string()) }
}

#[test]
fn derived_names() {
    assert_eq!(inner_fn_name(&"or".to_string()), "__or");
    assert_eq!(accumulator_name(&"or".to_string()), "__or_inner");
}

#[test]
fn format_names_singular_and_plural() {
    assert_eq!(format_names(&vec!["a".to_string()]), "`a`");
    assert_eq!(format_names(&vec!["a".to_string(), "b".to_string()]), "[a, b]");
    assert_eq!(format_names(&vec![]), "[]");
}

#[test]
fn report_missing_wording() {
    assert_eq!(
        report_missing(&vec!["a".to_string()]),
        "Must specify value for non-defaulted argument: `a`"
    );
    assert_eq!(
        report_missing(&vec!["a".to_string(), "b".to_string(), "c".to_string()]),
        "Must specify values for non-defaulted arguments: [a, b, c]"
    );
}

#[test]
fn public_macro_without_parameters() {
    let text = generate_public(&"g".to_string(), &vec![]);
    assert_eq!(text, "macro_rules! g { () => { __g() }; }");
}

#[test]
fn public_macro_one_defaulted_parameter() {
    let text = generate_public(&"f".to_string(), &vec![slot("a", Some("1"))]);
    assert_eq!(
        text,
        "macro_rules! f { \
         (a = $a:expr) => { __f_inner!($a) }; \
         (a = $a:expr, $($keys:ident = $values:expr),+) => { __f_inner!($a, $($keys = $values),+) }; \
         ($other:ident = $other_value:expr, $($keys:ident = $values:expr),+) => { __f_inner!(1, $other = $other_value, $($keys = $values),+) }; \
         ($other:ident = $other_value:expr) => { __f_inner!(1, $other = $other_value) }; \
         () => { __f_inner!() }; }"
    );
}

#[test]
fn public_macro_required_first_parameter_reports_it() {
    let text = generate_public(&"f".to_string(), &vec![slot("a", None)]);
    assert!(text.contains(
        "($other:ident = $other_value:expr) => { compile_error!(\"Must specify value for non-defaulted argument: `a`\") };"
    ));
}

#[test]
fn accumulator_one_defaulted_parameter() {
    let text = generate_accumulator(&"f".to_string(), &vec![slot("a", Some("1"))]);
    assert_eq!(
        text,
        "macro_rules! __f_inner { \
         () => { __f(1) }; \
         (a = $a:expr) => { __f_inner!($a) }; \
         (a = $a:expr, $($keys:ident = $values:expr),+) => { __f_inner!($a, $($keys = $values),+) }; \
         ($key:ident = $value:expr) => { __f_inner!(1, $key = $value) }; \
         ($($keys:ident = $values:expr),+) => { __f_inner!(1, $($keys = $values),+) }; \
         ($a:expr) => { __f($a) }; \
         ($a:expr, $ident:ident = $expr:expr) => { compile_error!(concat!(\"Unrecognized named argument - got value for argument `\", stringify!($ident), \"` but only expected \", \"`a`\")) }; \
         ($a:expr, $ident:ident = $expr:expr, $($idents:ident = $exprs:expr),+) => { compile_error!(concat!(\"Unrecognized named argument - got value for argument `\", stringify!($ident), \"` but only expected \", \"`a`\")) }; }"
    );
}

#[test]
fn accumulator_required_parameter_branches() {
    let text = generate_accumulator(&"f".to_string(), &vec![slot("a", None), slot("b", Some("2"))]);
    // The empty terminal reports the required parameter.
    assert!(text.contains(
        "() => { compile_error!(\"Must specify value for non-defaulted argument: `a`\") };"
    ));
    // Bridging past `a` is impossible.
    assert!(text.contains(
        "($key:ident = $value:expr) => { compile_error!(\"Must specify value for non-defaulted argument: `a`\") };"
    ));
    // Bridging past `b` from state 1 fills its default.
    assert!(text.contains("($a:expr, $key:ident = $value:expr) => { __f_inner!($a, 2, $key = $value) };"));
    // The full call goes to the renamed function.
    assert!(text.contains("($a:expr, $b:expr) => { __f($a, $b) };"));
}

#[test]
fn error_shim_surfaces_the_diagnostic() {
    let text = generate_error_shim(&"f".to_string(), &"boom".to_string());
    assert_eq!(
        text,
        "macro_rules! f { ($($idents:ident = $exprs:expr),*) => { compile_error!(\"boom\") } }"
    );
}

fn attr_tokens() -> Vec<Tok> {
    vec![
        Tok { kind: TokKind::Word, text: "defaults".to_string(), span: 0 },
        Tok { kind: TokKind::Open, text: "(".to_string(), span: 1 },
        Tok { kind: TokKind::Word, text: "a".to_string(), span: 2 },
        Tok { kind: TokKind::Eq, text: "=".to_string(), span: 3 },
        Tok { kind: TokKind::Word, text: "false".to_string(), span: 4 },
        Tok { kind: TokKind::Comma, text: ",".to_string(), span: 5 },
        Tok { kind: TokKind::Word, text: "b".to_string(), span: 6 },
        Tok { kind: TokKind::Eq, text: "=".to_string(), span: 7 },
        Tok { kind: TokKind::Word, text: "false".to_string(), span: 8 },
        Tok { kind: TokKind::Close, text: ")".to_string(), span: 9 },
    ]
}

#[test]
fn named_generates_for_a_good_annotation() {
    let f = FnItem {
        name: "or".to_string(),
        params: vec![
            ParamShape::Named { name: "a".to_string(), span: 20 },
            ParamShape::Named { name: "b".to_string(), span: 21 },
        ],
    };
    match named(&f, &attr_tokens(), CALL_SITE) {
        Ok(Expansion::Generated { inner_fn, accumulator, public_macro }) => {
            assert_eq!(inner_fn, "__or");
            assert!(accumulator.starts_with("macro_rules! __or_inner { "));
            assert!(accumulator.contains("() => { __or(false, false) };"));
            assert!(public_macro.starts_with("macro_rules! or { "));
            assert!(public_macro.contains("() => { __or_inner!() };"));
        }
        _ => panic!("expected a generated expansion"),
    }
}

#[test]
fn named_with_empty_configuration_generates() {
    // A bare annotation declares no defaults: generation still succeeds,
    // and the empty call reports every required parameter.
    let f = FnItem {
        name: "foo".to_string(),
        params: vec![
            ParamShape::Named { name: "a".to_string(), span: 20 },
            ParamShape::Named { name: "b".to_string(), span: 21 },
            ParamShape::Named { name: "c".to_string(), span: 22 },
        ],
    };
    match named(&f, &vec![], CALL_SITE) {
        Ok(Expansion::Generated { accumulator, .. }) => {
            assert!(accumulator.contains(
                "() => { compile_error!(\"Must specify values for non-defaulted arguments: [a, b, c]\") };"
            ));
        }
        _ => panic!("expected a generated expansion"),
    }
}

#[test]
fn named_turns_extras_into_a_shim() {
    let f = FnItem {
        name: "or".to_string(),
        params: vec![ParamShape::Named { name: "a".to_string(), span: 20 }],
    };
    match named(&f, &attr_tokens(), CALL_SITE) {
        Ok(Expansion::Failed { shim, diag }) => {
            assert_eq!(diag.span, 6);
            assert_eq!(
                diag.message,
                "Unrecognized argument - attribute had argument `b` but function takes argument: [a]"
            );
            assert_eq!(
                shim,
                format!(
                    "macro_rules! or {{ ($($idents:ident = $exprs:expr),*) => {{ compile_error!(\"{}\") }} }}",
                    diag.message
                )
            );
        }
        _ => panic!("expected a failed expansion"),
    }
}

#[test]
fn named_aborts_on_a_pattern_parameter() {
    let f = FnItem {
        name: "or".to_string(),
        params: vec![ParamShape::Pattern { text: "(x, y)".to_string(), span: 9 }],
    };
    match named(&f, &attr_tokens(), CALL_SITE) {
        Err(m) => assert_eq!(
            m,
            "Didn't recognise function signature - expected all args to be idents, but found: (x, y)"
        ),
        _ => panic!("expected an abort"),
    }
}

#[test]
fn named_shims_a_receiver_parameter() {
    let f = FnItem {
        name: "or".to_string(),
        params: vec![ParamShape::Receiver { span: 9 }],
    };
    match named(&f, &attr_tokens(), CALL_SITE) {
        Ok(Expansion::Failed { shim, diag }) => {
            assert_eq!(diag.span, 9);
            assert_eq!(
                diag.message,
                "`named` does not currently support functions which take `self`."
            );
            assert!(shim.starts_with("macro_rules! or {"));
        }
        _ => panic!("expected a failed expansion"),
    }
}

#[test]
fn named_shims_a_bad_attribute() {
    let f = FnItem {
        name: "or".to_string(),
        params: vec![ParamShape::Named { name: "a".to_string(), span: 20 }],
    };
    let toks = vec![Tok { kind: TokKind::Word, text: "defalts".to_string(), span: 2 }];
    match named(&f, &toks, CALL_SITE) {
        Ok(Expansion::Failed { shim, diag }) => {
            assert_eq!(diag.span, 2);
            assert_eq!(diag.message, "expected `defaults`");
            assert!(shim.contains("compile_error!(\"expected `defaults`\")"));
        }
        _ => panic!("expected a failed expansion"),
    }
}
