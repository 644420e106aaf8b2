use named::CallError;
use named::NamedArg;
use named::ParamSlot;
use named::resolve_call;

fn slot(name: &str, default: Option<&str>) -> ParamSlot {
    ParamSlot { name: name.to_string(), default: default.map(|d| d.to_string()) }
}

fn arg(name: &str, value: &str) -> NamedArg {
    NamedArg { name: name.to_string(), value: value.to_string() }
}

fn as_bool(s: &str) -> bool {
    match s {
        "true" => true,
        "false" => false,
        other => panic!("not a boolean literal: {}", other),
    }
}

fn or_slots() -> Vec<ParamSlot> {
    vec![slot("a", Some("false")), slot("b", Some("false"))]
}

fn or_of(vals: &[String]) -> bool {
    as_bool(&vals[0]) || as_bool(&vals[1])
}

#[test]
fn or_empty_call_uses_both_defaults() {
    let vals = resolve_call(&or_slots(), &vec![]).unwrap();
    assert_eq!(vals, vec!["false".to_string(), "false".to_string()]);
    assert!(!or_of(&vals));
}

#[test]
fn or_single_named_calls() {
    let vals = resolve_call(&or_slots(), &vec![arg("a", "true")]).unwrap();
    assert!(or_of(&vals));
    let vals = resolve_call(&or_slots(), &vec![arg("b", "true")]).unwrap();
    assert_eq!(vals, vec!["false".to_string(), "true".to_string()]);
    assert!(or_of(&vals));
    let vals = resolve_call(&or_slots(), &vec![arg("a", "false")]).unwrap();
    assert!(!or_of(&vals));
}

#[test]
fn or_full_calls_match_positional() {
    let vals = resolve_call(&or_slots(), &vec![arg("a", "true"), arg("b", "true")]).unwrap();
    assert_eq!(vals, vec!["true".to_string(), "true".to_string()]);
    assert!(or_of(&vals));
    let vals = resolve_call(&or_slots(), &vec![arg("a", "false"), arg("b", "false")]).unwrap();
    assert!(!or_of(&vals));
}

fn u8_slots() -> Vec<ParamSlot> {
    vec![slot("a", Some("1")), slot("b", Some("2")), slot("c", Some("3"))]
}

fn fmt_of(vals: &[String]) -> String {
    format!("a=[{}], b=[{}], c=[{}]", vals[0], vals[1], vals[2])
}

#[test]
fn three_defaults_empty_call() {
    let vals = resolve_call(&u8_slots(), &vec![]).unwrap();
    assert_eq!(fmt_of(&vals), "a=[1], b=[2], c=[3]");
}

#[test]
fn three_defaults_first_overridden() {
    let vals = resolve_call(&u8_slots(), &vec![arg("a", "9")]).unwrap();
    assert_eq!(fmt_of(&vals), "a=[9], b=[2], c=[3]");
}

#[test]
fn three_defaults_skip_first() {
    let vals = resolve_call(&u8_slots(), &vec![arg("b", "9"), arg("c", "8")]).unwrap();
    assert_eq!(fmt_of(&vals), "a=[1], b=[9], c=[8]");
}

#[test]
fn three_defaults_other_selections() {
    let vals = resolve_call(&u8_slots(), &vec![arg("b", "8")]).unwrap();
    assert_eq!(fmt_of(&vals), "a=[1], b=[8], c=[3]");
    let vals = resolve_call(&u8_slots(), &vec![arg("c", "7")]).unwrap();
    assert_eq!(fmt_of(&vals), "a=[1], b=[2], c=[7]");
    let vals = resolve_call(&u8_slots(), &vec![arg("a", "4"), arg("b", "5")]).unwrap();
    assert_eq!(fmt_of(&vals), "a=[4], b=[5], c=[3]");
    let vals = resolve_call(&u8_slots(), &vec![arg("a", "4"), arg("c", "7")]).unwrap();
    assert_eq!(fmt_of(&vals), "a=[4], b=[2], c=[7]");
    let vals = resolve_call(
        &u8_slots(),
        &vec![arg("a", "9"), arg("b", "8"), arg("c", "7")],
    )
    .unwrap();
    assert_eq!(fmt_of(&vals), "a=[9], b=[8], c=[7]");
}

#[test]
fn wrong_names_at_the_end_fail() {
    // Every parameter is defaulted, so the unknown pair is bridged past
    // all of them and then rejected.
    let slots = vec![
        slot("a", Some("false")),
        slot("b", Some("false")),
        slot("c", Some("false")),
    ];
    match resolve_call(&slots, &vec![arg("d", "true"), arg("e", "true")]) {
        Err(CallError::Unrecognized { got, expected }) => {
            assert_eq!(got, "d");
            assert_eq!(
                expected,
                vec!["a".to_string(), "b".to_string(), "c".to_string()]
            );
        }
        _ => panic!("expected an unrecognized-argument failure"),
    }
}

#[test]
fn skipped_parameter_without_default_fails() {
    // Only `a` has a default: naming `c` skips over `b`, which cannot be
    // bridged.
    let slots = vec![slot("a", Some("1")), slot("b", None), slot("c", None)];
    match resolve_call(&slots, &vec![arg("c", "8")]) {
        Err(CallError::MissingRequired(names)) => {
            assert_eq!(names, vec!["b".to_string()]);
        }
        other => panic!("expected a missing-required failure, got {:?}", other.is_ok()),
    }
}

#[test]
fn no_defaults_empty_call_names_all_required() {
    let slots = vec![slot("a", None), slot("b", None), slot("c", None)];
    match resolve_call(&slots, &vec![]) {
        Err(CallError::MissingRequired(names)) => {
            assert_eq!(
                names,
                vec!["a".to_string(), "b".to_string(), "c".to_string()]
            );
        }
        _ => panic!("expected a missing-required failure"),
    }
}

#[test]
fn unknown_name_fails() {
    let slots = vec![slot("a", Some("1"))];
    match resolve_call(&slots, &vec![arg("z", "5")]) {
        Err(CallError::Unrecognized { got, expected }) => {
            assert_eq!(got, "z");
            assert_eq!(expected, vec!["a".to_string()]);
        }
        _ => panic!("expected an unrecognized-argument failure"),
    }
    // An unknown name also fails when a required parameter blocks it first.
    let slots = vec![slot("a", None)];
    assert!(resolve_call(&slots, &vec![arg("z", "5")]).is_err());
}

#[test]
fn names_out_of_relative_order_fail() {
    // Supplying `b` then `a` never works: the matcher only fills forward.
    let slots = vec![slot("a", Some("1")), slot("b", Some("2"))];
    match resolve_call(&slots, &vec![arg("b", "9"), arg("a", "8")]) {
        Err(CallError::Unrecognized { got, .. }) => assert_eq!(got, "a"),
        _ => panic!("expected an unrecognized-argument failure"),
    }
}

#[test]
fn full_in_order_call_without_defaults() {
    let slots = vec![slot("x", None), slot("y", None)];
    let vals = resolve_call(&slots, &vec![arg("x", "10"), arg("y", "20")]).unwrap();
    assert_eq!(vals, vec!["10".to_string(), "20".to_string()]);
}

#[test]
fn no_parameters_empty_call() {
    let vals = resolve_call(&vec![], &vec![]).unwrap();
    assert!(vals.is_empty());
}

#[test]
fn no_parameters_any_pair_fails() {
    match resolve_call(&vec![], &vec![arg("a", "1")]) {
        Err(CallError::Unrecognized { got, expected }) => {
            assert_eq!(got, "a");
            assert!(expected.is_empty());
        }
        _ => panic!("expected an unrecognized-argument failure"),
    }
}
