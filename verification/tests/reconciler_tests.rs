use named::DefaultDecl;
use named::DefaultsTable;
use named::ParamShape;
use named::ReconcileError;
use named::reconcile;

const CALL_SITE: usize = 900;

fn ident(name: &str, span: usize) -> ParamShape {
    ParamShape::Named { name: name.to_string(), span }
}

fn decl(name: &str, span: usize, value: &str) -> DefaultDecl {
    DefaultDecl { name: name.to_string(), span, value: value.to_string() }
}

fn table_of(decls: Vec<DefaultDecl>) -> DefaultsTable {
    let mut t = DefaultsTable::new();
    for d in decls {
        t.insert(d);
    }
    t
}

#[test]
fn resolved_table_in_declaration_order() {
    let params = vec![ident("a", 1), ident("b", 2), ident("c", 3)];
    let table = table_of(vec![decl("c", 10, "3"), decl("a", 11, "1")]);
    let details = match reconcile(&params, &table, CALL_SITE) {
        Ok(d) => d,
        Err(_) => panic!("reconciliation should succeed"),
    };
    assert_eq!(details.args, vec!["a".to_string(), "b".to_string(), "c".to_string()]);
    assert_eq!(details.defaults.len(), 3);
    assert_eq!(details.defaults[0].name, "a");
    assert_eq!(details.defaults[0].default.as_deref(), Some("1"));
    assert_eq!(details.defaults[1].name, "b");
    assert_eq!(details.defaults[1].default, None);
    assert_eq!(details.defaults[2].name, "c");
    assert_eq!(details.defaults[2].default.as_deref(), Some("3"));
}

#[test]
fn defaults_declaration_order_does_not_matter() {
    // The table built from `defaults(c=3,b=2,a=1)` resolves exactly like
    // one built from `defaults(a=1,b=2,c=3)`.
    let params = vec![ident("a", 1), ident("b", 2), ident("c", 3)];
    let reversed = table_of(vec![decl("c", 10, "3"), decl("b", 11, "2"), decl("a", 12, "1")]);
    let forward = table_of(vec![decl("a", 20, "1"), decl("b", 21, "2"), decl("c", 22, "3")]);
    let d1 = reconcile(&params, &reversed, CALL_SITE).ok().unwrap();
    let d2 = reconcile(&params, &forward, CALL_SITE).ok().unwrap();
    assert_eq!(d1.args, d2.args);
    assert_eq!(d1.defaults.len(), d2.defaults.len());
    for (s1, s2) in d1.defaults.iter().zip(d2.defaults.iter()) {
        assert_eq!(s1.name, s2.name);
        assert_eq!(s1.default, s2.default);
    }
}

#[test]
fn single_extra_points_at_its_declaration() {
    let params = vec![ident("a", 1), ident("b", 2), ident("c", 3)];
    let table = table_of(vec![decl("d", 77, "9")]);
    match reconcile(&params, &table, CALL_SITE) {
        Err(ReconcileError::Diag(d)) => {
            assert_eq!(d.span, 77);
            assert_eq!(
                d.message,
                "Unrecognized argument - attribute had argument `d` but function takes arguments: [a, b, c]"
            );
        }
        _ => panic!("expected an extras diagnostic"),
    }
}

#[test]
fn multiple_extras_point_at_the_call_site_sorted() {
    let params = vec![ident("a", 1), ident("b", 2), ident("c", 3)];
    let table = table_of(vec![decl("e", 5, "9"), decl("d", 6, "8")]);
    match reconcile(&params, &table, CALL_SITE) {
        Err(ReconcileError::Diag(d)) => {
            assert_eq!(d.span, CALL_SITE);
            assert_eq!(
                d.message,
                "Unrecognized arguments - attribute had arguments [d, e] but function takes arguments: [a, b, c]"
            );
        }
        _ => panic!("expected an extras diagnostic"),
    }
}

#[test]
fn single_parameter_message_is_singular() {
    let params = vec![ident("x", 1)];
    let table = table_of(vec![decl("y", 40, "0")]);
    match reconcile(&params, &table, CALL_SITE) {
        Err(ReconcileError::Diag(d)) => {
            assert_eq!(
                d.message,
                "Unrecognized argument - attribute had argument `y` but function takes argument: [x]"
            );
        }
        _ => panic!("expected an extras diagnostic"),
    }
}

#[test]
fn receiver_parameter_is_rejected() {
    let params = vec![ParamShape::Receiver { span: 4 }, ident("a", 5)];
    let table = DefaultsTable::new();
    match reconcile(&params, &table, CALL_SITE) {
        Err(ReconcileError::Diag(d)) => {
            assert_eq!(d.span, 4);
            assert_eq!(
                d.message,
                "`named` does not currently support functions which take `self`."
            );
        }
        _ => panic!("expected the receiver diagnostic"),
    }
}

#[test]
fn pattern_parameter_aborts() {
    let params = vec![
        ident("a", 1),
        ParamShape::Pattern { text: "(x, y)".to_string(), span: 2 },
    ];
    let table = DefaultsTable::new();
    match reconcile(&params, &table, CALL_SITE) {
        Err(ReconcileError::Abort(m)) => {
            assert_eq!(
                m,
                "Didn't recognise function signature - expected all args to be idents, but found: (x, y)"
            );
        }
        _ => panic!("expected an abort"),
    }
}

#[test]
fn empty_signature_reconciles() {
    let params: Vec<ParamShape> = vec![];
    let table = DefaultsTable::new();
    let details = reconcile(&params, &table, CALL_SITE).ok().unwrap();
    assert!(details.args.is_empty());
    assert!(details.defaults.is_empty());
}

#[test]
fn overwritten_default_keeps_last_value() {
    let params = vec![ident("a", 1)];
    let table = table_of(vec![decl("a", 10, "1"), decl("a", 11, "2")]);
    let details = reconcile(&params, &table, CALL_SITE).ok().unwrap();
    assert_eq!(details.defaults[0].default.as_deref(), Some("2"));
}
