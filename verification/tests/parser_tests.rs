use named::Attribute;
use named::Attributes;
use named::Tok;
use named::TokKind;

const CALL_SITE: usize = 500;

fn tok(kind: TokKind, text: &str, span: usize) -> Tok {
    Tok { kind, text: text.to_string(), span }
}

fn word(text: &str, span: usize) -> Tok {
    tok(TokKind::Word, text, span)
}

fn eq(span: usize) -> Tok {
    tok(TokKind::Eq, "=", span)
}

fn comma(span: usize) -> Tok {
    tok(TokKind::Comma, ",", span)
}

fn open(span: usize) -> Tok {
    tok(TokKind::Open, "(", span)
}

fn close(span: usize) -> Tok {
    tok(TokKind::Close, ")", span)
}

fn decls_of(attrs: &Attributes) -> Vec<(String, usize, String)> {
    let mut out = Vec::new();
    for item in &attrs.items {
        let Attribute::Defaults(d) = item;
        for decl in &d.defaults {
            out.push((decl.name.clone(), decl.span, decl.value.clone()));
        }
    }
    out
}

#[test]
fn parses_two_simple_defaults() {
    let toks = vec![
        word("defaults", 0),
        open(1),
        word("a", 2),
        eq(3),
        word("false", 4),
        comma(5),
        word("b", 6),
        eq(7),
        word("false", 8),
        close(9),
    ];
    let attrs = Attributes::parse(&toks, CALL_SITE).ok().unwrap();
    assert_eq!(
        decls_of(&attrs),
        vec![
            ("a".to_string(), 2, "false".to_string()),
            ("b".to_string(), 6, "false".to_string()),
        ]
    );
}

#[test]
fn parses_empty_configuration() {
    let attrs = Attributes::parse(&vec![], CALL_SITE).ok().unwrap();
    assert!(attrs.items.is_empty());
}

#[test]
fn parses_empty_defaults_group_and_trailing_comma() {
    let toks = vec![word("defaults", 0), open(1), close(2), comma(3)];
    let attrs = Attributes::parse(&toks, CALL_SITE).ok().unwrap();
    assert_eq!(attrs.items.len(), 1);
    assert!(decls_of(&attrs).is_empty());
}

#[test]
fn nested_call_stays_one_expression() {
    // defaults(a = f(1, 2)): the inner comma belongs to the expression.
    let toks = vec![
        word("defaults", 0),
        open(1),
        word("a", 2),
        eq(3),
        word("f", 4),
        open(5),
        tok(TokKind::Other, "1", 6),
        comma(7),
        tok(TokKind::Other, "2", 8),
        close(9),
        close(10),
    ];
    let attrs = Attributes::parse(&toks, CALL_SITE).ok().unwrap();
    assert_eq!(decls_of(&attrs), vec![("a".to_string(), 2, "f ( 1 , 2 )".to_string())]);
}

#[test]
fn field_projection_expression() {
    // defaults(a = DEFAULT.value)
    let toks = vec![
        word("defaults", 0),
        open(1),
        word("a", 2),
        eq(3),
        word("DEFAULT", 4),
        tok(TokKind::Other, ".", 5),
        word("value", 6),
        close(7),
    ];
    let attrs = Attributes::parse(&toks, CALL_SITE).ok().unwrap();
    assert_eq!(decls_of(&attrs), vec![("a".to_string(), 2, "DEFAULT . value".to_string())]);
}

#[test]
fn wrong_keyword_is_rejected() {
    let toks = vec![word("default", 7)];
    let err = Attributes::parse(&toks, CALL_SITE).err().unwrap();
    assert_eq!(err.span, 7);
    assert_eq!(err.message, "expected `defaults`");
}

#[test]
fn missing_parenthesis_is_rejected() {
    let toks = vec![word("defaults", 0), word("a", 1)];
    let err = Attributes::parse(&toks, CALL_SITE).err().unwrap();
    assert_eq!(err.span, 1);
    assert_eq!(err.message, "expected `(`");
}

#[test]
fn missing_equals_is_rejected() {
    let toks = vec![word("defaults", 0), open(1), word("a", 2), word("b", 3)];
    let err = Attributes::parse(&toks, CALL_SITE).err().unwrap();
    assert_eq!(err.span, 3);
    assert_eq!(err.message, "expected `=`");
}

#[test]
fn empty_expression_is_rejected() {
    let toks = vec![word("defaults", 0), open(1), word("a", 2), eq(3), close(4)];
    let err = Attributes::parse(&toks, CALL_SITE).err().unwrap();
    assert_eq!(err.span, 4);
    assert_eq!(err.message, "expected expression");
}

#[test]
fn unterminated_group_is_rejected_at_the_call_site() {
    let toks = vec![word("defaults", 0), open(1), word("a", 2), eq(3), word("1", 4)];
    let err = Attributes::parse(&toks, CALL_SITE).err().unwrap();
    assert_eq!(err.span, CALL_SITE);
    assert_eq!(err.message, "unexpected end of input");
}

#[test]
fn duplicate_name_overwrites_in_place() {
    let toks = vec![
        word("defaults", 0),
        open(1),
        word("a", 2),
        eq(3),
        tok(TokKind::Other, "1", 4),
        comma(5),
        word("b", 6),
        eq(7),
        tok(TokKind::Other, "2", 8),
        comma(9),
        word("a", 10),
        eq(11),
        tok(TokKind::Other, "3", 12),
        close(13),
    ];
    let attrs = Attributes::parse(&toks, CALL_SITE).ok().unwrap();
    let table = attrs.defaults();
    assert_eq!(table.len(), 2);
    let a = table.get(&"a".to_string()).unwrap();
    assert_eq!(a.value, "3");
    assert_eq!(a.span, 10);
    let b = table.get(&"b".to_string()).unwrap();
    assert_eq!(b.value, "2");
    // First-seen order is kept: `a` still stands before `b`.
    assert_eq!(table.entry_at(0).name, "a");
    assert_eq!(table.entry_at(1).name, "b");
}

#[test]
fn two_defaults_groups_accumulate() {
    let toks = vec![
        word("defaults", 0),
        open(1),
        word("a", 2),
        eq(3),
        tok(TokKind::Other, "1", 4),
        close(5),
        comma(6),
        word("defaults", 7),
        open(8),
        word("b", 9),
        eq(10),
        tok(TokKind::Other, "2", 11),
        close(12),
    ];
    let attrs = Attributes::parse(&toks, CALL_SITE).ok().unwrap();
    assert_eq!(attrs.items.len(), 2);
    let table = attrs.defaults();
    assert_eq!(table.len(), 2);
    assert_eq!(table.entry_at(0).name, "a");
    assert_eq!(table.entry_at(1).name, "b");
}
