//! Parsing the annotation's configuration.
//!
//! The configuration is a comma-separated list of `defaults(...)` groups,
//! each holding `name = expression` declarations.  The expression operand
//! is opaque: its tokens are collected up to the next comma or closing
//! parenthesis at nesting depth zero and kept as text.  Parsing is a fold
//! of one transition function over the token list; any unexpected token
//! fails with a diagnostic at that token.

use vstd::prelude::*;
use vstd::string::StringExecFns;

use crate::arg_reconciler::Diag;
use crate::table::DeclView;
use crate::table::DefaultDecl;
use crate::table::DefaultsTable;
use crate::table::spec_build;
use crate::table::spec_insert;

verus! {

/// One token of the configuration, as the shell lexes it: structural
/// tokens are classified, everything else carries its text.
pub struct Tok {
    pub kind: TokKind,
    pub text: String,
    pub span: usize,
}

#[derive(PartialEq, Eq, Structural)]
pub enum TokKind {
    Word,
    Eq,
    Comma,
    Open,
    Close,
    Other,
}

pub struct TokView {
    pub kind: TokKind,
    pub text: Seq<char>,
    pub span: nat,
}

impl View for Tok {
    type V = TokView;

    open spec fn view(&self) -> TokView {
        TokView { kind: self.kind, text: self.text@, span: self.span as nat }
    }
}

pub open spec fn tok_views(v: Seq<Tok>) -> Seq<TokView> {
    v.map_values(|t: Tok| t@)
}

/// A `defaults(...)` group: its declarations in source order.
pub struct Defaults {
    pub defaults: Vec<DefaultDecl>,
}

impl View for Defaults {
    type V = Seq<DeclView>;

    open spec fn view(&self) -> Seq<DeclView> {
        self.defaults@.map_values(|d: DefaultDecl| d@)
    }
}

/// One recognized configuration group.
pub enum Attribute {
    Defaults(Defaults),
}

impl View for Attribute {
    type V = Seq<DeclView>;

    open spec fn view(&self) -> Seq<DeclView> {
        match self {
            Attribute::Defaults(d) => d@,
        }
    }
}

/// The whole parsed configuration.
pub struct Attributes {
    pub items: Vec<Attribute>,
}

impl View for Attributes {
    type V = Seq<Seq<DeclView>>;

    open spec fn view(&self) -> Seq<Seq<DeclView>> {
        self.items@.map_values(|a: Attribute| a@)
    }
}

/// Where the parser stands between tokens.
#[derive(PartialEq, Eq, Structural)]
pub enum Mode {
    /// Expecting the `defaults` keyword, or the end of the input.
    AtItem,
    /// Expecting the opening parenthesis.
    AfterKeyword,
    /// Inside the parentheses: expecting a name or the closing parenthesis.
    AtDecl,
    /// After a declaration's name: expecting `=`.
    AfterName,
    /// Collecting the declaration's expression tokens.
    InExpr,
    /// After a closed group: expecting `,` or the end of the input.
    AfterItem,
}

pub struct DiagView {
    pub span: nat,
    pub message: Seq<char>,
}

impl View for Diag {
    type V = DiagView;

    open spec fn view(&self) -> DiagView {
        DiagView { span: self.span as nat, message: self.message@ }
    }
}

/// The parser's whole state.
pub struct StView {
    pub mode: Mode,
    pub depth: nat,
    pub items: Seq<Seq<DeclView>>,
    pub cur_decls: Seq<DeclView>,
    pub cur_name: Seq<char>,
    pub cur_span: nat,
    pub cur_expr: Seq<char>,
    pub err: Option<DiagView>,
}

struct ParseState {
    mode: Mode,
    depth: usize,
    items: Vec<Attribute>,
    cur_decls: Vec<DefaultDecl>,
    cur_name: String,
    cur_span: usize,
    cur_expr: String,
    err: Option<Diag>,
}

impl View for ParseState {
    type V = StView;

    closed spec fn view(&self) -> StView {
        StView {
            mode: self.mode,
            depth: self.depth as nat,
            items: self.items@.map_values(|a: Attribute| a@),
            cur_decls: self.cur_decls@.map_values(|d: DefaultDecl| d@),
            cur_name: self.cur_name@,
            cur_span: self.cur_span as nat,
            cur_expr: self.cur_expr@,
            err: match &self.err {
                Option::Some(d) => Option::Some(d@),
                Option::None => Option::None,
            },
        }
    }
}

pub open spec fn spec_init() -> StView {
    StView {
        mode: Mode::AtItem,
        depth: 0,
        items: Seq::empty(),
        cur_decls: Seq::empty(),
        cur_name: Seq::empty(),
        cur_span: 0,
        cur_expr: Seq::empty(),
        err: Option::None,
    }
}

/// The expression text grown by one token: a single space between tokens.
pub open spec fn spec_expr_grow(expr: Seq<char>, text: Seq<char>) -> Seq<char> {
    if expr.len() == 0 {
        text
    } else {
        expr + " "@ + text
    }
}

pub open spec fn failed(st: StView, span: nat, message: Seq<char>) -> StView {
    StView { err: Option::Some(DiagView { span, message }), ..st }
}

/// The declaration currently being collected.
pub open spec fn cur_decl(st: StView) -> DeclView {
    DeclView { name: st.cur_name, span: st.cur_span, value: st.cur_expr }
}

/// One parsing step.
pub open spec fn spec_step(st: StView, t: TokView) -> StView {
    if st.err is Some {
        st
    } else {
        match st.mode {
            Mode::AtItem => {
                if t.kind == TokKind::Word && t.text == "defaults"@ {
                    StView { mode: Mode::AfterKeyword, ..st }
                } else {
                    failed(st, t.span, "expected `defaults`"@)
                }
            },
            Mode::AfterKeyword => {
                if t.kind == TokKind::Open && t.text == "("@ {
                    StView { mode: Mode::AtDecl, cur_decls: Seq::empty(), ..st }
                } else {
                    failed(st, t.span, "expected `(`"@)
                }
            },
            Mode::AtDecl => {
                if t.kind == TokKind::Close && t.text == ")"@ {
                    StView {
                        mode: Mode::AfterItem,
                        items: st.items.push(st.cur_decls),
                        cur_decls: Seq::empty(),
                        ..st
                    }
                } else if t.kind == TokKind::Word {
                    StView { mode: Mode::AfterName, cur_name: t.text, cur_span: t.span, ..st }
                } else {
                    failed(st, t.span, "expected identifier"@)
                }
            },
            Mode::AfterName => {
                if t.kind == TokKind::Eq {
                    StView { mode: Mode::InExpr, depth: 0, cur_expr: Seq::empty(), ..st }
                } else {
                    failed(st, t.span, "expected `=`"@)
                }
            },
            Mode::InExpr => {
                if t.kind == TokKind::Comma && st.depth == 0 {
                    if st.cur_expr.len() == 0 {
                        failed(st, t.span, "expected expression"@)
                    } else {
                        StView {
                            mode: Mode::AtDecl,
                            cur_decls: st.cur_decls.push(cur_decl(st)),
                            cur_expr: Seq::empty(),
                            ..st
                        }
                    }
                } else if t.kind == TokKind::Close && st.depth == 0 && t.text == ")"@ {
                    if st.cur_expr.len() == 0 {
                        failed(st, t.span, "expected expression"@)
                    } else {
                        StView {
                            mode: Mode::AfterItem,
                            items: st.items.push(st.cur_decls.push(cur_decl(st))),
                            cur_decls: Seq::empty(),
                            cur_expr: Seq::empty(),
                            ..st
                        }
                    }
                } else if t.kind == TokKind::Open {
                    StView {
                        depth: st.depth + 1,
                        cur_expr: spec_expr_grow(st.cur_expr, t.text),
                        ..st
                    }
                } else if t.kind == TokKind::Close {
                    if st.depth == 0 {
                        failed(st, t.span, "unbalanced delimiters"@)
                    } else {
                        StView {
                            depth: (st.depth - 1) as nat,
                            cur_expr: spec_expr_grow(st.cur_expr, t.text),
                            ..st
                        }
                    }
                } else {
                    StView { cur_expr: spec_expr_grow(st.cur_expr, t.text), ..st }
                }
            },
            Mode::AfterItem => {
                if t.kind == TokKind::Comma {
                    StView { mode: Mode::AtItem, ..st }
                } else {
                    failed(st, t.span, "unexpected token"@)
                }
            },
        }
    }
}

/// The state after the whole token list.
pub open spec fn spec_run(toks: Seq<TokView>) -> StView
    decreases toks.len(),
{
    if toks.len() == 0 {
        spec_init()
    } else {
        spec_step(spec_run(toks.drop_last()), toks.last())
    }
}

/// What parsing the whole configuration yields.
pub open spec fn spec_parse(toks: Seq<TokView>, call_site: nat) -> Result<
    Seq<Seq<DeclView>>,
    DiagView,
> {
    let st = spec_run(toks);
    match st.err {
        Option::Some(d) => Result::Err(d),
        Option::None => {
            if st.mode == Mode::AtItem || st.mode == Mode::AfterItem {
                Result::Ok(st.items)
            } else {
                Result::Err(DiagView { span: call_site, message: "unexpected end of input"@ })
            }
        },
    }
}

fn fail_at(st: ParseState, span: usize, message: &str) -> (r: ParseState)
    requires
        st@.err is None,
    ensures
        r@ == failed(st@, span as nat, message@),
{
    let mut st = st;
    st.err = Option::Some(Diag { span, message: String::from_str(message) });
    st
}

fn grow_expr(e: String, text: &String) -> (r: String)
    ensures
        r@ == spec_expr_grow(e@, text@),
{
    if e.as_str().is_empty() {
        text.clone()
    } else {
        let mut e = e;
        e.append(" ");
        e.append(text.as_str());
        e
    }
}

fn step(st: ParseState, t: &Tok) -> (r: ParseState)
    requires
        st@.depth < usize::MAX,
    ensures
        r@ == spec_step(st@, t@),
{
    let ghost s0 = st@;
    if st.err.is_some() {
        return st;
    }
    let mut st = st;
    match st.mode {
        Mode::AtItem => {
            let kw = String::from_str("defaults");
            if matches!(t.kind, TokKind::Word) && t.text == kw {
                st.mode = Mode::AfterKeyword;
                st
            } else {
                fail_at(st, t.span, "expected `defaults`")
            }
        },
        Mode::AfterKeyword => {
            let open = String::from_str("(");
            if matches!(t.kind, TokKind::Open) && t.text == open {
                st.mode = Mode::AtDecl;
                st.cur_decls = Vec::new();
                proof {
                    assert(st@.cur_decls =~= Seq::<DeclView>::empty());
                }
                st
            } else {
                fail_at(st, t.span, "expected `(`")
            }
        },
        Mode::AtDecl => {
            let close = String::from_str(")");
            if matches!(t.kind, TokKind::Close) && t.text == close {
                let ghost items0 = s0.items;
                let ghost decls0 = s0.cur_decls;
                let done = Attribute::Defaults(Defaults { defaults: st.cur_decls });
                st.cur_decls = Vec::new();
                st.items.push(done);
                st.mode = Mode::AfterItem;
                proof {
                    assert(st@.items =~~= items0.push(decls0));
                    assert(st@.cur_decls =~= Seq::<DeclView>::empty());
                }
                st
            } else if matches!(t.kind, TokKind::Word) {
                st.mode = Mode::AfterName;
                st.cur_name = t.text.clone();
                st.cur_span = t.span;
                st
            } else {
                fail_at(st, t.span, "expected identifier")
            }
        },
        Mode::AfterName => {
            if matches!(t.kind, TokKind::Eq) {
                st.mode = Mode::InExpr;
                st.depth = 0;
                st.cur_expr = String::new();
                st
            } else {
                fail_at(st, t.span, "expected `=`")
            }
        },
        Mode::InExpr => {
            let close = String::from_str(")");
            if matches!(t.kind, TokKind::Comma) && st.depth == 0 {
                if st.cur_expr.as_str().is_empty() {
                    fail_at(st, t.span, "expected expression")
                } else {
                    let ghost decls0 = s0.cur_decls;
                    let decl = DefaultDecl {
                        name: st.cur_name.clone(),
                        span: st.cur_span,
                        value: st.cur_expr.clone(),
                    };
                    st.cur_decls.push(decl);
                    st.cur_expr = String::new();
                    st.mode = Mode::AtDecl;
                    proof {
                        assert(st@.cur_decls =~~= decls0.push(cur_decl(s0)));
                    }
                    st
                }
            } else if matches!(t.kind, TokKind::Close) && st.depth == 0 && t.text == close {
                if st.cur_expr.as_str().is_empty() {
                    fail_at(st, t.span, "expected expression")
                } else {
                    let ghost items0 = s0.items;
                    let ghost decls0 = s0.cur_decls;
                    let decl = DefaultDecl {
                        name: st.cur_name.clone(),
                        span: st.cur_span,
                        value: st.cur_expr.clone(),
                    };
                    st.cur_decls.push(decl);
                    let done = Attribute::Defaults(Defaults { defaults: st.cur_decls });
                    st.cur_decls = Vec::new();
                    st.items.push(done);
                    st.cur_expr = String::new();
                    st.mode = Mode::AfterItem;
                    proof {
                        assert(st@.items =~~= items0.push(decls0.push(cur_decl(s0))));
                        assert(st@.cur_decls =~= Seq::<DeclView>::empty());
                    }
                    st
                }
            } else if matches!(t.kind, TokKind::Open) {
                st.depth = st.depth + 1;
                st.cur_expr = grow_expr(st.cur_expr, &t.text);
                st
            } else if matches!(t.kind, TokKind::Close) {
                if st.depth == 0 {
                    fail_at(st, t.span, "unbalanced delimiters")
                } else {
                    st.depth = st.depth - 1;
                    st.cur_expr = grow_expr(st.cur_expr, &t.text);
                    st
                }
            } else {
                st.cur_expr = grow_expr(st.cur_expr, &t.text);
                st
            }
        },
        Mode::AfterItem => {
            if matches!(t.kind, TokKind::Comma) {
                st.mode = Mode::AtItem;
                st
            } else {
                fail_at(st, t.span, "unexpected token")
            }
        },
    }
}

impl Attributes {
    /// Parse the configuration's token list.  The declarations come back
    /// in source order, each expression as the text of its tokens;
    /// `call_site` locates the end-of-input diagnostic.
    pub fn parse(toks: &Vec<Tok>, call_site: usize) -> (r: Result<Attributes, Diag>)
        ensures
            match r {
                Ok(a) => spec_parse(tok_views(toks@), call_site as nat) == Result::<
                    Seq<Seq<DeclView>>,
                    DiagView,
                >::Ok(a@),
                Err(d) => spec_parse(tok_views(toks@), call_site as nat) == Result::<
                    Seq<Seq<DeclView>>,
                    DiagView,
                >::Err(d@),
            },
    {
        let ghost tv = tok_views(toks@);
        let mut st = ParseState {
            mode: Mode::AtItem,
            depth: 0,
            items: Vec::new(),
            cur_decls: Vec::new(),
            cur_name: String::new(),
            cur_span: 0,
            cur_expr: String::new(),
            err: Option::None,
        };
        proof {
            assert(st@.items =~~= spec_init().items);
            assert(st@.cur_decls =~= spec_init().cur_decls);
            assert(st@ == spec_init());
            assert(tv.subrange(0, 0) =~= Seq::<TokView>::empty());
        }
        let mut i: usize = 0;
        while i < toks.len()
            invariant
                0 <= i <= toks@.len(),
                tv == tok_views(toks@),
                tv.len() == toks@.len(),
                st@ == spec_run(tv.subrange(0, i as int)),
                st@.depth <= i,
            decreases toks@.len() - i,
        {
            let ghost d0 = st@.depth;
            st = step(st, &toks[i]);
            proof {
                assert(st@.depth <= d0 + 1);
            }
            proof {
                let pre = tv.subrange(0, i as int);
                let now = tv.subrange(0, i + 1);
                assert(now.drop_last() =~= pre);
                assert(now.last() == tv[i as int]);
                assert(tv[i as int] == toks@[i as int]@);
            }
            i = i + 1;
        }
        proof {
            assert(tv.subrange(0, tv.len() as int) =~= tv);
        }
        match st.err {
            Option::Some(d) => Err(d),
            Option::None => {
                let at_item = matches!(st.mode, Mode::AtItem);
                let after_item = matches!(st.mode, Mode::AfterItem);
                if at_item || after_item {
                    Ok(Attributes { items: st.items })
                } else {
                    Err(
                        Diag {
                            span: call_site,
                            message: String::from_str("unexpected end of input"),
                        },
                    )
                }
            },
        }
    }

    /// Fold every declaration, in source order, into the defaults table:
    /// first-seen order is kept and a re-declared name overwrites.
    pub fn defaults(&self) -> (r: DefaultsTable)
        ensures
            r@ == spec_build(spec_all_decls(self@)),
            r.wf(),
    {
        let mut table = DefaultsTable::new();
        let ghost items = self@;
        proof {
            assert(items.subrange(0, 0) =~= Seq::<Seq<DeclView>>::empty());
            assert(spec_all_decls(items.subrange(0, 0)) =~= Seq::<DeclView>::empty());
        }
        let mut i: usize = 0;
        while i < self.items.len()
            invariant
                0 <= i <= self.items@.len(),
                items == self@,
                items.len() == self.items@.len(),
                table@ == spec_build(spec_all_decls(items.subrange(0, i as int))),
                table.wf(),
            decreases self.items@.len() - i,
        {
            let ghost done = spec_all_decls(items.subrange(0, i as int));
            let decls: &Vec<DefaultDecl> = match &self.items[i] {
                Attribute::Defaults(d) => &d.defaults,
            };
            proof {
                assert(items[i as int] == self.items@[i as int]@);
                assert(decls@.map_values(|d: DefaultDecl| d@) == items[i as int]);
            }
            let mut j: usize = 0;
            proof {
                assert(done.subrange(0, done.len() as int) =~= done);
                assert(done + items[i as int].subrange(0, 0) =~= done);
            }
            while j < decls.len()
                invariant
                    0 <= j <= decls@.len(),
                    items == self@,
                    0 <= i < items.len(),
                    items[i as int] == decls@.map_values(|d: DefaultDecl| d@),
                    items[i as int].len() == decls@.len(),
                    done == spec_all_decls(items.subrange(0, i as int)),
                    table@ == spec_build(done + items[i as int].subrange(0, j as int)),
                    table.wf(),
                decreases decls@.len() - j,
            {
                let ghost sofar = done + items[i as int].subrange(0, j as int);
                table.insert(
                    DefaultDecl {
                        name: decls[j].name.clone(),
                        span: decls[j].span,
                        value: decls[j].value.clone(),
                    },
                );
                proof {
                    let nowd = done + items[i as int].subrange(0, j + 1);
                    assert(nowd.drop_last() =~= sofar);
                    assert(nowd.last() == items[i as int][j as int]);
                    assert(items[i as int][j as int] == decls@[j as int]@);
                    assert(spec_build(nowd) == spec_insert(
                        spec_build(sofar),
                        items[i as int][j as int],
                    ));
                }
                j = j + 1;
            }
            proof {
                let pre = items.subrange(0, i as int);
                let now = items.subrange(0, i + 1);
                assert(now.drop_last() =~= pre);
                assert(now.last() == items[i as int]);
                lemma_all_decls_push(pre, items[i as int]);
                assert(items[i as int].subrange(0, items[i as int].len() as int)
                    =~= items[i as int]);
            }
            i = i + 1;
        }
        proof {
            assert(items.subrange(0, items.len() as int) =~= items);
        }
        table
    }
}

/// Every declaration of every group, in source order.
pub open spec fn spec_all_decls(items: Seq<Seq<DeclView>>) -> Seq<DeclView>
    decreases items.len(),
{
    if items.len() == 0 {
        Seq::empty()
    } else {
        spec_all_decls(items.drop_last()) + items.last()
    }
}

proof fn lemma_all_decls_push(items: Seq<Seq<DeclView>>, last: Seq<DeclView>)
    ensures
        spec_all_decls(items.push(last)) == spec_all_decls(items) + last,
{
    assert(items.push(last).drop_last() =~~= items);
    assert(items.push(last).last() == last);
}

} // verus!
