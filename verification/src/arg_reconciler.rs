//! Reconciling the declared defaults against the function's parameters.
//!
//! The parameter list is walked in declaration order and rejected outright
//! when a receiver or a non-identifier pattern appears.  Every default
//! naming a parameter the function does not have is an "extra"; extras are
//! reported once, in a canonical sorted order so the diagnostic is
//! deterministic.  The result is the resolved argument table: one row per
//! parameter, in the function's declaration order, with the default
//! expression where one was declared.

use vstd::prelude::*;
use vstd::string::StringExecFns;

use crate::matcher::ParamSlot;
use crate::matcher::SlotView;
use crate::matcher::slot_views;
use crate::order::sort_names;
use crate::order::spec_sort;
use crate::table::DeclView;
use crate::table::DefaultsTable;
use crate::table::decl_for;
use crate::table::has_name;
use crate::text::format_names;
use crate::text::join_names;
use crate::text::join_with;
use crate::text::spec_format_names;
use crate::text::views_of;

verus! {

/// One parameter of the annotated function, as the signature shows it.
pub enum ParamShape {
    /// A `self` receiver.
    Receiver { span: usize },
    /// A plain identifier.
    Named { name: String, span: usize },
    /// Any other pattern; `text` describes it for the abort message.
    Pattern { text: String, span: usize },
}

/// The mathematical shape of a parameter.
pub enum ShapeView {
    Receiver { span: nat },
    Named { name: Seq<char>, span: nat },
    Pattern { text: Seq<char>, span: nat },
}

impl View for ParamShape {
    type V = ShapeView;

    open spec fn view(&self) -> ShapeView {
        match self {
            ParamShape::Receiver { span } => ShapeView::Receiver { span: *span as nat },
            ParamShape::Named { name, span } => ShapeView::Named {
                name: name@,
                span: *span as nat,
            },
            ParamShape::Pattern { text, span } => ShapeView::Pattern {
                text: text@,
                span: *span as nat,
            },
        }
    }
}

pub open spec fn shape_views(v: Seq<ParamShape>) -> Seq<ShapeView> {
    v.map_values(|p: ParamShape| p@)
}

/// What walking the parameter list yields: the parameter names in
/// declaration order, or the first parameter of a shape the generator
/// rejects.
pub enum SigCheck {
    Names(Seq<Seq<char>>),
    BadReceiver { span: nat },
    BadPattern { text: Seq<char>, span: nat },
}

pub open spec fn spec_extract(params: Seq<ShapeView>) -> SigCheck
    decreases params.len(),
{
    if params.len() == 0 {
        SigCheck::Names(Seq::empty())
    } else {
        match params[0] {
            ShapeView::Receiver { span } => SigCheck::BadReceiver { span },
            ShapeView::Pattern { text, span } => SigCheck::BadPattern { text, span },
            ShapeView::Named { name, span } => match spec_extract(params.drop_first()) {
                SigCheck::Names(rest) => SigCheck::Names(seq![name] + rest),
                bad => bad,
            },
        }
    }
}

spec fn names_prepend(prefix: Seq<Seq<char>>, c: SigCheck) -> SigCheck {
    match c {
        SigCheck::Names(rest) => SigCheck::Names(prefix + rest),
        bad => bad,
    }
}

/// The diagnostic for a `self` receiver.
pub open spec fn spec_receiver_message() -> Seq<char> {
    "`named` does not currently support functions which take `self`."@
}

/// The abort message for a parameter that is no plain identifier.
pub open spec fn spec_abort_message(text: Seq<char>) -> Seq<char> {
    "Didn't recognise function signature - expected all args to be idents, but found: "@ + text
}

/// The declared default names that match no parameter, in table order.
pub open spec fn spec_unknown_names(table: Seq<DeclView>, names: Seq<Seq<char>>) -> Seq<Seq<char>>
    decreases table.len(),
{
    if table.len() == 0 {
        Seq::empty()
    } else if names.contains(table[0].name) {
        spec_unknown_names(table.drop_first(), names)
    } else {
        seq![table[0].name] + spec_unknown_names(table.drop_first(), names)
    }
}

/// The extras, in the canonical sorted order the diagnostic uses.
pub open spec fn spec_extras(table: Seq<DeclView>, names: Seq<Seq<char>>) -> Seq<Seq<char>> {
    spec_sort(spec_unknown_names(table, names))
}

/// The extras diagnostic: counts worded correctly, the extras shown as a
/// name list, and the declared parameters listed in sorted order.
pub open spec fn spec_extras_message(
    extras: Seq<Seq<char>>,
    fn_names_sorted: Seq<Seq<char>>,
) -> Seq<char> {
    let ep = if extras.len() == 1 {
        ""@
    } else {
        "s"@
    };
    let fp = if fn_names_sorted.len() == 1 {
        ""@
    } else {
        "s"@
    };
    "Unrecognized argument"@ + ep + " - attribute had argument"@ + ep + " "@
        + spec_format_names(extras) + " but function takes argument"@ + fp + ": ["@ + join_with(
        fn_names_sorted,
        ", "@,
    ) + "]"@
}

/// The resolved argument table: one row per parameter, in declaration
/// order, carrying the declared default where the table has one.
pub open spec fn spec_resolved(names: Seq<Seq<char>>, table: Seq<DeclView>) -> Seq<SlotView> {
    Seq::new(
        names.len(),
        |i: int|
            SlotView {
                name: names[i],
                default: if has_name(table, names[i]) {
                    Option::Some(decl_for(table, names[i]).value)
                } else {
                    Option::None
                },
            },
    )
}

/// Two tables holding the same declarations agree on every lookup.
proof fn lemma_same_decls_same_lookup(t1: Seq<DeclView>, t2: Seq<DeclView>, n: Seq<char>)
    requires
        crate::table::distinct_names(t1),
        crate::table::distinct_names(t2),
        forall|d: DeclView| t1.contains(d) <==> t2.contains(d),
    ensures
        has_name(t1, n) <==> has_name(t2, n),
        has_name(t1, n) ==> decl_for(t1, n) == decl_for(t2, n),
{
    if has_name(t1, n) {
        let i = choose|i: int| 0 <= i < t1.len() && t1[i].name == n;
        assert(t1.contains(t1[i]));
        assert(t2.contains(t1[i]));
        let j = choose|j: int| 0 <= j < t2.len() && t2[j] == t1[i];
        assert(t2[j].name == n);
        assert(has_name(t2, n));
        let i2 = choose|i2: int| 0 <= i2 < t1.len() && t1[i2].name == n;
        if i2 != i {
            assert(t1[i2].name == t1[i].name);
            assert(false);
        }
        let j2 = choose|j2: int| 0 <= j2 < t2.len() && t2[j2].name == n;
        if j2 != j {
            assert(t2[j2].name == t2[j].name);
            assert(false);
        }
        assert(decl_for(t1, n) == t1[i]);
        assert(decl_for(t2, n) == t2[j]);
    }
    if has_name(t2, n) {
        let i = choose|i: int| 0 <= i < t2.len() && t2[i].name == n;
        assert(t2.contains(t2[i]));
        assert(t1.contains(t2[i]));
        let j = choose|j: int| 0 <= j < t1.len() && t1[j] == t2[i];
        assert(t1[j].name == n);
        assert(has_name(t1, n));
    }
}

/// The order defaults are declared in does not affect the resolved
/// argument table: two defaults tables holding the same declarations
/// resolve every parameter list identically.
pub proof fn lemma_resolved_order_independent(
    names: Seq<Seq<char>>,
    t1: Seq<DeclView>,
    t2: Seq<DeclView>,
)
    requires
        crate::table::distinct_names(t1),
        crate::table::distinct_names(t2),
        forall|d: DeclView| t1.contains(d) <==> t2.contains(d),
    ensures
        spec_resolved(names, t1) == spec_resolved(names, t2),
{
    assert forall|i: int|
        0 <= i < names.len() implies spec_resolved(names, t1)[i] == spec_resolved(
        names,
        t2,
    )[i] by {
        lemma_same_decls_same_lookup(t1, t2, names[i]);
    }
    assert(spec_resolved(names, t1) =~= spec_resolved(names, t2));
}

/// A located diagnostic.
pub struct Diag {
    pub span: usize,
    pub message: String,
}

/// How reconciliation fails.
pub enum ReconcileError {
    /// A diagnostic to surface at every call site through the degenerate
    /// macro.
    Diag(Diag),
    /// A malformed signature that aborts processing outright.
    Abort(String),
}

/// The reconciler's product: the parameter names in declaration order and
/// the resolved argument table.
pub struct ArgDetails {
    pub args: Vec<String>,
    pub defaults: Vec<ParamSlot>,
}

/// `x` occurs among `names`.
fn contains_name(names: &Vec<String>, x: &String) -> (r: bool)
    ensures
        r == views_of(names@).contains(x@),
{
    let ghost vs = views_of(names@);
    let mut i: usize = 0;
    while i < names.len()
        invariant
            0 <= i <= names.len(),
            vs == views_of(names@),
            vs.len() == names@.len(),
            forall|j: int| 0 <= j < i ==> vs[j] != x@,
        decreases names.len() - i,
    {
        if names[i] == *x {
            proof {
                assert(vs[i as int] == x@);
            }
            return true;
        }
        proof {
            assert(vs[i as int] == names@[i as int]@);
        }
        i = i + 1;
    }
    proof {
        assert(!vs.contains(x@));
    }
    false
}

/// Every unknown name was declared in the table.
proof fn lemma_unknown_has_name(table: Seq<DeclView>, names: Seq<Seq<char>>, x: Seq<char>)
    requires
        spec_unknown_names(table, names).contains(x),
    ensures
        has_name(table, x),
    decreases table.len(),
{
    if table.len() == 0 {
    } else {
        let u = spec_unknown_names(table, names);
        let ut = spec_unknown_names(table.drop_first(), names);
        assert(forall|j: int|
            0 <= j < table.drop_first().len() ==> #[trigger] table.drop_first()[j] == table[j
                + 1]);
        if names.contains(table[0].name) {
            lemma_unknown_has_name(table.drop_first(), names, x);
            let j = choose|j: int|
                0 <= j < table.drop_first().len() && table.drop_first()[j].name == x;
            assert(table[j + 1].name == x);
        } else {
            if x == table[0].name {
                assert(table[0].name == x);
            } else {
                let j = choose|j: int| 0 <= j < u.len() && u[j] == x;
                assert(j > 0);
                assert(ut[j - 1] == x);
                lemma_unknown_has_name(table.drop_first(), names, x);
                let j2 = choose|j2: int|
                    0 <= j2 < table.drop_first().len() && table.drop_first()[j2].name == x;
                assert(table[j2 + 1].name == x);
            }
        }
    }
}

/// Check the annotated function's parameters against the declared
/// defaults.  A receiver or a non-identifier pattern is rejected at the
/// offending parameter; a default naming no parameter fails with the
/// extras diagnostic; otherwise the resolved argument table is built in
/// the function's declaration order.
pub fn reconcile(params: &Vec<ParamShape>, defaults: &DefaultsTable, call_site: usize) -> (r:
    Result<ArgDetails, ReconcileError>)
    requires
        defaults.wf(),
    ensures
        ({
            let check = spec_extract(shape_views(params@));
            match check {
                SigCheck::BadReceiver { span } => {
                    &&& r matches Err(ReconcileError::Diag(d))
                    &&& d.span as nat == span
                    &&& d.message@ == spec_receiver_message()
                },
                SigCheck::BadPattern { text, span } => {
                    &&& r matches Err(ReconcileError::Abort(m))
                    &&& m@ == spec_abort_message(text)
                },
                SigCheck::Names(names) => {
                    let extras = spec_extras(defaults@, names);
                    if extras.len() == 0 {
                        &&& r matches Ok(d)
                        &&& views_of(d.args@) == names
                        &&& slot_views(d.defaults@) == spec_resolved(names, defaults@)
                    } else {
                        &&& r matches Err(ReconcileError::Diag(d))
                        &&& d.message@ == spec_extras_message(extras, spec_sort(names))
                        &&& (extras.len() == 1 ==> d.span as nat == decl_for(
                            defaults@,
                            extras[0],
                        ).span)
                        &&& (extras.len() != 1 ==> d.span == call_site)
                    }
                },
            }
        }),
{
    let ghost pvs = shape_views(params@);
    let mut args: Vec<String> = Vec::new();
    let mut i: usize = 0;
    proof {
        assert(pvs.skip(0) =~= pvs);
        assert(views_of(args@) =~= Seq::<Seq<char>>::empty());
    }
    while i < params.len()
        invariant
            0 <= i <= params.len(),
            pvs == shape_views(params@),
            pvs.len() == params@.len(),
            views_of(args@).len() == i,
            spec_extract(pvs) == names_prepend(
                views_of(args@),
                spec_extract(pvs.skip(i as int)),
            ),
        decreases params.len() - i,
    {
        let ghost suf = pvs.skip(i as int);
        proof {
            assert(suf[0] == pvs[i as int]);
            assert(pvs[i as int] == params@[i as int]@);
            assert(suf.drop_first() =~= pvs.skip(i + 1));
        }
        match &params[i] {
            ParamShape::Receiver { span } => {
                let msg = String::from_str(
                    "`named` does not currently support functions which take `self`.",
                );
                proof {
                    assert(spec_extract(suf) == SigCheck::BadReceiver { span: *span as nat });
                }
                return Err(ReconcileError::Diag(Diag { span: *span, message: msg }));
            },
            ParamShape::Pattern { text, span } => {
                let mut msg = String::from_str(
                    "Didn't recognise function signature - expected all args to be idents, but found: ",
                );
                msg.append(text.as_str());
                proof {
                    assert(spec_extract(suf) == SigCheck::BadPattern {
                        text: text@,
                        span: *span as nat,
                    });
                }
                return Err(ReconcileError::Abort(msg));
            },
            ParamShape::Named { name, span } => {
                let ghost pre = views_of(args@);
                args.push(name.clone());
                proof {
                    let tail = spec_extract(pvs.skip(i + 1));
                    assert(spec_extract(suf) == names_prepend(seq![name@], tail));
                    assert(views_of(args@) =~= pre.push(name@));
                    match tail {
                        SigCheck::Names(rest) => {
                            assert(pre + (seq![name@] + rest) =~= views_of(args@) + rest);
                        },
                        _ => {},
                    }
                    assert(spec_extract(pvs) == names_prepend(views_of(args@), tail));
                }
            },
        }
        i = i + 1;
    }
    let ghost names_v = views_of(args@);
    proof {
        assert(pvs.skip(params@.len() as int) =~= Seq::<ShapeView>::empty());
        assert(names_v + Seq::<Seq<char>>::empty() =~= names_v);
        assert(spec_extract(pvs) == SigCheck::Names(names_v));
    }
    // Collect the declared defaults that name no parameter.
    let ghost tv = defaults@;
    let mut unknown: Vec<String> = Vec::new();
    let mut t: usize = 0;
    proof {
        assert(tv.skip(0) =~= tv);
        assert(views_of(unknown@) =~= Seq::<Seq<char>>::empty());
        assert(Seq::<Seq<char>>::empty() + spec_unknown_names(tv, names_v) =~= spec_unknown_names(
            tv,
            names_v,
        ));
    }
    let tlen = defaults.len();
    while t < tlen
        invariant
            0 <= t <= tlen,
            tlen == tv.len(),
            tv == defaults@,
            defaults.wf(),
            names_v == views_of(args@),
            spec_unknown_names(tv, names_v) == views_of(unknown@) + spec_unknown_names(
                tv.skip(t as int),
                names_v,
            ),
        decreases tlen - t,
    {
        let ghost seg = tv.skip(t as int);
        proof {
            assert(seg[0] == tv[t as int]);
            assert(seg.drop_first() =~= tv.skip(t + 1));
        }
        let d = defaults.entry_at(t);
        let present = contains_name(&args, &d.name);
        if !present {
            let ghost pre = views_of(unknown@);
            unknown.push(d.name.clone());
            proof {
                assert(spec_unknown_names(seg, names_v) =~= seq![tv[t as int].name]
                    + spec_unknown_names(seg.drop_first(), names_v));
                assert(views_of(unknown@) =~= pre.push(tv[t as int].name));
                assert(pre + (seq![tv[t as int].name] + spec_unknown_names(
                    seg.drop_first(),
                    names_v,
                )) =~= views_of(unknown@) + spec_unknown_names(seg.drop_first(), names_v));
            }
        } else {
            proof {
                assert(spec_unknown_names(seg, names_v) == spec_unknown_names(
                    seg.drop_first(),
                    names_v,
                ));
            }
        }
        t = t + 1;
    }
    proof {
        assert(tv.skip(tlen as int) =~= Seq::<DeclView>::empty());
        assert(views_of(unknown@) + Seq::<Seq<char>>::empty() =~= views_of(unknown@));
        assert(views_of(unknown@) == spec_unknown_names(tv, names_v));
    }
    let extras = sort_names(&unknown);
    let ghost extras_v = spec_extras(tv, names_v);
    proof {
        assert(views_of(extras@) == extras_v);
    }
    if extras.len() > 0 {
        let fn_sorted = sort_names(&args);
        let extras_str = format_names(&extras);
        let ep: &str = if extras.len() == 1 {
            ""
        } else {
            "s"
        };
        let fp: &str = if fn_sorted.len() == 1 {
            ""
        } else {
            "s"
        };
        let mut msg = String::from_str("Unrecognized argument");
        msg.append(ep);
        msg.append(" - attribute had argument");
        msg.append(ep);
        msg.append(" ");
        msg.append(extras_str.as_str());
        msg.append(" but function takes argument");
        msg.append(fp);
        msg.append(": [");
        let joined = join_names(&fn_sorted);
        msg.append(joined.as_str());
        msg.append("]");
        proof {
            assert(views_of(fn_sorted@) == spec_sort(names_v));
            assert(msg@ =~= spec_extras_message(extras_v, spec_sort(names_v)));
        }
        let span: usize = if extras.len() == 1 {
            proof {
                assert(views_of(extras@)[0] == extras@[0]@);
                crate::order::lemma_sort_contains(views_of(unknown@), extras_v[0]);
                assert(extras_v[0] == views_of(extras@)[0]);
                assert(views_of(extras@).contains(extras_v[0]));
                lemma_unknown_has_name(tv, names_v, extras_v[0]);
            }
            match defaults.get(&extras[0]) {
                Option::Some(dd) => dd.span,
                Option::None => {
                    proof {
                        assert(false);
                    }
                    call_site
                },
            }
        } else {
            call_site
        };
        return Err(ReconcileError::Diag(Diag { span, message: msg }));
    }
    // Build the resolved table, one row per parameter in declaration order.
    let ghost resolved = spec_resolved(names_v, tv);
    let mut slots: Vec<ParamSlot> = Vec::new();
    let mut q: usize = 0;
    while q < args.len()
        invariant
            0 <= q <= args.len(),
            tv == defaults@,
            defaults.wf(),
            names_v == views_of(args@),
            names_v.len() == args@.len(),
            resolved == spec_resolved(names_v, tv),
            slots@.len() == q,
            forall|j: int| 0 <= j < q ==> slot_views(slots@)[j] == resolved[j],
        decreases args.len() - q,
    {
        let ghost pre = slots@;
        let name = args[q].clone();
        let default = match defaults.get(&name) {
            Option::Some(dd) => Option::Some(dd.value.clone()),
            Option::None => Option::None,
        };
        slots.push(ParamSlot { name, default });
        proof {
            assert(names_v[q as int] == args@[q as int]@);
            assert(slot_views(slots@)[q as int] == slots@[q as int]@);
            assert(slots@[q as int]@ == resolved[q as int]);
            assert(forall|j: int|
                0 <= j < q ==> #[trigger] slot_views(slots@)[j] == slot_views(pre)[j]);
        }
        q = q + 1;
    }
    proof {
        assert(slot_views(slots@) =~= resolved);
    }
    Ok(ArgDetails { args, defaults: slots })
}

} // verus!
