//! The argument-resolution state machine.
//!
//! The generated matchers resolve `name = value` pairs left to right into a
//! positional call: state `k` means the first `k` parameters already have
//! concrete expressions.  A pair naming the parameter at position `k`
//! consumes it; a pair naming a later parameter is bridged by that
//! parameter's default, or is fatal when it has none; pairs left over once
//! every parameter is resolved are fatal; at the end of the pairs, every
//! still-unresolved parameter is filled from its default, and the ones
//! without a default are reported together.  `spec_resolve` is that machine;
//! `resolve_call` runs it.

use vstd::prelude::*;

verus! {

/// One row of the resolved argument table: a parameter name and its default
/// expression, if one was declared.
pub struct ParamSlot {
    pub name: String,
    pub default: Option<String>,
}

/// The mathematical shape of a table row.
pub struct SlotView {
    pub name: Seq<char>,
    pub default: Option<Seq<char>>,
}

impl View for ParamSlot {
    type V = SlotView;

    open spec fn view(&self) -> SlotView {
        SlotView {
            name: self.name@,
            default: match self.default {
                Option::Some(d) => Option::Some(d@),
                Option::None => Option::None,
            },
        }
    }
}

/// One `name = value` pair supplied at a call site.
pub struct NamedArg {
    pub name: String,
    pub value: String,
}

/// The mathematical shape of a call-site pair.
pub struct PairView {
    pub name: Seq<char>,
    pub value: Seq<char>,
}

impl View for NamedArg {
    type V = PairView;

    open spec fn view(&self) -> PairView {
        PairView { name: self.name@, value: self.value@ }
    }
}

pub open spec fn slot_views(v: Seq<ParamSlot>) -> Seq<SlotView> {
    v.map_values(|s: ParamSlot| s@)
}

pub open spec fn pair_views(v: Seq<NamedArg>) -> Seq<PairView> {
    v.map_values(|p: NamedArg| p@)
}

/// The parameter names, in declaration order.
pub open spec fn slot_names(slots: Seq<SlotView>) -> Seq<Seq<char>> {
    slots.map_values(|s: SlotView| s.name)
}

/// The names of the slots without a default, in declaration order.
pub open spec fn missing_from(slots: Seq<SlotView>) -> Seq<Seq<char>>
    decreases slots.len(),
{
    if slots.len() == 0 {
        Seq::empty()
    } else if slots[0].default is None {
        seq![slots[0].name] + missing_from(slots.drop_first())
    } else {
        missing_from(slots.drop_first())
    }
}

/// The default expressions of the slots, in declaration order; meaningful
/// when every slot has one.
pub open spec fn fill_from(slots: Seq<SlotView>) -> Seq<Seq<char>>
    decreases slots.len(),
{
    if slots.len() == 0 {
        Seq::empty()
    } else if slots[0].default is Some {
        seq![slots[0].default->0] + fill_from(slots.drop_first())
    } else {
        fill_from(slots.drop_first())
    }
}

/// What running the matcher produces: a positional expression list, a
/// missing-required-argument failure naming the offending parameters, or an
/// unrecognized-argument failure naming the extra pair.
pub enum ResolveOutcome {
    Done(Seq<Seq<char>>),
    Missing(Seq<Seq<char>>),
    Extra(Seq<char>),
}

/// The resolution state machine, from state `k`: the first `k` slots are
/// already resolved and `pairs` are the pairs not yet consumed.
pub open spec fn spec_resolve(slots: Seq<SlotView>, pairs: Seq<PairView>, k: int) -> ResolveOutcome
    recommends
        0 <= k <= slots.len(),
    decreases pairs.len(), slots.len() - k,
{
    if pairs.len() == 0 {
        let rest = slots.subrange(k, slots.len() as int);
        if missing_from(rest).len() == 0 {
            ResolveOutcome::Done(fill_from(rest))
        } else {
            ResolveOutcome::Missing(missing_from(rest))
        }
    } else if k >= slots.len() {
        ResolveOutcome::Extra(pairs[0].name)
    } else if pairs[0].name == slots[k].name {
        match spec_resolve(slots, pairs.drop_first(), k + 1) {
            ResolveOutcome::Done(vals) => ResolveOutcome::Done(seq![pairs[0].value] + vals),
            o => o,
        }
    } else if slots[k].default is Some {
        match spec_resolve(slots, pairs, k + 1) {
            ResolveOutcome::Done(vals) => ResolveOutcome::Done(
                seq![slots[k].default->0] + vals,
            ),
            o => o,
        }
    } else {
        ResolveOutcome::Missing(seq![slots[k].name])
    }
}

/// `prefix` of already-resolved expressions put in front of an outcome.
pub open spec fn prepend(prefix: Seq<Seq<char>>, o: ResolveOutcome) -> ResolveOutcome {
    match o {
        ResolveOutcome::Done(vals) => ResolveOutcome::Done(prefix + vals),
        o => o,
    }
}

/// A failed resolution.
#[derive(Debug)]
pub enum CallError {
    /// Parameters without a default were left unfilled; in declaration order.
    MissingRequired(Vec<String>),
    /// A pair was left once every parameter was resolved: the offending
    /// name, and the declared parameter names for the diagnostic.
    Unrecognized { got: String, expected: Vec<String> },
}

/// The parameter names of `slots` as strings, in order.
pub fn slot_names_vec(slots: &Vec<ParamSlot>) -> (r: Vec<String>)
    ensures
        crate::text::views_of(r@) == slot_names(slot_views(slots@)),
{
    let ghost target = slot_names(slot_views(slots@));
    let mut r: Vec<String> = Vec::new();
    let mut i: usize = 0;
    while i < slots.len()
        invariant
            0 <= i <= slots.len(),
            target == slot_names(slot_views(slots@)),
            target.len() == slots@.len(),
            r@.len() == i,
            forall|j: int| 0 <= j < i ==> r@[j]@ == target[j],
        decreases slots.len() - i,
    {
        let ghost pre = r@;
        r.push(slots[i].name.clone());
        proof {
            assert(slot_views(slots@)[i as int] == slots@[i as int]@);
            assert(target[i as int] == slots@[i as int].name@);
            assert(forall|j: int| 0 <= j < i ==> r@[j] == pre[j]);
            assert(r@[i as int]@ == target[i as int]);
        }
        i = i + 1;
    }
    proof {
        assert(crate::text::views_of(r@) =~= target);
    }
    r
}

/// Run the state machine on a full table and call-site pair list.
pub fn resolve_call(slots: &Vec<ParamSlot>, pairs: &Vec<NamedArg>) -> (r: Result<
    Vec<String>,
    CallError,
>)
    ensures
        ({
            let sv = slot_views(slots@);
            let pv = pair_views(pairs@);
            match r {
                Ok(vals) => spec_resolve(sv, pv, 0) == ResolveOutcome::Done(
                    crate::text::views_of(vals@),
                ),
                Err(CallError::MissingRequired(names)) => spec_resolve(sv, pv, 0)
                    == ResolveOutcome::Missing(crate::text::views_of(names@)),
                Err(CallError::Unrecognized { got, expected }) => spec_resolve(sv, pv, 0)
                    == ResolveOutcome::Extra(got@) && crate::text::views_of(expected@)
                    == slot_names(sv),
            }
        }),
{
    let ghost sv = slot_views(slots@);
    let ghost pv = pair_views(pairs@);
    let n = slots.len();
    let mut out: Vec<String> = Vec::new();
    let mut i: usize = 0;
    let mut k: usize = 0;
    proof {
        assert(pv.subrange(0, pv.len() as int) =~= pv);
        assert(crate::text::views_of(out@) =~= Seq::<Seq<char>>::empty());
        lemma_prepend_empty(spec_resolve(sv, pv, 0));
    }
    while i < pairs.len()
        invariant
            0 <= i <= pairs.len(),
            0 <= k <= n,
            n == slots@.len(),
            sv == slot_views(slots@),
            pv == pair_views(pairs@),
            spec_resolve(sv, pv, 0) == prepend(
                crate::text::views_of(out@),
                spec_resolve(sv, pv.subrange(i as int, pv.len() as int), k as int),
            ),
        decreases pairs.len() - i + (n - k),
    {
        let ghost rem = pv.subrange(i as int, pv.len() as int);
        proof {
            assert(rem.len() > 0);
            assert(rem[0] == pv[i as int]);
            assert(pv[i as int] == pairs@[i as int]@);
            assert(sv.len() == slots@.len());
            if k < n {
                assert(sv[k as int] == slots@[k as int]@);
            }
        }
        if k == n {
            let got = pairs[i].name.clone();
            let expected = slot_names_vec(slots);
            proof {
                assert(spec_resolve(sv, rem, k as int) == ResolveOutcome::Extra(pv[i as int].name));
            }
            return Err(CallError::Unrecognized { got, expected });
        }
        if slots[k].name == pairs[i].name {
            let ghost pre = out@;
            out.push(pairs[i].value.clone());
            proof {
                let tail = spec_resolve(sv, rem.drop_first(), k + 1);
                assert(spec_resolve(sv, rem, k as int) == prepend(seq![pv[i as int].value], tail));
                assert(rem.drop_first() =~= pv.subrange(i + 1, pv.len() as int));
                assert(out@ =~= pre.push(pairs@[i as int].value));
                assert(crate::text::views_of(out@) =~= crate::text::views_of(pre)
                    + seq![pv[i as int].value]);
                lemma_prepend_prepend(
                    crate::text::views_of(pre),
                    seq![pv[i as int].value],
                    tail,
                );
                assert(spec_resolve(sv, pv, 0) == prepend(
                    crate::text::views_of(out@),
                    spec_resolve(sv, pv.subrange(i + 1, pv.len() as int), k + 1),
                ));
            }
            i = i + 1;
            k = k + 1;
        } else {
            match &slots[k].default {
                Option::Some(d) => {
                    let ghost pre = out@;
                    let dv = d.clone();
                    out.push(dv);
                    proof {
                        let tail = spec_resolve(sv, rem, k + 1);
                        assert(spec_resolve(sv, rem, k as int) == prepend(
                            seq![sv[k as int].default->0],
                            tail,
                        ));
                        assert(out@ =~= pre.push(slots@[k as int].default->0));
                        assert(crate::text::views_of(out@) =~= crate::text::views_of(pre)
                            + seq![sv[k as int].default->0]);
                        lemma_prepend_prepend(
                            crate::text::views_of(pre),
                            seq![sv[k as int].default->0],
                            tail,
                        );
                        assert(spec_resolve(sv, pv, 0) == prepend(
                            crate::text::views_of(out@),
                            spec_resolve(sv, pv.subrange(i as int, pv.len() as int), k + 1),
                        ));
                    }
                    k = k + 1;
                },
                Option::None => {
                    let mut names: Vec<String> = Vec::new();
                    names.push(slots[k].name.clone());
                    proof {
                        assert(spec_resolve(sv, rem, k as int) == ResolveOutcome::Missing(
                            seq![sv[k as int].name],
                        ));
                        assert(crate::text::views_of(names@) =~= seq![sv[k as int].name]);
                    }
                    return Err(CallError::MissingRequired(names));
                },
            }
        }
    }
    // Every pair is consumed: fill what remains from the defaults, or
    // report every still-missing required parameter.
    let ghost rest = sv.subrange(k as int, sv.len() as int);
    proof {
        assert(pv.subrange(i as int, pv.len() as int) =~= Seq::<PairView>::empty());
        assert(sv.len() == slots@.len());
        assert(crate::text::views_of(Seq::<String>::empty()) =~= Seq::<Seq<char>>::empty());
        assert(Seq::<Seq<char>>::empty() + missing_from(rest) =~= missing_from(rest));
    }
    let mut missing: Vec<String> = Vec::new();
    let mut k2: usize = k;
    while k2 < n
        invariant
            k <= k2 <= n,
            n == slots@.len(),
            sv == slot_views(slots@),
            rest == sv.subrange(k as int, sv.len() as int),
            missing_from(rest) == crate::text::views_of(missing@) + missing_from(
                sv.subrange(k2 as int, sv.len() as int),
            ),
        decreases n - k2,
    {
        let ghost seg = sv.subrange(k2 as int, sv.len() as int);
        proof {
            assert(seg[0] == sv[k2 as int]);
            assert(sv[k2 as int] == slots@[k2 as int]@);
            assert(seg.drop_first() =~= sv.subrange(k2 + 1, sv.len() as int));
        }
        if slots[k2].default.is_none() {
            let ghost pre = missing@;
            missing.push(slots[k2].name.clone());
            proof {
                assert(missing_from(seg) =~= seq![sv[k2 as int].name] + missing_from(
                    seg.drop_first(),
                ));
                assert(missing@ =~= pre.push(slots@[k2 as int].name));
                assert(crate::text::views_of(missing@) =~= crate::text::views_of(pre)
                    + seq![sv[k2 as int].name]);
                assert(missing_from(rest) =~= crate::text::views_of(missing@) + missing_from(
                    seg.drop_first(),
                ));
            }
        } else {
            proof {
                assert(missing_from(seg) == missing_from(seg.drop_first()));
            }
        }
        k2 = k2 + 1;
    }
    proof {
        assert(sv.subrange(n as int, sv.len() as int) =~= Seq::<SlotView>::empty());
        assert(missing_from(rest) =~= crate::text::views_of(missing@));
    }
    if missing.len() > 0 {
        proof {
            assert(spec_resolve(sv, Seq::<PairView>::empty(), k as int)
                == ResolveOutcome::Missing(missing_from(rest)));
        }
        return Err(CallError::MissingRequired(missing));
    }
    let ghost out0 = crate::text::views_of(out@);
    proof {
        assert(spec_resolve(sv, pv, 0) == prepend(
            out0,
            spec_resolve(sv, Seq::<PairView>::empty(), k as int),
        ));
        assert(sv.subrange(k as int, k as int) =~= Seq::<SlotView>::empty());
        assert(out0 + fill_from(sv.subrange(k as int, k as int)) =~= out0);
        assert(fill_from(sv.subrange(k as int, k as int)) + fill_from(rest) =~= fill_from(rest));
    }
    let mut k3: usize = k;
    while k3 < n
        invariant
            k <= k3 <= n,
            n == slots@.len(),
            sv == slot_views(slots@),
            rest == sv.subrange(k as int, sv.len() as int),
            missing_from(rest).len() == 0,
            crate::text::views_of(out@) == out0 + fill_from(
                sv.subrange(k as int, k3 as int),
            ),
            fill_from(rest) == fill_from(sv.subrange(k as int, k3 as int)) + fill_from(
                sv.subrange(k3 as int, sv.len() as int),
            ),
        decreases n - k3,
    {
        let ghost seg = sv.subrange(k3 as int, sv.len() as int);
        proof {
            assert(seg[0] == sv[k3 as int]);
            assert(seg.drop_first() =~= sv.subrange(k3 + 1, sv.len() as int));
            lemma_missing_none_means_defaulted(rest, k3 - k);
            assert(rest[k3 - k] == sv[k3 as int]);
            assert(sv[k3 as int] == slots@[k3 as int]@);
        }
        let ghost pre = out@;
        match &slots[k3].default {
            Option::Some(d) => {
                out.push(d.clone());
            },
            Option::None => {
                proof {
                    assert(false);
                }
            },
        }
        proof {
            assert(out@ =~= pre.push(slots@[k3 as int].default->0));
            assert(crate::text::views_of(out@) =~= crate::text::views_of(pre).push(
                sv[k3 as int].default->0,
            ));
            assert(fill_from(seg) =~= seq![sv[k3 as int].default->0] + fill_from(
                seg.drop_first(),
            ));
            lemma_fill_from_push(sv, k as int, k3 as int);
            assert(crate::text::views_of(out@) =~= out0 + fill_from(
                sv.subrange(k as int, k3 + 1),
            ));
            assert(fill_from(rest) =~= fill_from(sv.subrange(k as int, k3 + 1)) + fill_from(
                sv.subrange(k3 + 1, sv.len() as int),
            ));
        }
        k3 = k3 + 1;
    }
    proof {
        assert(sv.subrange(n as int, sv.len() as int) =~= Seq::<SlotView>::empty());
        assert(sv.subrange(k as int, n as int) =~= rest);
        assert(fill_from(rest) + fill_from(Seq::<SlotView>::empty()) =~= fill_from(rest));
        assert(spec_resolve(sv, Seq::<PairView>::empty(), k as int) == ResolveOutcome::Done(
            fill_from(rest),
        ));
        assert(crate::text::views_of(out@) =~= out0 + fill_from(rest));
        assert(spec_resolve(sv, pv, 0) == ResolveOutcome::Done(crate::text::views_of(out@)));
    }
    Ok(out)
}

proof fn lemma_prepend_empty(o: ResolveOutcome)
    ensures
        prepend(Seq::<Seq<char>>::empty(), o) == o,
{
    match o {
        ResolveOutcome::Done(vals) => {
            assert(Seq::<Seq<char>>::empty() + vals =~= vals);
        },
        _ => {},
    }
}

proof fn lemma_prepend_prepend(a: Seq<Seq<char>>, b: Seq<Seq<char>>, o: ResolveOutcome)
    ensures
        prepend(a, prepend(b, o)) == prepend(a + b, o),
{
    match o {
        ResolveOutcome::Done(vals) => {
            assert(a + (b + vals) =~= (a + b) + vals);
        },
        _ => {},
    }
}

/// Appending a defaulted slot appends its default expression.
proof fn lemma_fill_from_snoc(s: Seq<SlotView>, x: SlotView)
    requires
        x.default is Some,
    ensures
        fill_from(s.push(x)) == fill_from(s).push(x.default->0),
    decreases s.len(),
{
    if s.len() == 0 {
        assert(s.push(x)[0] == x);
        assert(s.push(x).drop_first() =~= Seq::<SlotView>::empty());
        assert(fill_from(s.push(x)) =~= seq![x.default->0] + fill_from(
            Seq::<SlotView>::empty(),
        ));
        assert(fill_from(s.push(x)) =~= seq![x.default->0]);
        assert(fill_from(s).push(x.default->0) =~= seq![x.default->0]);
    } else {
        lemma_fill_from_snoc(s.drop_first(), x);
        assert(s.push(x).drop_first() =~= s.drop_first().push(x));
        assert(s.push(x)[0] == s[0]);
        if s[0].default is Some {
            assert(fill_from(s.push(x)) =~= fill_from(s).push(x.default->0));
        } else {
            assert(fill_from(s.push(x)) =~= fill_from(s).push(x.default->0));
        }
    }
}

/// One more slot at the end of a subrange adds its default to the fill.
proof fn lemma_fill_from_push(s: Seq<SlotView>, a: int, b: int)
    requires
        0 <= a <= b < s.len(),
        s[b].default is Some,
    ensures
        fill_from(s.subrange(a, b + 1)) == fill_from(s.subrange(a, b)).push(s[b].default->0),
{
    assert(s.subrange(a, b + 1) =~= s.subrange(a, b).push(s[b]));
    lemma_fill_from_snoc(s.subrange(a, b), s[b]);
}

/// In a segment with no missing names, every slot has a default.
proof fn lemma_missing_none_means_defaulted(slots: Seq<SlotView>, i: int)
    requires
        missing_from(slots).len() == 0,
        0 <= i < slots.len(),
    ensures
        slots[i].default is Some,
    decreases slots.len(),
{
    if i == 0 {
    } else {
        lemma_missing_none_means_defaulted(slots.drop_first(), i - 1);
    }
}

/// No two parameters share a name; a valid function signature guarantees it.
pub open spec fn distinct_slot_names(slots: Seq<SlotView>) -> bool {
    forall|i: int, j: int| 0 <= i < j < slots.len() ==> slots[i].name != slots[j].name
}

/// When every slot has a default, the missing list is empty; otherwise it
/// holds the name of every slot without one.
pub proof fn lemma_missing_from_empty_iff(slots: Seq<SlotView>)
    ensures
        (missing_from(slots).len() == 0) <==> (forall|i: int|
            0 <= i < slots.len() ==> (#[trigger] slots[i].default) is Some),
    decreases slots.len(),
{
    if slots.len() == 0 {
    } else {
        lemma_missing_from_empty_iff(slots.drop_first());
        assert(forall|i: int|
            0 <= i < slots.drop_first().len() ==> #[trigger] slots.drop_first()[i]
                == slots[i + 1]);
        if slots[0].default is Some {
            if missing_from(slots).len() == 0 {
                assert forall|i: int|
                    0 <= i < slots.len() implies (#[trigger] slots[i].default) is Some by {
                    if i > 0 {
                        assert(slots.drop_first()[i - 1].default is Some);
                    }
                }
            }
        } else {
            assert(missing_from(slots).len() > 0);
            assert(slots[0].default is None);
        }
    }
}

/// The name of every slot without a default stands in the missing list.
pub proof fn lemma_missing_from_contains(slots: Seq<SlotView>, i: int)
    requires
        0 <= i < slots.len(),
        slots[i].default is None,
    ensures
        missing_from(slots).contains(slots[i].name),
    decreases slots.len(),
{
    if i == 0 {
        assert(missing_from(slots)[0] == slots[0].name);
    } else {
        lemma_missing_from_contains(slots.drop_first(), i - 1);
        assert(slots.drop_first()[i - 1] == slots[i]);
        let m = missing_from(slots.drop_first());
        let j = choose|j: int| 0 <= j < m.len() && m[j] == slots[i].name;
        if slots[0].default is None {
            assert(missing_from(slots)[j + 1] == slots[i].name);
        } else {
            assert(missing_from(slots)[j] == slots[i].name);
        }
    }
}

/// With every slot defaulted, the fill is exactly the defaults in order.
proof fn lemma_fill_from_index(s: Seq<SlotView>)
    requires
        forall|i: int| 0 <= i < s.len() ==> (#[trigger] s[i].default) is Some,
    ensures
        fill_from(s).len() == s.len(),
        forall|i: int| 0 <= i < s.len() ==> fill_from(s)[i] == s[i].default->0,
    decreases s.len(),
{
    if s.len() == 0 {
    } else {
        assert(forall|i: int|
            0 <= i < s.drop_first().len() ==> #[trigger] s.drop_first()[i] == s[i + 1]);
        lemma_fill_from_index(s.drop_first());
        assert(fill_from(s) =~= seq![s[0].default->0] + fill_from(s.drop_first()));
    }
}

/// A nonempty missing list starts with the first parameter that lacks a
/// default.
pub proof fn lemma_missing_from_first(slots: Seq<SlotView>, i: int)
    requires
        0 <= i < slots.len(),
        slots[i].default is None,
        forall|j: int| 0 <= j < i ==> (#[trigger] slots[j].default) is Some,
    ensures
        missing_from(slots).len() > 0,
        missing_from(slots)[0] == slots[i].name,
    decreases slots.len(),
{
    if i == 0 {
    } else {
        assert(forall|j: int|
            0 <= j < slots.drop_first().len() ==> #[trigger] slots.drop_first()[j] == slots[j
                + 1]);
        lemma_missing_from_first(slots.drop_first(), i - 1);
    }
}

/// Supplying every parameter by name, in declaration order, always
/// resolves, and the resolved positional expressions are exactly the
/// supplied values: the generated call is the positional call on them.
pub proof fn lemma_full_in_order_call(slots: Seq<SlotView>, pairs: Seq<PairView>)
    requires
        pairs.len() == slots.len(),
        forall|i: int| 0 <= i < slots.len() ==> #[trigger] pairs[i].name == slots[i].name,
    ensures
        spec_resolve(slots, pairs, 0) == ResolveOutcome::Done(
            pairs.map_values(|p: PairView| p.value),
        ),
{
    lemma_full_call_from(slots, pairs, 0);
}

proof fn lemma_full_call_from(slots: Seq<SlotView>, pairs: Seq<PairView>, k: int)
    requires
        0 <= k <= slots.len(),
        pairs.len() == slots.len() - k,
        forall|i: int| 0 <= i < pairs.len() ==> #[trigger] pairs[i].name == slots[k + i].name,
    ensures
        spec_resolve(slots, pairs, k) == ResolveOutcome::Done(
            pairs.map_values(|p: PairView| p.value),
        ),
    decreases pairs.len(),
{
    if pairs.len() == 0 {
        let rest = slots.subrange(k, slots.len() as int);
        assert(rest =~= Seq::<SlotView>::empty());
        assert(pairs.map_values(|p: PairView| p.value) =~= fill_from(rest));
    } else {
        assert(pairs[0].name == slots[k].name);
        assert(forall|i: int|
            0 <= i < pairs.drop_first().len() ==> #[trigger] pairs.drop_first()[i]
                == pairs[i + 1]);
        lemma_full_call_from(slots, pairs.drop_first(), k + 1);
        assert(seq![pairs[0].value] + pairs.drop_first().map_values(|p: PairView| p.value)
            =~= pairs.map_values(|p: PairView| p.value));
    }
}

/// Invoking with zero pairs succeeds exactly when every parameter has a
/// default; the result is then the defaults in declaration order, and a
/// failure reports every parameter without a default, the first missing
/// one among them.
pub proof fn lemma_empty_invocation(slots: Seq<SlotView>)
    ensures
        (forall|i: int| 0 <= i < slots.len() ==> (#[trigger] slots[i].default) is Some)
            <==> spec_resolve(slots, Seq::<PairView>::empty(), 0) is Done,
        (forall|i: int| 0 <= i < slots.len() ==> (#[trigger] slots[i].default) is Some)
            ==> spec_resolve(slots, Seq::<PairView>::empty(), 0) == ResolveOutcome::Done(
            fill_from(slots),
        ),
        !(forall|i: int| 0 <= i < slots.len() ==> (#[trigger] slots[i].default) is Some)
            ==> spec_resolve(slots, Seq::<PairView>::empty(), 0) == ResolveOutcome::Missing(
            missing_from(slots),
        ),
        forall|i: int|
            0 <= i < slots.len() && (#[trigger] slots[i].default) is None ==> missing_from(
                slots,
            ).contains(slots[i].name),
{
    lemma_missing_from_empty_iff(slots);
    assert(slots.subrange(0, slots.len() as int) =~= slots);
    assert forall|i: int|
        0 <= i < slots.len() && (#[trigger] slots[i].default) is None implies missing_from(
        slots,
    ).contains(slots[i].name) by {
        lemma_missing_from_contains(slots, i);
    }
}

/// Supplying any name that no declared parameter bears always fails,
/// wherever it stands among the pairs.
pub proof fn lemma_unknown_name_fails(slots: Seq<SlotView>, pairs: Seq<PairView>, j: int)
    requires
        0 <= j < pairs.len(),
        forall|i: int| 0 <= i < slots.len() ==> #[trigger] slots[i].name != pairs[j].name,
    ensures
        !(spec_resolve(slots, pairs, 0) is Done),
{
    lemma_unknown_name_fails_from(slots, pairs, 0, j);
}

proof fn lemma_unknown_name_fails_from(slots: Seq<SlotView>, pairs: Seq<PairView>, k: int, j: int)
    requires
        0 <= k <= slots.len(),
        0 <= j < pairs.len(),
        forall|i: int| 0 <= i < slots.len() ==> #[trigger] slots[i].name != pairs[j].name,
    ensures
        !(spec_resolve(slots, pairs, k) is Done),
    decreases pairs.len(), slots.len() - k,
{
    if k >= slots.len() {
    } else if pairs[0].name == slots[k].name {
        assert(j != 0);
        assert(forall|i: int|
            0 <= i < pairs.drop_first().len() ==> #[trigger] pairs.drop_first()[i]
                == pairs[i + 1]);
        lemma_unknown_name_fails_from(slots, pairs.drop_first(), k + 1, j - 1);
    } else if slots[k].default is Some {
        lemma_unknown_name_fails_from(slots, pairs, k + 1, j);
    } else {
    }
}

/// `ixs` picks out, strictly in declaration order, the parameters that the
/// pairs name.
pub open spec fn is_selection(slots: Seq<SlotView>, pairs: Seq<PairView>, ixs: Seq<int>) -> bool {
    &&& ixs.len() == pairs.len()
    &&& (forall|j: int| 0 <= j < ixs.len() ==> 0 <= #[trigger] ixs[j] < slots.len())
    &&& (forall|j1: int, j2: int|
        0 <= j1 < j2 < ixs.len() ==> #[trigger] ixs[j1] < #[trigger] ixs[j2])
    &&& (forall|j: int|
        0 <= j < ixs.len() ==> #[trigger] pairs[j].name == slots[ixs[j]].name)
}

/// Parameter `i` is one of the selected positions.
pub open spec fn selected(ixs: Seq<int>, i: int) -> bool {
    exists|j: int| 0 <= j < ixs.len() && #[trigger] ixs[j] == i
}

/// The position among the pairs that selects parameter `i`.
pub open spec fn sel_index(ixs: Seq<int>, i: int) -> int {
    choose|j: int| 0 <= j < ixs.len() && #[trigger] ixs[j] == i
}

proof fn lemma_sel_index_unique(ixs: Seq<int>, i: int, j: int)
    requires
        forall|j1: int, j2: int|
            0 <= j1 < j2 < ixs.len() ==> #[trigger] ixs[j1] < #[trigger] ixs[j2],
        0 <= j < ixs.len(),
        ixs[j] == i,
    ensures
        sel_index(ixs, i) == j,
{
    assert(selected(ixs, i));
    let j2 = sel_index(ixs, i);
    if j2 < j {
        assert(ixs[j2] < ixs[j]);
    } else if j2 > j {
        assert(ixs[j] < ixs[j2]);
    }
}

/// Supplying names out of declaration order (a subset of the parameters,
/// still in their relative declaration order) succeeds when every skipped
/// parameter has a default: the named parameters take the supplied values
/// and every skipped one is filled from its default expression.
pub proof fn lemma_ordered_selection_resolves(
    slots: Seq<SlotView>,
    pairs: Seq<PairView>,
    ixs: Seq<int>,
)
    requires
        distinct_slot_names(slots),
        is_selection(slots, pairs, ixs),
        forall|i: int|
            0 <= i < slots.len() && !selected(ixs, i) ==> (#[trigger] slots[i].default) is Some,
    ensures
        spec_resolve(slots, pairs, 0) is Done,
        spec_resolve(slots, pairs, 0)->Done_0.len() == slots.len(),
        forall|i: int|
            0 <= i < slots.len() ==> spec_resolve(slots, pairs, 0)->Done_0[i] == (
            if selected(ixs, i) {
                pairs[sel_index(ixs, i)].value
            } else {
                (#[trigger] slots[i].default)->0
            }),
{
    lemma_selection_from(slots, pairs, ixs, 0);
}

proof fn lemma_selection_from(slots: Seq<SlotView>, pairs: Seq<PairView>, ixs: Seq<int>, k: int)
    requires
        0 <= k <= slots.len(),
        distinct_slot_names(slots),
        is_selection(slots, pairs, ixs),
        forall|j: int| 0 <= j < ixs.len() ==> k <= #[trigger] ixs[j],
        forall|i: int|
            k <= i < slots.len() && !selected(ixs, i) ==> (#[trigger] slots[i].default) is Some,
    ensures
        spec_resolve(slots, pairs, k) is Done,
        spec_resolve(slots, pairs, k)->Done_0.len() == slots.len() - k,
        forall|i: int|
            k <= i < slots.len() ==> spec_resolve(slots, pairs, k)->Done_0[i - k] == (
            if selected(ixs, i) {
                pairs[sel_index(ixs, i)].value
            } else {
                (#[trigger] slots[i].default)->0
            }),
    decreases slots.len() - k,
{
    let r = spec_resolve(slots, pairs, k);
    if pairs.len() == 0 {
        let rest = slots.subrange(k, slots.len() as int);
        assert forall|i: int|
            0 <= i < rest.len() implies (#[trigger] rest[i].default) is Some by {
            assert(rest[i] == slots[k + i]);
            assert(!selected(ixs, k + i));
        }
        lemma_missing_from_empty_iff(rest);
        lemma_fill_from_index(rest);
        assert forall|i: int|
            k <= i < slots.len() implies r->Done_0[i - k] == (
            if selected(ixs, i) {
                pairs[sel_index(ixs, i)].value
            } else {
                (#[trigger] slots[i].default)->0
            }) by {
            assert(!selected(ixs, i));
            assert(rest[i - k] == slots[i]);
        }
    } else if k == slots.len() {
        assert(0 <= ixs[0] < slots.len());
        assert(false);
    } else if ixs[0] == k {
        assert(pairs[0].name == slots[k].name);
        let dp = pairs.drop_first();
        let di = ixs.drop_first();
        assert(forall|j: int| 0 <= j < dp.len() ==> #[trigger] dp[j] == pairs[j + 1]);
        assert(forall|j: int| 0 <= j < di.len() ==> #[trigger] di[j] == ixs[j + 1]);
        assert forall|i: int|
            k + 1 <= i < slots.len() && !selected(di, i) implies (
        #[trigger] slots[i].default) is Some by {
            if selected(ixs, i) {
                let j = choose|j: int| 0 <= j < ixs.len() && #[trigger] ixs[j] == i;
                assert(j != 0);
                assert(di[j - 1] == i);
                assert(false);
            }
        }
        lemma_selection_from(slots, dp, di, k + 1);
        let tail = spec_resolve(slots, dp, k + 1);
        assert(r == ResolveOutcome::Done(seq![pairs[0].value] + tail->Done_0));
        assert forall|i: int|
            k <= i < slots.len() implies r->Done_0[i - k] == (
            if selected(ixs, i) {
                pairs[sel_index(ixs, i)].value
            } else {
                (#[trigger] slots[i].default)->0
            }) by {
            if i == k {
                lemma_sel_index_unique(ixs, k, 0);
                assert(r->Done_0[0] == pairs[0].value);
            } else {
                assert(r->Done_0[i - k] == tail->Done_0[i - (k + 1)]);
                if selected(ixs, i) {
                    let j = choose|j: int| 0 <= j < ixs.len() && #[trigger] ixs[j] == i;
                    assert(j != 0);
                    assert(di[j - 1] == i);
                    lemma_sel_index_unique(ixs, i, j);
                    assert(forall|j1: int, j2: int|
                        0 <= j1 < j2 < di.len() ==> #[trigger] di[j1] < #[trigger] di[j2]);
                    lemma_sel_index_unique(di, i, j - 1);
                    assert(dp[j - 1].value == pairs[j].value);
                } else {
                    if selected(di, i) {
                        let j = choose|j: int| 0 <= j < di.len() && #[trigger] di[j] == i;
                        assert(ixs[j + 1] == i);
                        assert(false);
                    }
                }
            }
        }
    } else {
        assert(ixs[0] > k);
        assert forall|j: int| 0 <= j < ixs.len() implies k + 1 <= #[trigger] ixs[j] by {
            if j > 0 {
                assert(ixs[0] < ixs[j]);
            }
        }
        assert(!selected(ixs, k));
        assert(slots[k].default is Some);
        assert(pairs[0].name == slots[ixs[0]].name);
        assert(slots[ixs[0]].name != slots[k].name);
        lemma_selection_from(slots, pairs, ixs, k + 1);
        let tail = spec_resolve(slots, pairs, k + 1);
        assert(r == ResolveOutcome::Done(seq![slots[k].default->0] + tail->Done_0));
        assert forall|i: int|
            k <= i < slots.len() implies r->Done_0[i - k] == (
            if selected(ixs, i) {
                pairs[sel_index(ixs, i)].value
            } else {
                (#[trigger] slots[i].default)->0
            }) by {
            if i == k {
                assert(r->Done_0[0] == slots[k].default->0);
            } else {
                assert(r->Done_0[i - k] == tail->Done_0[i - (k + 1)]);
            }
        }
    }
}

/// With the pairs an in-order selection of the parameters, a skipped
/// parameter without a default makes resolution fail.
pub proof fn lemma_ordered_selection_blocked(
    slots: Seq<SlotView>,
    pairs: Seq<PairView>,
    ixs: Seq<int>,
    m: int,
)
    requires
        distinct_slot_names(slots),
        is_selection(slots, pairs, ixs),
        0 <= m < slots.len(),
        !selected(ixs, m),
        slots[m].default is None,
    ensures
        !(spec_resolve(slots, pairs, 0) is Done),
{
    lemma_selection_blocked_from(slots, pairs, ixs, 0, m);
}

proof fn lemma_selection_blocked_from(
    slots: Seq<SlotView>,
    pairs: Seq<PairView>,
    ixs: Seq<int>,
    k: int,
    m: int,
)
    requires
        0 <= k <= m < slots.len(),
        distinct_slot_names(slots),
        is_selection(slots, pairs, ixs),
        forall|j: int| 0 <= j < ixs.len() ==> k <= #[trigger] ixs[j],
        !selected(ixs, m),
        slots[m].default is None,
    ensures
        !(spec_resolve(slots, pairs, k) is Done),
    decreases slots.len() - k,
{
    if pairs.len() == 0 {
        let rest = slots.subrange(k, slots.len() as int);
        assert(rest[m - k] == slots[m]);
        lemma_missing_from_contains(rest, m - k);
        assert(missing_from(rest).len() > 0);
    } else if pairs[0].name == slots[k].name {
        assert(slots[ixs[0]].name == pairs[0].name);
        if ixs[0] < k {
            assert(slots[ixs[0]].name != slots[k].name);
        } else if ixs[0] > k {
            assert(slots[k].name != slots[ixs[0]].name);
        }
        assert(ixs[0] == k);
        assert(m != k);
        let dp = pairs.drop_first();
        let di = ixs.drop_first();
        assert(forall|j: int| 0 <= j < dp.len() ==> #[trigger] dp[j] == pairs[j + 1]);
        assert(forall|j: int| 0 <= j < di.len() ==> #[trigger] di[j] == ixs[j + 1]);
        assert forall|j: int| 0 <= j < di.len() implies k + 1 <= #[trigger] di[j] by {
            assert(ixs[0] < ixs[j + 1]);
        }
        if selected(di, m) {
            let j = choose|j: int| 0 <= j < di.len() && #[trigger] di[j] == m;
            assert(ixs[j + 1] == m);
            assert(false);
        }
        lemma_selection_blocked_from(slots, dp, di, k + 1, m);
    } else if slots[k].default is Some {
        assert forall|j: int| 0 <= j < ixs.len() implies k + 1 <= #[trigger] ixs[j] by {
            if ixs[j] == k {
                assert(slots[ixs[j]].name == pairs[j].name);
                if j == 0 {
                    assert(pairs[0].name == slots[k].name);
                    assert(false);
                } else {
                    assert(ixs[0] < ixs[j]);
                    assert(ixs[0] >= k);
                    assert(false);
                }
            }
        }
        assert(m != k);
        lemma_selection_blocked_from(slots, pairs, ixs, k + 1, m);
    } else {
    }
}

} // verus!
