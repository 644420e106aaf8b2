//! Generating the matcher macros.
//!
//! From the resolved argument table the generator derives two new names from
//! the original function's name, and emits the text of two `macro_rules!`
//! matchers: the accumulator, one block of branches per resolution state,
//! and the public matcher that callers invoke.  A declaration-time failure
//! is emitted instead as a degenerate macro that surfaces the stored
//! diagnostic at every call site.

use vstd::prelude::*;
use vstd::string::StringExecFns;

use crate::matcher::ParamSlot;
use crate::matcher::SlotView;
use crate::matcher::fill_from;
use crate::matcher::missing_from;
use crate::matcher::slot_names;
use crate::matcher::slot_views;
use crate::text::format_names;
use crate::text::join_names;
use crate::text::join_with;
use crate::text::report_missing;
use crate::text::spec_format_names;
use crate::text::spec_report_missing;
use crate::text::views_of;

verus! {

/// The private name the original function is renamed to.
pub open spec fn spec_inner_fn_name(name: Seq<char>) -> Seq<char> {
    "__"@ + name
}

/// The name of the accumulator matcher.
pub open spec fn spec_accumulator_name(name: Seq<char>) -> Seq<char> {
    "__"@ + name + "_inner"@
}

/// Derive the renamed function's name.
pub fn inner_fn_name(name: &String) -> (r: String)
    ensures
        r@ == spec_inner_fn_name(name@),
{
    let mut out = String::from_str("__");
    out.append(name.as_str());
    out
}

/// Derive the accumulator matcher's name.
pub fn accumulator_name(name: &String) -> (r: String)
    ensures
        r@ == spec_accumulator_name(name@),
{
    let mut out = String::from_str("__");
    out.append(name.as_str());
    out.append("_inner");
    out
}

/// For one annotated function the three introduced names never collide:
/// the public matcher keeps the original name, and the two derived names
/// differ from it and from each other.
pub proof fn lemma_derived_names_distinct(name: Seq<char>)
    ensures
        spec_inner_fn_name(name) != name,
        spec_accumulator_name(name) != name,
        spec_inner_fn_name(name) != spec_accumulator_name(name),
{
    reveal_strlit("__");
    reveal_strlit("_inner");
    assert(spec_inner_fn_name(name).len() == name.len() + 2);
    assert(spec_accumulator_name(name).len() == name.len() + 8);
}

/// Distinct original names derive distinct renamed-function names, and
/// distinct accumulator names.
pub proof fn lemma_derived_names_injective(a: Seq<char>, b: Seq<char>)
    requires
        a != b,
    ensures
        spec_inner_fn_name(a) != spec_inner_fn_name(b),
        spec_accumulator_name(a) != spec_accumulator_name(b),
{
    reveal_strlit("__");
    reveal_strlit("_inner");
    if spec_inner_fn_name(a) == spec_inner_fn_name(b) {
        assert(a =~= spec_inner_fn_name(a).subrange(2, spec_inner_fn_name(a).len() as int));
        assert(b =~= spec_inner_fn_name(b).subrange(2, spec_inner_fn_name(b).len() as int));
    }
    if spec_accumulator_name(a) == spec_accumulator_name(b) {
        assert(a =~= spec_accumulator_name(a).subrange(
            2,
            spec_accumulator_name(a).len() - 6,
        ));
        assert(b =~= spec_accumulator_name(b).subrange(
            2,
            spec_accumulator_name(b).len() - 6,
        ));
    }
}

/// `$name:expr` match fragments for a list of names.
pub open spec fn spec_pats(names: Seq<Seq<char>>) -> Seq<Seq<char>> {
    names.map_values(|n: Seq<char>| "$"@ + n + ":expr"@)
}

/// `$name` expression fragments for a list of names.
pub open spec fn spec_dollars(names: Seq<Seq<char>>) -> Seq<Seq<char>> {
    names.map_values(|n: Seq<char>| "$"@ + n)
}

/// `$name:expr` fragments for the first `k` parameters.
fn pats_prefix(slots: &Vec<ParamSlot>, k: usize) -> (r: Vec<String>)
    requires
        k <= slots@.len(),
    ensures
        views_of(r@) == spec_pats(slot_names(slot_views(slots@)).subrange(0, k as int)),
{
    let ghost target = spec_pats(slot_names(slot_views(slots@)).subrange(0, k as int));
    let mut r: Vec<String> = Vec::new();
    let mut i: usize = 0;
    while i < k
        invariant
            0 <= i <= k <= slots@.len(),
            target == spec_pats(slot_names(slot_views(slots@)).subrange(0, k as int)),
            target.len() == k,
            r@.len() == i,
            forall|j: int| 0 <= j < i ==> r@[j]@ == target[j],
        decreases k - i,
    {
        let mut piece = String::from_str("$");
        piece.append(slots[i].name.as_str());
        piece.append(":expr");
        r.push(piece);
        proof {
            assert(slot_names(slot_views(slots@))[i as int] == slots@[i as int].name@);
            assert(r@[i as int]@ == target[i as int]);
            assert(forall|j: int| 0 <= j < i ==> r@[j] == r@.drop_last()[j]);
        }
        i = i + 1;
    }
    proof {
        assert(views_of(r@) =~= target);
    }
    r
}

/// `$name` fragments for the first `k` parameters.
fn dollars_prefix(slots: &Vec<ParamSlot>, k: usize) -> (r: Vec<String>)
    requires
        k <= slots@.len(),
    ensures
        views_of(r@) == spec_dollars(slot_names(slot_views(slots@)).subrange(0, k as int)),
{
    let ghost target = spec_dollars(slot_names(slot_views(slots@)).subrange(0, k as int));
    let mut r: Vec<String> = Vec::new();
    let mut i: usize = 0;
    while i < k
        invariant
            0 <= i <= k <= slots@.len(),
            target == spec_dollars(slot_names(slot_views(slots@)).subrange(0, k as int)),
            target.len() == k,
            r@.len() == i,
            forall|j: int| 0 <= j < i ==> r@[j]@ == target[j],
        decreases k - i,
    {
        let mut piece = String::from_str("$");
        piece.append(slots[i].name.as_str());
        r.push(piece);
        proof {
            assert(slot_names(slot_views(slots@))[i as int] == slots@[i as int].name@);
            assert(r@[i as int]@ == target[i as int]);
            assert(forall|j: int| 0 <= j < i ==> r@[j] == r@.drop_last()[j]);
        }
        i = i + 1;
    }
    proof {
        assert(views_of(r@) =~= target);
    }
    r
}

/// The default expressions of the slots from position `k` on.
fn defaults_suffix(slots: &Vec<ParamSlot>, k: usize) -> (r: Vec<String>)
    requires
        k <= slots@.len(),
    ensures
        views_of(r@) == fill_from(slot_views(slots@).subrange(k as int, slots@.len() as int)),
{
    let ghost sv = slot_views(slots@);
    let ghost rest = sv.subrange(k as int, sv.len() as int);
    let mut r: Vec<String> = Vec::new();
    let mut i: usize = k;
    proof {
        assert(sv.len() == slots@.len());
        assert(views_of(r@) =~= Seq::<Seq<char>>::empty());
        assert(Seq::<Seq<char>>::empty() + fill_from(rest) =~= fill_from(rest));
    }
    while i < slots.len()
        invariant
            k <= i <= slots@.len(),
            sv == slot_views(slots@),
            sv.len() == slots@.len(),
            rest == sv.subrange(k as int, sv.len() as int),
            fill_from(rest) == views_of(r@) + fill_from(sv.subrange(i as int, sv.len() as int)),
        decreases slots@.len() - i,
    {
        let ghost seg = sv.subrange(i as int, sv.len() as int);
        proof {
            assert(seg[0] == sv[i as int]);
            assert(sv[i as int] == slots@[i as int]@);
            assert(seg.drop_first() =~= sv.subrange(i + 1, sv.len() as int));
        }
        match &slots[i].default {
            Option::Some(d) => {
                let ghost pre = views_of(r@);
                r.push(d.clone());
                proof {
                    assert(fill_from(seg) =~= seq![sv[i as int].default->0] + fill_from(
                        seg.drop_first(),
                    ));
                    assert(views_of(r@) =~= pre.push(sv[i as int].default->0));
                    assert(pre + (seq![sv[i as int].default->0] + fill_from(seg.drop_first()))
                        =~= views_of(r@) + fill_from(seg.drop_first()));
                }
            },
            Option::None => {
                proof {
                    assert(fill_from(seg) == fill_from(seg.drop_first()));
                }
            },
        }
        i = i + 1;
    }
    proof {
        assert(sv.subrange(slots@.len() as int, sv.len() as int) =~= Seq::<SlotView>::empty());
        assert(views_of(r@) + Seq::<Seq<char>>::empty() =~= views_of(r@));
        assert(views_of(r@) =~= fill_from(rest));
    }
    r
}

/// The names of the slots without a default, from position `k` on.
fn missing_suffix(slots: &Vec<ParamSlot>, k: usize) -> (r: Vec<String>)
    requires
        k <= slots@.len(),
    ensures
        views_of(r@) == missing_from(
            slot_views(slots@).subrange(k as int, slots@.len() as int),
        ),
{
    let ghost sv = slot_views(slots@);
    let ghost rest = sv.subrange(k as int, sv.len() as int);
    let mut r: Vec<String> = Vec::new();
    let mut i: usize = k;
    proof {
        assert(sv.len() == slots@.len());
        assert(views_of(r@) =~= Seq::<Seq<char>>::empty());
        assert(Seq::<Seq<char>>::empty() + missing_from(rest) =~= missing_from(rest));
    }
    while i < slots.len()
        invariant
            k <= i <= slots@.len(),
            sv == slot_views(slots@),
            sv.len() == slots@.len(),
            rest == sv.subrange(k as int, sv.len() as int),
            missing_from(rest) == views_of(r@) + missing_from(
                sv.subrange(i as int, sv.len() as int),
            ),
        decreases slots@.len() - i,
    {
        let ghost seg = sv.subrange(i as int, sv.len() as int);
        proof {
            assert(seg[0] == sv[i as int]);
            assert(sv[i as int] == slots@[i as int]@);
            assert(seg.drop_first() =~= sv.subrange(i + 1, sv.len() as int));
        }
        if slots[i].default.is_none() {
            let ghost pre = views_of(r@);
            r.push(slots[i].name.clone());
            proof {
                assert(missing_from(seg) =~= seq![sv[i as int].name] + missing_from(
                    seg.drop_first(),
                ));
                assert(views_of(r@) =~= pre.push(sv[i as int].name));
                assert(pre + (seq![sv[i as int].name] + missing_from(seg.drop_first()))
                    =~= views_of(r@) + missing_from(seg.drop_first()));
            }
        } else {
            proof {
                assert(missing_from(seg) == missing_from(seg.drop_first()));
            }
        }
        i = i + 1;
    }
    proof {
        assert(sv.subrange(slots@.len() as int, sv.len() as int) =~= Seq::<SlotView>::empty());
        assert(views_of(r@) + Seq::<Seq<char>>::empty() =~= views_of(r@));
        assert(views_of(r@) =~= missing_from(rest));
    }
    r
}

/// A `compile_error!` call carrying a diagnostic text.
pub open spec fn spec_compile_error(message: Seq<char>) -> Seq<char> {
    "compile_error!(\""@ + message + "\")"@
}

fn compile_error_text(message: &String) -> (r: String)
    ensures
        r@ == spec_compile_error(message@),
{
    let mut out = String::from_str("compile_error!(\"");
    out.append(message.as_str());
    out.append("\")");
    out
}

/// One `macro_rules!` branch: a parenthesized pattern list and a body.
pub open spec fn spec_branch(lhs: Seq<Seq<char>>, rhs: Seq<char>) -> Seq<char> {
    "("@ + join_with(lhs, ", "@) + ") => { "@ + rhs + " }; "@
}

fn branch_text(lhs: &Vec<String>, rhs: &String) -> (r: String)
    ensures
        r@ == spec_branch(views_of(lhs@), rhs@),
{
    let mut out = String::from_str("(");
    let joined = join_names(lhs);
    out.append(joined.as_str());
    out.append(") => { ");
    out.append(rhs.as_str());
    out.append(" }; ");
    out
}

/// The terminal branch of state `k`: with no further pairs, fill every
/// remaining parameter from its default, or report every one that has
/// none.
pub open spec fn spec_terminal_branch(name: Seq<char>, slots: Seq<SlotView>, k: int) -> Seq<char> {
    let rest = slots.subrange(k, slots.len() as int);
    let rhs = if missing_from(rest).len() > 0 {
        spec_compile_error(spec_report_missing(missing_from(rest)))
    } else {
        spec_inner_fn_name(name) + "("@ + join_with(
            spec_dollars(slot_names(slots).subrange(0, k)) + fill_from(rest),
            ", "@,
        ) + ")"@
    };
    spec_branch(spec_pats(slot_names(slots).subrange(0, k)), rhs)
}

/// The two transition branches of state `k` that consume the pair naming
/// parameter `k` (alone, and followed by further pairs).
pub open spec fn spec_forward_branches(name: Seq<char>, slots: Seq<SlotView>, k: int) -> Seq<char>
    recommends
        0 <= k < slots.len(),
{
    let nk = slots[k].name;
    let pat = "$"@ + nk + ":expr"@;
    let lhs1 = spec_pats(slot_names(slots).subrange(0, k)).push(nk + " = "@ + pat);
    let args1 = spec_dollars(slot_names(slots).subrange(0, k)).push("$"@ + nk);
    let b1 = spec_branch(
        lhs1,
        spec_accumulator_name(name) + "!("@ + join_with(args1, ", "@) + ")"@,
    );
    let lhs2 = lhs1.push("$($keys:ident = $values:expr),+"@);
    let args2 = args1.push("$($keys = $values),+"@);
    let b2 = spec_branch(
        lhs2,
        spec_accumulator_name(name) + "!("@ + join_with(args2, ", "@) + ")"@,
    );
    b1 + b2
}

/// The two bridging branches of state `k`: a pair naming a later parameter
/// is re-presented after parameter `k`'s default, or is fatal when that
/// parameter has none.
pub open spec fn spec_bridge_branches(name: Seq<char>, slots: Seq<SlotView>, k: int) -> Seq<char>
    recommends
        0 <= k < slots.len(),
{
    let rhs1 = if slots[k].default is Some {
        spec_accumulator_name(name) + "!("@ + join_with(
            spec_dollars(slot_names(slots).subrange(0, k)).push(slots[k].default->0).push(
                "$key = $value"@,
            ),
            ", "@,
        ) + ")"@
    } else {
        spec_compile_error(spec_report_missing(seq![slots[k].name]))
    };
    let b1 = spec_branch(
        spec_pats(slot_names(slots).subrange(0, k)).push("$key:ident = $value:expr"@),
        rhs1,
    );
    let rhs2 = if slots[k].default is Some {
        spec_accumulator_name(name) + "!("@ + join_with(
            spec_dollars(slot_names(slots).subrange(0, k)).push(slots[k].default->0).push(
                "$($keys = $values),+"@,
            ),
            ", "@,
        ) + ")"@
    } else {
        spec_compile_error(spec_report_missing(seq![slots[k].name]))
    };
    let b2 = spec_branch(
        spec_pats(slot_names(slots).subrange(0, k)).push("$($keys:ident = $values:expr),+"@),
        rhs2,
    );
    b1 + b2
}

/// All the branches of state `k`.
pub open spec fn spec_state_block(name: Seq<char>, slots: Seq<SlotView>, k: int) -> Seq<char> {
    if k < slots.len() {
        spec_terminal_branch(name, slots, k) + spec_forward_branches(name, slots, k)
            + spec_bridge_branches(name, slots, k)
    } else {
        spec_terminal_branch(name, slots, k)
    }
}

/// The state blocks from state `k` up to the fully-resolved state.
pub open spec fn spec_blocks_from(name: Seq<char>, slots: Seq<SlotView>, k: int) -> Seq<char>
    decreases slots.len() - k + 1,
{
    if k > slots.len() || k < 0 {
        Seq::empty()
    } else {
        spec_state_block(name, slots, k) + spec_blocks_from(name, slots, k + 1)
    }
}

/// The two trailing branches: pairs left over once every parameter is
/// resolved name the offending argument and list the expected ones.
pub open spec fn spec_unrecognized_branches(name: Seq<char>, slots: Seq<SlotView>) -> Seq<char> {
    let names = slot_names(slots);
    let rhs = "compile_error!(concat!(\"Unrecognized named argument - got value for argument `\", stringify!($ident), \"` but only expected \", \""@
        + spec_format_names(names) + "\"))"@;
    let b1 = spec_branch(spec_pats(names).push("$ident:ident = $expr:expr"@), rhs);
    let b2 = spec_branch(
        spec_pats(names).push("$ident:ident = $expr:expr"@).push(
            "$($idents:ident = $exprs:expr),+"@,
        ),
        rhs,
    );
    b1 + b2
}

/// The accumulator matcher in full.
pub open spec fn spec_accumulator_macro(name: Seq<char>, slots: Seq<SlotView>) -> Seq<char> {
    "macro_rules! "@ + spec_accumulator_name(name) + " { "@ + spec_blocks_from(name, slots, 0)
        + spec_unrecognized_branches(name, slots) + "}"@
}

/// One state's branches as text.
#[verifier::rlimit(50)]
fn state_block(name: &String, slots: &Vec<ParamSlot>, k: usize) -> (r: String)
    requires
        k <= slots@.len(),
    ensures
        r@ == spec_state_block(name@, slot_views(slots@), k as int),
{
    let ghost sv = slot_views(slots@);
    let pats = pats_prefix(slots, k);
    let missing = missing_suffix(slots, k);
    let mut out: String;
    // Terminal branch.
    {
        let rhs = if missing.len() > 0 {
            let msg = report_missing(&missing);
            compile_error_text(&msg)
        } else {
            let mut args = dollars_prefix(slots, k);
            let mut defs = defaults_suffix(slots, k);
            let ghost a = views_of(args@);
            let ghost b = views_of(defs@);
            args.append(&mut defs);
            proof {
                assert(views_of(args@) =~= a + b);
            }
            let mut call = inner_fn_name(name);
            call.append("(");
            let joined = join_names(&args);
            call.append(joined.as_str());
            call.append(")");
            call
        };
        out = branch_text(&pats, &rhs);
        proof {
            assert(out@ =~= spec_terminal_branch(name@, sv, k as int));
        }
    }
    if k < slots.len() {
        proof {
            assert(sv[k as int] == slots@[k as int]@);
        }
        // The two forward branches.
        {
            let nk = &slots[k].name;
            let mut pat = String::from_str("$");
            pat.append(nk.as_str());
            pat.append(":expr");
            let mut piece = nk.clone();
            piece.append(" = ");
            piece.append(pat.as_str());
            let mut lhs1 = pats_prefix(slots, k);
            let ghost l0 = views_of(lhs1@);
            lhs1.push(piece);
            proof {
                assert(views_of(lhs1@) =~= l0.push(sv[k as int].name + " = "@ + ("$"@
                    + sv[k as int].name + ":expr"@)));
            }
            let mut args1 = dollars_prefix(slots, k);
            let ghost a0 = views_of(args1@);
            let mut dollar_nk = String::from_str("$");
            dollar_nk.append(nk.as_str());
            args1.push(dollar_nk);
            proof {
                assert(views_of(args1@) =~= a0.push("$"@ + sv[k as int].name));
            }
            let mut rhs1 = accumulator_name(name);
            rhs1.append("!(");
            let joined1 = join_names(&args1);
            rhs1.append(joined1.as_str());
            rhs1.append(")");
            let b1 = branch_text(&lhs1, &rhs1);
            let ghost l1 = views_of(lhs1@);
            let ghost a1 = views_of(args1@);
            let mut lhs2 = lhs1;
            lhs2.push(String::from_str("$($keys:ident = $values:expr),+"));
            proof {
                assert(views_of(lhs2@) =~= l1.push("$($keys:ident = $values:expr),+"@));
            }
            let mut args2 = args1;
            args2.push(String::from_str("$($keys = $values),+"));
            proof {
                assert(views_of(args2@) =~= a1.push("$($keys = $values),+"@));
            }
            let mut rhs2 = accumulator_name(name);
            rhs2.append("!(");
            let joined2 = join_names(&args2);
            rhs2.append(joined2.as_str());
            rhs2.append(")");
            let b2 = branch_text(&lhs2, &rhs2);
            out.append(b1.as_str());
            out.append(b2.as_str());
            proof {
                assert(out@ =~= spec_terminal_branch(name@, sv, k as int)
                    + spec_forward_branches(name@, sv, k as int));
            }
        }
        // The two bridging branches.
        {
            let rhs: String = match &slots[k].default {
                Option::Some(d) => {
                    let mut args = dollars_prefix(slots, k);
                    let ghost a0 = views_of(args@);
                    args.push(d.clone());
                    proof {
                        assert(views_of(args@) =~= a0.push(sv[k as int].default->0));
                    }
                    let ghost a1 = views_of(args@);
                    let mut args1 = args;
                    args1.push(String::from_str("$key = $value"));
                    proof {
                        assert(views_of(args1@) =~= a1.push("$key = $value"@));
                    }
                    let mut r1 = accumulator_name(name);
                    r1.append("!(");
                    let joined = join_names(&args1);
                    r1.append(joined.as_str());
                    r1.append(")");
                    r1
                },
                Option::None => {
                    let mut one: Vec<String> = Vec::new();
                    one.push(slots[k].name.clone());
                    proof {
                        assert(views_of(one@) =~= seq![sv[k as int].name]);
                    }
                    let msg = report_missing(&one);
                    compile_error_text(&msg)
                },
            };
            let mut lhs1 = pats_prefix(slots, k);
            let ghost l0 = views_of(lhs1@);
            lhs1.push(String::from_str("$key:ident = $value:expr"));
            proof {
                assert(views_of(lhs1@) =~= l0.push("$key:ident = $value:expr"@));
            }
            let b1 = branch_text(&lhs1, &rhs);
            let rhs2: String = match &slots[k].default {
                Option::Some(d) => {
                    let mut args = dollars_prefix(slots, k);
                    let ghost a0 = views_of(args@);
                    args.push(d.clone());
                    proof {
                        assert(views_of(args@) =~= a0.push(sv[k as int].default->0));
                    }
                    let ghost a1 = views_of(args@);
                    let mut argsm = args;
                    argsm.push(String::from_str("$($keys = $values),+"));
                    proof {
                        assert(views_of(argsm@) =~= a1.push("$($keys = $values),+"@));
                    }
                    let mut r2 = accumulator_name(name);
                    r2.append("!(");
                    let joined = join_names(&argsm);
                    r2.append(joined.as_str());
                    r2.append(")");
                    r2
                },
                Option::None => {
                    let mut one: Vec<String> = Vec::new();
                    one.push(slots[k].name.clone());
                    proof {
                        assert(views_of(one@) =~= seq![sv[k as int].name]);
                    }
                    let msg = report_missing(&one);
                    compile_error_text(&msg)
                },
            };
            let mut lhs2 = pats_prefix(slots, k);
            let ghost l2 = views_of(lhs2@);
            lhs2.push(String::from_str("$($keys:ident = $values:expr),+"));
            proof {
                assert(views_of(lhs2@) =~= l2.push("$($keys:ident = $values:expr),+"@));
            }
            let b2 = branch_text(&lhs2, &rhs2);
            out.append(b1.as_str());
            out.append(b2.as_str());
            proof {
                assert(out@ =~= spec_state_block(name@, sv, k as int));
            }
        }
    }
    out
}

/// Emit the accumulator matcher for a resolved table.
#[verifier::rlimit(50)]
pub fn generate_accumulator(name: &String, slots: &Vec<ParamSlot>) -> (r: String)
    ensures
        r@ == spec_accumulator_macro(name@, slot_views(slots@)),
{
    let ghost sv = slot_views(slots@);
    let mut out = String::from_str("macro_rules! ");
    let acc = accumulator_name(name);
    out.append(acc.as_str());
    out.append(" { ");
    let ghost header = out@;
    let mut k: usize = 0;
    while k < slots.len()
        invariant
            0 <= k <= slots@.len(),
            sv == slot_views(slots@),
            sv.len() == slots@.len(),
            header == "macro_rules! "@ + spec_accumulator_name(name@) + " { "@,
            out@ + spec_blocks_from(name@, sv, k as int) == header + spec_blocks_from(
                name@,
                sv,
                0,
            ),
        decreases slots@.len() - k,
    {
        let block = state_block(name, slots, k);
        out.append(block.as_str());
        proof {
            assert(spec_blocks_from(name@, sv, k as int) == spec_state_block(name@, sv, k as int)
                + spec_blocks_from(name@, sv, k + 1));
            assert(out@ + spec_blocks_from(name@, sv, k + 1) =~= header + spec_blocks_from(
                name@,
                sv,
                0,
            ));
        }
        k = k + 1;
    }
    let last_block = state_block(name, slots, k);
    out.append(last_block.as_str());
    proof {
        assert(spec_blocks_from(name@, sv, sv.len() as int) == spec_state_block(
            name@,
            sv,
            sv.len() as int,
        ) + spec_blocks_from(name@, sv, sv.len() as int + 1));
        assert(spec_blocks_from(name@, sv, sv.len() as int + 1) =~= Seq::<char>::empty());
        assert(spec_state_block(name@, sv, sv.len() as int) + Seq::<char>::empty()
            =~= spec_state_block(name@, sv, sv.len() as int));
        assert(out@ =~= header + spec_blocks_from(name@, sv, 0));
    }
    // The two unrecognized-argument branches, then the closing brace.
    let names = crate::matcher::slot_names_vec(slots);
    let mut rhs = String::from_str(
        "compile_error!(concat!(\"Unrecognized named argument - got value for argument `\", stringify!($ident), \"` but only expected \", \"",
    );
    let expected = format_names(&names);
    rhs.append(expected.as_str());
    rhs.append("\"))");
    let mut lhs1 = pats_prefix(slots, slots.len());
    let ghost l0 = views_of(lhs1@);
    proof {
        assert(slot_names(sv).subrange(0, sv.len() as int) =~= slot_names(sv));
    }
    lhs1.push(String::from_str("$ident:ident = $expr:expr"));
    proof {
        assert(views_of(lhs1@) =~= spec_pats(slot_names(sv)).push("$ident:ident = $expr:expr"@));
    }
    let b1 = branch_text(&lhs1, &rhs);
    let mut lhs2 = lhs1;
    let ghost l1 = views_of(lhs2@);
    lhs2.push(String::from_str("$($idents:ident = $exprs:expr),+"));
    proof {
        assert(views_of(lhs2@) =~= l1.push("$($idents:ident = $exprs:expr),+"@));
    }
    let b2 = branch_text(&lhs2, &rhs);
    out.append(b1.as_str());
    out.append(b2.as_str());
    out.append("}");
    proof {
        assert(out@ =~= spec_accumulator_macro(name@, sv));
    }
    out
}

/// The public matcher: the caller-facing macro under the original name.
pub open spec fn spec_public_macro(name: Seq<char>, slots: Seq<SlotView>) -> Seq<char> {
    let branches = if slots.len() == 0 {
        spec_branch(Seq::<Seq<char>>::empty(), spec_inner_fn_name(name) + "()"@)
    } else {
        let n0 = slots[0].name;
        let pat = n0 + " = $"@ + n0 + ":expr"@;
        let b1 = spec_branch(
            seq![pat],
            spec_accumulator_name(name) + "!($"@ + n0 + ")"@,
        );
        let b2 = spec_branch(
            seq![pat, "$($keys:ident = $values:expr),+"@],
            spec_accumulator_name(name) + "!($"@ + n0 + ", $($keys = $values),+)"@,
        );
        let rhs3 = if slots[0].default is Some {
            spec_accumulator_name(name) + "!("@ + slots[0].default->0
                + ", $other = $other_value, $($keys = $values),+)"@
        } else {
            spec_compile_error(spec_report_missing(seq![n0]))
        };
        let b3 = spec_branch(
            seq![
                "$other:ident = $other_value:expr"@,
                "$($keys:ident = $values:expr),+"@,
            ],
            rhs3,
        );
        let rhs4 = if slots[0].default is Some {
            spec_accumulator_name(name) + "!("@ + slots[0].default->0
                + ", $other = $other_value)"@
        } else {
            spec_compile_error(spec_report_missing(seq![n0]))
        };
        let b4 = spec_branch(seq!["$other:ident = $other_value:expr"@], rhs4);
        let b5 = spec_branch(
            Seq::<Seq<char>>::empty(),
            spec_accumulator_name(name) + "!()"@,
        );
        b1 + b2 + b3 + b4 + b5
    };
    "macro_rules! "@ + name + " { "@ + branches + "}"@
}

/// Emit the public matcher for a resolved table.
#[verifier::rlimit(50)]
pub fn generate_public(name: &String, slots: &Vec<ParamSlot>) -> (r: String)
    ensures
        r@ == spec_public_macro(name@, slot_views(slots@)),
{
    let ghost sv = slot_views(slots@);
    let mut out = String::from_str("macro_rules! ");
    out.append(name.as_str());
    out.append(" { ");
    if slots.len() == 0 {
        let mut rhs = inner_fn_name(name);
        rhs.append("()");
        let empty_lhs: Vec<String> = Vec::new();
        let b = branch_text(&empty_lhs, &rhs);
        out.append(b.as_str());
        out.append("}");
        proof {
            assert(views_of(Seq::<String>::empty()) =~= Seq::<Seq<char>>::empty());
            assert(out@ =~= spec_public_macro(name@, sv));
        }
        return out;
    }
    proof {
        assert(sv[0] == slots@[0]@);
    }
    let n0 = &slots[0].name;
    let mut pat = n0.clone();
    pat.append(" = $");
    pat.append(n0.as_str());
    pat.append(":expr");
    let mut lhs1: Vec<String> = Vec::new();
    lhs1.push(pat.clone());
    proof {
        assert(views_of(lhs1@) =~= seq![sv[0].name + " = $"@ + sv[0].name + ":expr"@]);
    }
    let mut rhs1 = accumulator_name(name);
    rhs1.append("!($");
    rhs1.append(n0.as_str());
    rhs1.append(")");
    let b1 = branch_text(&lhs1, &rhs1);
    let mut lhs2: Vec<String> = Vec::new();
    lhs2.push(pat);
    lhs2.push(String::from_str("$($keys:ident = $values:expr),+"));
    proof {
        assert(views_of(lhs2@) =~= seq![
            sv[0].name + " = $"@ + sv[0].name + ":expr"@,
            "$($keys:ident = $values:expr),+"@,
        ]);
    }
    let mut rhs2 = accumulator_name(name);
    rhs2.append("!($");
    rhs2.append(n0.as_str());
    rhs2.append(", $($keys = $values),+)");
    let b2 = branch_text(&lhs2, &rhs2);
    let rhs3: String = match &slots[0].default {
        Option::Some(d) => {
            let mut r = accumulator_name(name);
            r.append("!(");
            r.append(d.as_str());
            r.append(", $other = $other_value, $($keys = $values),+)");
            r
        },
        Option::None => {
            let mut one: Vec<String> = Vec::new();
            one.push(n0.clone());
            proof {
                assert(views_of(one@) =~= seq![sv[0].name]);
            }
            let msg = report_missing(&one);
            compile_error_text(&msg)
        },
    };
    let mut lhs3: Vec<String> = Vec::new();
    lhs3.push(String::from_str("$other:ident = $other_value:expr"));
    lhs3.push(String::from_str("$($keys:ident = $values:expr),+"));
    proof {
        assert(views_of(lhs3@) =~= seq![
            "$other:ident = $other_value:expr"@,
            "$($keys:ident = $values:expr),+"@,
        ]);
    }
    let b3 = branch_text(&lhs3, &rhs3);
    let rhs4: String = match &slots[0].default {
        Option::Some(d) => {
            let mut r = accumulator_name(name);
            r.append("!(");
            r.append(d.as_str());
            r.append(", $other = $other_value)");
            r
        },
        Option::None => {
            let mut one: Vec<String> = Vec::new();
            one.push(n0.clone());
            proof {
                assert(views_of(one@) =~= seq![sv[0].name]);
            }
            let msg = report_missing(&one);
            compile_error_text(&msg)
        },
    };
    let mut lhs4: Vec<String> = Vec::new();
    lhs4.push(String::from_str("$other:ident = $other_value:expr"));
    proof {
        assert(views_of(lhs4@) =~= seq!["$other:ident = $other_value:expr"@]);
    }
    let b4 = branch_text(&lhs4, &rhs4);
    let mut rhs5 = accumulator_name(name);
    rhs5.append("!()");
    let empty_lhs: Vec<String> = Vec::new();
    let b5 = branch_text(&empty_lhs, &rhs5);
    out.append(b1.as_str());
    out.append(b2.as_str());
    out.append(b3.as_str());
    out.append(b4.as_str());
    out.append(b5.as_str());
    out.append("}");
    proof {
        assert(views_of(Seq::<String>::empty()) =~= Seq::<Seq<char>>::empty());
        assert(out@ =~= spec_public_macro(name@, sv));
    }
    out
}

/// The degenerate macro emitted for a declaration-time failure: it accepts
/// any `name = value` pairs and its only effect is to surface the stored
/// diagnostic at the call site.
pub open spec fn spec_error_shim(name: Seq<char>, message: Seq<char>) -> Seq<char> {
    "macro_rules! "@ + name + " { ($($idents:ident = $exprs:expr),*) => { "@
        + spec_compile_error(message) + " } }"@
}

/// Emit the degenerate macro for a stored diagnostic.
pub fn generate_error_shim(name: &String, message: &String) -> (r: String)
    ensures
        r@ == spec_error_shim(name@, message@),
{
    let mut out = String::from_str("macro_rules! ");
    out.append(name.as_str());
    out.append(" { ($($idents:ident = $exprs:expr),*) => { ");
    let ce = compile_error_text(message);
    out.append(ce.as_str());
    out.append(" } }");
    out
}

} // verus!
