//! Lexicographic ordering of names, and the canonical sorted form used to
//! make the extras diagnostic deterministic.

use vstd::prelude::*;
use vstd::string::StrSliceExecFns;

verus! {

/// Strict lexicographic order on character sequences, by code point.
pub open spec fn lex_lt(a: Seq<char>, b: Seq<char>) -> bool
    decreases a.len(),
{
    if b.len() == 0 {
        false
    } else if a.len() == 0 {
        true
    } else if a[0] != b[0] {
        (a[0] as int) < (b[0] as int)
    } else {
        lex_lt(a.drop_first(), b.drop_first())
    }
}

pub open spec fn lex_leq(a: Seq<char>, b: Seq<char>) -> bool {
    lex_lt(a, b) || a == b
}

/// Decide `lex_lt` on strings.
pub fn str_lt(a: &String, b: &String) -> (r: bool)
    ensures
        r == lex_lt(a@, b@),
{
    let alen = a.as_str().unicode_len();
    let blen = b.as_str().unicode_len();
    let mut i: usize = 0;
    proof {
        assert(a@.skip(0) =~= a@);
        assert(b@.skip(0) =~= b@);
    }
    loop
        invariant
            0 <= i <= alen,
            i <= blen,
            alen == a@.len(),
            blen == b@.len(),
            lex_lt(a@, b@) == lex_lt(a@.skip(i as int), b@.skip(i as int)),
        decreases alen - i,
    {
        let ghost sa = a@.skip(i as int);
        let ghost sb = b@.skip(i as int);
        if i == blen {
            proof {
                assert(sb.len() == 0);
            }
            return false;
        }
        if i == alen {
            proof {
                assert(sa.len() == 0 && sb.len() > 0);
            }
            return true;
        }
        let ca = a.as_str().get_char(i);
        let cb = b.as_str().get_char(i);
        proof {
            assert(sa[0] == a@[i as int] && sb[0] == b@[i as int]);
        }
        if ca != cb {
            let below = (ca as u32) < (cb as u32);
            proof {
                assert(below == ((ca as int) < (cb as int)));
            }
            return below;
        }
        proof {
            assert(sa.drop_first() =~= a@.skip(i + 1));
            assert(sb.drop_first() =~= b@.skip(i + 1));
        }
        i = i + 1;
    }
}

/// Insert into an already-sorted sequence, keeping it sorted.
pub open spec fn spec_sorted_insert(s: Seq<Seq<char>>, x: Seq<char>) -> Seq<Seq<char>>
    decreases s.len(),
{
    if s.len() == 0 {
        seq![x]
    } else if lex_leq(x, s[0]) {
        seq![x] + s
    } else {
        seq![s[0]] + spec_sorted_insert(s.drop_first(), x)
    }
}

/// The canonical sorted form of a list of names.
pub open spec fn spec_sort(s: Seq<Seq<char>>) -> Seq<Seq<char>>
    decreases s.len(),
{
    if s.len() == 0 {
        Seq::empty()
    } else {
        spec_sorted_insert(spec_sort(s.drop_first()), s[0])
    }
}

/// Sorted insertion splits at the first position not below the new name.
proof fn lemma_sorted_insert_at(v: Seq<Seq<char>>, x: Seq<char>, p: int)
    requires
        0 <= p <= v.len(),
        forall|j: int| 0 <= j < p ==> !lex_leq(x, #[trigger] v[j]),
        p < v.len() ==> lex_leq(x, v[p]),
    ensures
        spec_sorted_insert(v, x) == v.subrange(0, p) + seq![x] + v.subrange(p, v.len() as int),
    decreases v.len(),
{
    if p == 0 {
        if v.len() == 0 {
            assert(spec_sorted_insert(v, x) =~= v.subrange(0, 0) + seq![x] + v.subrange(
                0,
                v.len() as int,
            ));
        } else {
            assert(v.subrange(0, v.len() as int) =~= v);
            assert(spec_sorted_insert(v, x) =~= v.subrange(0, 0) + seq![x] + v.subrange(
                0,
                v.len() as int,
            ));
        }
    } else {
        assert(!lex_leq(x, v[0]));
        assert(forall|j: int|
            0 <= j < v.drop_first().len() ==> #[trigger] v.drop_first()[j] == v[j + 1]);
        lemma_sorted_insert_at(v.drop_first(), x, p - 1);
        assert(spec_sorted_insert(v, x) =~= v.subrange(0, p) + seq![x] + v.subrange(
            p,
            v.len() as int,
        ));
    }
}

/// The first position whose name is not below `x`; the length when every
/// name is.
fn find_insert_pos(s: &Vec<String>, x: &String) -> (p: usize)
    ensures
        0 <= p <= s@.len(),
        forall|j: int|
            0 <= j < p ==> !lex_leq(x@, #[trigger] crate::text::views_of(s@)[j]),
        p < s@.len() ==> lex_leq(x@, crate::text::views_of(s@)[p as int]),
{
    let ghost v = crate::text::views_of(s@);
    let mut p: usize = 0;
    loop
        invariant
            0 <= p <= s@.len(),
            v == crate::text::views_of(s@),
            v.len() == s@.len(),
            forall|j: int| 0 <= j < p ==> !lex_leq(x@, #[trigger] v[j]),
        decreases s@.len() - p,
    {
        if p == s.len() {
            return p;
        }
        let below = str_lt(x, &s[p]);
        let equal = *x == s[p];
        proof {
            assert(v[p as int] == s@[p as int]@);
        }
        if below || equal {
            return p;
        }
        p = p + 1;
    }
}

/// Insert a name into a sorted vector of names.
fn insert_sorted(s: &mut Vec<String>, x: String)
    ensures
        crate::text::views_of(final(s)@) == spec_sorted_insert(
            crate::text::views_of(old(s)@),
            x@,
        ),
{
    let ghost v = crate::text::views_of(s@);
    let p = find_insert_pos(s, &x);
    proof {
        lemma_sorted_insert_at(v, x@, p as int);
    }
    s.insert(p, x);
    proof {
        assert(crate::text::views_of(s@) =~= v.subrange(0, p as int) + seq![x@] + v.subrange(
            p as int,
            v.len() as int,
        ));
    }
}

/// Sort names into the canonical order used by diagnostics.
pub fn sort_names(names: &Vec<String>) -> (r: Vec<String>)
    ensures
        crate::text::views_of(r@) == spec_sort(crate::text::views_of(names@)),
{
    let ghost v = crate::text::views_of(names@);
    let mut r: Vec<String> = Vec::new();
    let mut idx: usize = names.len();
    proof {
        assert(v.skip(idx as int) =~= Seq::<Seq<char>>::empty());
        assert(crate::text::views_of(r@) =~= Seq::<Seq<char>>::empty());
    }
    while idx > 0
        invariant
            0 <= idx <= names@.len(),
            v == crate::text::views_of(names@),
            v.len() == names@.len(),
            crate::text::views_of(r@) == spec_sort(v.skip(idx as int)),
        decreases idx,
    {
        idx = idx - 1;
        insert_sorted(&mut r, names[idx].clone());
        proof {
            let suf = v.skip(idx as int);
            assert(suf[0] == v[idx as int]);
            assert(v[idx as int] == names@[idx as int]@);
            assert(suf.drop_first() =~= v.skip(idx + 1));
            assert(crate::text::views_of(r@) == spec_sorted_insert(
                spec_sort(v.skip(idx + 1)),
                v[idx as int],
            ));
        }
    }
    proof {
        assert(v.skip(0) =~= v);
    }
    r
}

/// Nondecreasing in the lexicographic order.
pub open spec fn sorted_lex(s: Seq<Seq<char>>) -> bool {
    forall|i: int, j: int| 0 <= i < j < s.len() ==> lex_leq(#[trigger] s[i], #[trigger] s[j])
}

/// The lexicographic order is total.
pub proof fn lemma_lex_total(a: Seq<char>, b: Seq<char>)
    ensures
        lex_lt(a, b) || lex_lt(b, a) || a == b,
    decreases a.len(),
{
    if b.len() == 0 || a.len() == 0 {
        if a.len() == b.len() {
            assert(a =~= b);
        }
    } else if a[0] != b[0] {
        assert(a[0] as int != b[0] as int);
    } else {
        lemma_lex_total(a.drop_first(), b.drop_first());
        if a.drop_first() == b.drop_first() {
            assert(a.drop_first().len() == b.drop_first().len());
            assert(a.len() == b.len());
            assert forall|i: int| 0 <= i < a.len() implies a[i] == b[i] by {
                if i > 0 {
                    assert(a.drop_first()[i - 1] == b.drop_first()[i - 1]);
                }
            }
            assert(a =~= b);
        }
    }
}

/// The lexicographic order is transitive.
pub proof fn lemma_lex_trans(a: Seq<char>, b: Seq<char>, c: Seq<char>)
    requires
        lex_lt(a, b),
        lex_lt(b, c),
    ensures
        lex_lt(a, c),
    decreases a.len() + b.len() + c.len(),
{
    if c.len() == 0 {
        assert(false);
    } else if a.len() == 0 {
    } else {
        assert(b.len() > 0);
        if a[0] != b[0] {
            if b[0] != c[0] {
            } else {
                assert(a[0] != c[0]);
            }
        } else {
            if b[0] != c[0] {
                assert(a[0] == b[0]);
            } else {
                lemma_lex_trans(a.drop_first(), b.drop_first(), c.drop_first());
            }
        }
    }
}

proof fn lemma_lex_leq_trans(a: Seq<char>, b: Seq<char>, c: Seq<char>)
    requires
        lex_leq(a, b),
        lex_leq(b, c),
    ensures
        lex_leq(a, c),
{
    if a != b && b != c {
        lemma_lex_trans(a, b, c);
    }
}

proof fn lemma_sorted_insert_sorted(s: Seq<Seq<char>>, x: Seq<char>)
    requires
        sorted_lex(s),
    ensures
        sorted_lex(spec_sorted_insert(s, x)),
    decreases s.len(),
{
    if s.len() == 0 {
    } else if lex_leq(x, s[0]) {
        let r = seq![x] + s;
        assert forall|i: int, j: int| 0 <= i < j < r.len() implies lex_leq(
            #[trigger] r[i],
            #[trigger] r[j],
        ) by {
            if i == 0 {
                if j > 1 {
                    lemma_lex_leq_trans(x, s[0], s[j - 1]);
                }
            } else {
                assert(lex_leq(s[i - 1], s[j - 1]));
            }
        }
        assert(spec_sorted_insert(s, x) == r);
    } else {
        assert(forall|j: int|
            0 <= j < s.drop_first().len() ==> #[trigger] s.drop_first()[j] == s[j + 1]);
        lemma_sorted_insert_sorted(s.drop_first(), x);
        let rr = spec_sorted_insert(s.drop_first(), x);
        let r = seq![s[0]] + rr;
        lemma_lex_total(x, s[0]);
        assert(lex_lt(s[0], x));
        assert forall|j: int| 0 <= j < rr.len() implies lex_leq(s[0], #[trigger] rr[j]) by {
            lemma_sorted_insert_contains(s.drop_first(), x, rr[j]);
            if rr[j] == x {
                assert(lex_leq(s[0], x));
            } else {
                let w = choose|w: int|
                    0 <= w < s.drop_first().len() && s.drop_first()[w] == rr[j];
                assert(lex_leq(s[0], s[w + 1]));
            }
        }
        assert forall|i: int, j: int| 0 <= i < j < r.len() implies lex_leq(
            #[trigger] r[i],
            #[trigger] r[j],
        ) by {
            if i > 0 {
                assert(lex_leq(rr[i - 1], rr[j - 1]));
            }
        }
        assert(spec_sorted_insert(s, x) == r);
    }
}

/// The canonical order is genuinely sorted: the extras diagnostic lists
/// names in nondecreasing lexicographic order, whatever order they were
/// declared in.
pub proof fn lemma_sort_sorted(s: Seq<Seq<char>>)
    ensures
        sorted_lex(spec_sort(s)),
    decreases s.len(),
{
    if s.len() == 0 {
    } else {
        lemma_sort_sorted(s.drop_first());
        lemma_sorted_insert_sorted(spec_sort(s.drop_first()), s[0]);
    }
}

/// Sorting neither adds nor loses a name.
pub proof fn lemma_sort_contains(s: Seq<Seq<char>>, x: Seq<char>)
    ensures
        spec_sort(s).contains(x) <==> s.contains(x),
    decreases s.len(),
{
    if s.len() == 0 {
    } else {
        lemma_sort_contains(s.drop_first(), x);
        lemma_sorted_insert_contains(spec_sort(s.drop_first()), s[0], x);
        assert(forall|j: int|
            0 <= j < s.drop_first().len() ==> #[trigger] s.drop_first()[j] == s[j + 1]);
        if s.contains(x) {
            let j = choose|j: int| 0 <= j < s.len() && s[j] == x;
            if j > 0 {
                assert(s.drop_first()[j - 1] == x);
            }
        }
    }
}

proof fn lemma_sorted_insert_contains(s: Seq<Seq<char>>, y: Seq<char>, x: Seq<char>)
    ensures
        spec_sorted_insert(s, y).contains(x) <==> (s.contains(x) || x == y),
    decreases s.len(),
{
    let r = spec_sorted_insert(s, y);
    if s.len() == 0 {
        assert(r =~= seq![y]);
        if x == y {
            assert(r[0] == x);
        }
    } else if lex_leq(y, s[0]) {
        assert(r =~= seq![y] + s);
        if s.contains(x) {
            let j = choose|j: int| 0 <= j < s.len() && s[j] == x;
            assert(r[j + 1] == x);
        }
        if x == y {
            assert(r[0] == x);
        }
        if r.contains(x) {
            let j = choose|j: int| 0 <= j < r.len() && r[j] == x;
            if j > 0 {
                assert(s[j - 1] == x);
            }
        }
    } else {
        lemma_sorted_insert_contains(s.drop_first(), y, x);
        let rr = spec_sorted_insert(s.drop_first(), y);
        assert(r =~= seq![s[0]] + rr);
        if r.contains(x) {
            let j = choose|j: int| 0 <= j < r.len() && r[j] == x;
            if j > 0 {
                assert(rr[j - 1] == x);
            }
            if j == 0 {
                assert(s[0] == x);
            }
        }
        if s.contains(x) {
            let j = choose|j: int| 0 <= j < s.len() && s[j] == x;
            if j == 0 {
                assert(r[0] == x);
            } else {
                assert(s.drop_first()[j - 1] == x);
                assert(rr.contains(x));
                let j2 = choose|j2: int| 0 <= j2 < rr.len() && rr[j2] == x;
                assert(r[j2 + 1] == x);
            }
        }
        if x == y {
            assert(rr.contains(x));
            let j2 = choose|j2: int| 0 <= j2 < rr.len() && rr[j2] == x;
            assert(r[j2 + 1] == x);
        }
    }
}

} // verus!
