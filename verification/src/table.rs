//! The ordered table of default declarations.
//!
//! Declarations are kept in first-seen order; re-declaring a name overwrites
//! the stored span and value in place.  The reconciler only ever reads the
//! table through name lookup, so two tables with the same declarations
//! resolve identically whatever order they were built in.

use vstd::prelude::*;

verus! {

/// One `name = expression` default declaration, with the span of its name.
pub struct DefaultDecl {
    pub name: String,
    pub span: usize,
    pub value: String,
}

/// The mathematical shape of a declaration.
pub struct DeclView {
    pub name: Seq<char>,
    pub span: nat,
    pub value: Seq<char>,
}

impl View for DefaultDecl {
    type V = DeclView;

    open spec fn view(&self) -> DeclView {
        DeclView { name: self.name@, span: self.span as nat, value: self.value@ }
    }
}

/// Some entry of `entries` is named `name`.
pub open spec fn has_name(entries: Seq<DeclView>, name: Seq<char>) -> bool {
    exists|i: int| 0 <= i < entries.len() && entries[i].name == name
}

/// The entry of `entries` named `name` (meaningful when names are distinct).
pub open spec fn decl_for(entries: Seq<DeclView>, name: Seq<char>) -> DeclView {
    entries[choose|i: int| 0 <= i < entries.len() && entries[i].name == name]
}

/// No two entries share a name.
pub open spec fn distinct_names(entries: Seq<DeclView>) -> bool {
    forall|i: int, j: int|
        0 <= i < j < entries.len() ==> entries[i].name != entries[j].name
}

/// Insertion with overwrite: a declaration whose name is already present
/// replaces that entry in place; a new name goes to the back.
pub open spec fn spec_insert(entries: Seq<DeclView>, d: DeclView) -> Seq<DeclView>
    decreases entries.len(),
{
    if entries.len() == 0 {
        seq![d]
    } else if entries[0].name == d.name {
        seq![d] + entries.drop_first()
    } else {
        seq![entries[0]] + spec_insert(entries.drop_first(), d)
    }
}

/// The table built by inserting `decls` from first to last.
pub open spec fn spec_build(decls: Seq<DeclView>) -> Seq<DeclView>
    decreases decls.len(),
{
    if decls.len() == 0 {
        Seq::empty()
    } else {
        spec_insert(spec_build(decls.drop_last()), decls.last())
    }
}

/// An insertion-ordered map from parameter name to its default declaration.
pub struct DefaultsTable {
    entries: Vec<DefaultDecl>,
}

impl View for DefaultsTable {
    type V = Seq<DeclView>;

    closed spec fn view(&self) -> Seq<DeclView> {
        self.entries@.map_values(|d: DefaultDecl| d@)
    }
}

impl DefaultsTable {
    /// A table is well formed when no name occurs twice.
    pub open spec fn wf(&self) -> bool {
        distinct_names(self@)
    }

    pub fn new() -> (r: DefaultsTable)
        ensures
            r@ == Seq::<DeclView>::empty(),
            r.wf(),
    {
        let r = DefaultsTable { entries: Vec::new() };
        proof {
            assert(r@ =~= Seq::<DeclView>::empty());
        }
        r
    }

    pub fn len(&self) -> (r: usize)
        ensures
            r == self@.len(),
    {
        self.entries.len()
    }

    pub fn entry_at(&self, i: usize) -> (r: &DefaultDecl)
        requires
            i < self@.len(),
        ensures
            r@ == self@[i as int],
    {
        &self.entries[i]
    }

    /// Look a name up; `None` exactly when the table has no such entry.
    pub fn get(&self, name: &String) -> (r: Option<&DefaultDecl>)
        requires
            self.wf(),
        ensures
            match r {
                Some(d) => has_name(self@, name@) && d@ == decl_for(self@, name@),
                None => !has_name(self@, name@),
            },
    {
        let n = self.entries.len();
        let mut i: usize = 0;
        while i < n
            invariant
                0 <= i <= n,
                n == self@.len(),
                self.wf(),
                forall|j: int| 0 <= j < i ==> self@[j].name != name@,
            decreases n - i,
        {
            if self.entries[i].name == *name {
                proof {
                    let w = choose|k: int|
                        0 <= k < self@.len() && self@[k].name == name@;
                    assert(self@[i as int].name == name@);
                    assert(w == i as int);
                }
                return Some(&self.entries[i]);
            }
            i = i + 1;
        }
        None
    }

    /// Insert with overwrite, preserving first-seen order.
    pub fn insert(&mut self, d: DefaultDecl)
        requires
            old(self).wf(),
        ensures
            final(self)@ == spec_insert(old(self)@, d@),
            final(self).wf(),
    {
        let n = self.entries.len();
        let mut i: usize = 0;
        while i < n
            invariant
                0 <= i <= n,
                n == self@.len(),
                self.wf(),
                self@ == old(self)@,
                forall|j: int| 0 <= j < i ==> self@[j].name != d.name@,
            decreases n - i,
        {
            if self.entries[i].name == d.name {
                let ghost pre = self@;
                self.entries.set(i, d);
                proof {
                    lemma_insert_found(pre, d@, i as int);
                    assert(self@ =~= pre.update(i as int, d@));
                    lemma_insert_preserves_distinct(pre, d@);
                }
                return;
            }
            i = i + 1;
        }
        let ghost pre = self@;
        self.entries.push(d);
        proof {
            lemma_insert_fresh(pre, d@);
            assert(self@ =~= pre.push(d@));
            lemma_insert_preserves_distinct(pre, d@);
        }
    }
}

/// When `d`'s name sits at position `i` of a duplicate-free list, inserting
/// `d` updates that position and nothing else.
proof fn lemma_insert_found(entries: Seq<DeclView>, d: DeclView, i: int)
    requires
        distinct_names(entries),
        0 <= i < entries.len(),
        entries[i].name == d.name,
    ensures
        spec_insert(entries, d) == entries.update(i, d),
    decreases entries.len(),
{
    if i == 0 {
        assert(spec_insert(entries, d) =~= entries.update(0, d));
    } else {
        assert(entries[0].name != d.name);
        assert(entries.drop_first()[i - 1] == entries[i]);
        lemma_insert_found(entries.drop_first(), d, i - 1);
        assert(spec_insert(entries, d) =~= entries.update(i, d));
    }
}

/// Inserting an unseen name appends it.
proof fn lemma_insert_fresh(entries: Seq<DeclView>, d: DeclView)
    requires
        !has_name(entries, d.name),
    ensures
        spec_insert(entries, d) == entries.push(d),
    decreases entries.len(),
{
    if entries.len() == 0 {
        assert(spec_insert(entries, d) =~= entries.push(d));
    } else {
        assert(entries[0].name != d.name);
        assert(!has_name(entries.drop_first(), d.name)) by {
            assert(forall|j: int|
                0 <= j < entries.drop_first().len()
                    ==> entries.drop_first()[j] == entries[j + 1]);
        }
        lemma_insert_fresh(entries.drop_first(), d);
        assert(spec_insert(entries, d) =~= entries.push(d));
    }
}

/// Insertion never introduces a duplicate name.
proof fn lemma_insert_preserves_distinct(entries: Seq<DeclView>, d: DeclView)
    requires
        distinct_names(entries),
    ensures
        distinct_names(spec_insert(entries, d)),
        spec_insert(entries, d).len() >= entries.len(),
    decreases entries.len(),
{
    if entries.len() == 0 {
    } else if entries[0].name == d.name {
        let r = spec_insert(entries, d);
        assert(r =~= seq![d] + entries.drop_first());
        assert forall|i: int, j: int| 0 <= i < j < r.len() implies r[i].name
            != r[j].name by {
            if i == 0 {
                assert(r[j] == entries[j]);
                assert(entries[0].name != entries[j].name);
            } else {
                assert(r[i] == entries[i] && r[j] == entries[j]);
            }
        }
    } else {
        lemma_insert_preserves_distinct(entries.drop_first(), d);
        let r = spec_insert(entries, d);
        let rr = spec_insert(entries.drop_first(), d);
        assert(r =~= seq![entries[0]] + rr);
        assert(forall|j: int| 0 <= j < rr.len() ==> r[j + 1] == rr[j]);
        assert forall|j: int| 1 <= j < r.len() implies r[0].name != #[trigger] r[j].name by {
            lemma_insert_names(entries.drop_first(), d, j - 1);
        }
        assert forall|i: int, j: int| 0 <= i < j < r.len() implies r[i].name
            != r[j].name by {
            if i >= 1 {
                assert(rr[i - 1].name != rr[j - 1].name);
            }
        }
    }
}

/// Declarations with pairwise distinct names build the table exactly as
/// they stand: each insertion appends.
pub proof fn lemma_build_distinct_identity(decls: Seq<DeclView>)
    requires
        distinct_names(decls),
    ensures
        spec_build(decls) == decls,
    decreases decls.len(),
{
    if decls.len() == 0 {
        assert(spec_build(decls) =~= decls);
    } else {
        let front = decls.drop_last();
        assert(forall|j: int| 0 <= j < front.len() ==> #[trigger] front[j] == decls[j]);
        lemma_build_distinct_identity(front);
        assert(!has_name(front, decls.last().name)) by {
            if has_name(front, decls.last().name) {
                let i = choose|i: int|
                    0 <= i < front.len() && front[i].name == decls.last().name;
                assert(decls[i].name == decls[decls.len() - 1].name);
                assert(false);
            }
        }
        lemma_insert_fresh(front, decls.last());
        assert(front.push(decls.last()) =~= decls);
    }
}

/// Every name in an insertion result was either there before or is the
/// inserted one.
proof fn lemma_insert_names(entries: Seq<DeclView>, d: DeclView, j: int)
    requires
        0 <= j < spec_insert(entries, d).len(),
    ensures
        spec_insert(entries, d)[j].name == d.name
            || has_name(entries, spec_insert(entries, d)[j].name),
    decreases entries.len(),
{
    if entries.len() == 0 {
    } else if entries[0].name == d.name {
        let r = spec_insert(entries, d);
        assert(r =~= seq![d] + entries.drop_first());
        if j > 0 {
            assert(r[j] == entries[j]);
        }
    } else {
        let r = spec_insert(entries, d);
        let rr = spec_insert(entries.drop_first(), d);
        assert(r =~= seq![entries[0]] + rr);
        if j > 0 {
            lemma_insert_names(entries.drop_first(), d, j - 1);
            if has_name(entries.drop_first(), rr[j - 1].name) {
                let k = choose|k: int|
                    0 <= k < entries.drop_first().len()
                        && entries.drop_first()[k].name == rr[j - 1].name;
                assert(entries[k + 1].name == rr[j - 1].name);
            }
        }
    }
}

} // verus!
