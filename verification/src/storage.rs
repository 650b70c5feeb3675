//! The storage table: the in-memory mapping from name to term that is the
//! system's single source of truth.
//!
//! Keys are unique and unordered; the table is created empty, mutated only
//! by [`Storage::set`] and [`Storage::delete`], and read by
//! [`Storage::get`], which hands out a clone so that stored terms stay
//! immutable. Its model is a map from character sequences to term models.

use vstd::prelude::*;

use crate::term::{term_wf, Term, TermV};

verus! {

/// The name-to-term table. No eviction and no capacity bound: a set
/// always succeeds, a delete of an absent name succeeds too.
pub struct Storage {
    table: vstd::hash_map::StringHashMap<Term>,
}

impl View for Storage {
    type V = Map<Seq<char>, TermV>;

    closed spec fn view(&self) -> Map<Seq<char>, TermV> {
        Map::new(
            |name: Seq<char>| self.table@.dom().contains(name),
            |name: Seq<char>| self.table@[name]@,
        )
    }
}

impl Storage {
    /// Creates an empty table.
    pub fn new() -> (s: Self)
        ensures
            s@ == Map::<Seq<char>, TermV>::empty(),
    {
        let s = Storage { table: vstd::hash_map::StringHashMap::new() };
        proof {
            assert(s@ =~= Map::<Seq<char>, TermV>::empty());
        }
        s
    }

    /// Looks up a name and returns a clone of the stored term, or `None`
    /// when the name is absent.
    pub fn get(&self, name: &str) -> (r: Option<Term>)
        ensures
            match r {
                Some(t) => self@.contains_key(name@) && t@ == self@[name@],
                None => !self@.contains_key(name@),
            },
    {
        match self.table.get(name) {
            Some(t) => Some(t.clone()),
            None => None,
        }
    }

    /// Inserts or overwrites: after the call the table maps the name to
    /// the given term and every other name to what it mapped before.
    pub fn set(&mut self, name: String, term: Term)
        ensures
            final(self)@ == old(self)@.insert(name@, term@),
    {
        let ghost m = self@.insert(name@, term@);
        self.table.insert(name, term);
        proof {
            assert(self@ =~= m);
        }
    }

    /// Removes a name if present; removing an absent name leaves the
    /// table unchanged and is not an error.
    pub fn delete(&mut self, name: &str)
        ensures
            final(self)@ == old(self)@.remove(name@),
    {
        let ghost m = self@.remove(name@);
        self.table.remove(name);
        proof {
            assert(self@ =~= m);
        }
    }

    /// Whether every term in the table is well formed. Terms enter the
    /// table only from decoded requests, which always satisfy this.
    pub open spec fn wf(&self) -> bool {
        forall|name: Seq<char>|
            self@.contains_key(name) ==> term_wf(#[trigger] self@[name])
    }
}

/// The table after a batch of stores, applied first to last.
pub open spec fn after_sets(
    m: Map<Seq<char>, TermV>,
    ops: Seq<(Seq<char>, TermV)>,
) -> Map<Seq<char>, TermV>
    decreases ops.len(),
{
    if ops.len() == 0 {
        m
    } else {
        after_sets(m.insert(ops[0].0, ops[0].1), ops.drop_first())
    }
}

/// Whether a batch of stores uses pairwise distinct names.
pub open spec fn distinct_names(ops: Seq<(Seq<char>, TermV)>) -> bool {
    forall|i: int, j: int| 0 <= i < j < ops.len() ==> ops[i].0 != ops[j].0
}

/// A batch of stores leaves a binding under a name none of them touches
/// exactly as it was.
pub proof fn lemma_sets_preserve_binding(
    m: Map<Seq<char>, TermV>,
    ops: Seq<(Seq<char>, TermV)>,
    name: Seq<char>,
)
    requires
        forall|j: int| 0 <= j < ops.len() ==> (#[trigger] ops[j]).0 != name,
        m.contains_key(name),
    ensures
        after_sets(m, ops).contains_key(name),
        after_sets(m, ops)[name] == m[name],
    decreases ops.len(),
{
    if ops.len() > 0 {
        lemma_sets_preserve_binding(m.insert(ops[0].0, ops[0].1), ops.drop_first(), name);
    }
}

/// No lost updates: after a batch of stores on pairwise distinct names —
/// the order being any serialization of concurrent stores — a fetch of
/// each name returns exactly the value stored for it.
pub proof fn lemma_no_lost_updates(
    m: Map<Seq<char>, TermV>,
    ops: Seq<(Seq<char>, TermV)>,
    i: int,
)
    requires
        distinct_names(ops),
        0 <= i < ops.len(),
    ensures
        after_sets(m, ops).contains_key(ops[i].0),
        after_sets(m, ops)[ops[i].0] == ops[i].1,
    decreases ops.len(),
{
    let m1 = m.insert(ops[0].0, ops[0].1);
    if i == 0 {
        assert(forall|j: int|
            0 <= j < ops.drop_first().len() ==> (#[trigger] ops.drop_first()[j]).0 != ops[0].0);
        lemma_sets_preserve_binding(m1, ops.drop_first(), ops[0].0);
    } else {
        assert(distinct_names(ops.drop_first()));
        assert(ops.drop_first()[i - 1] == ops[i]);
        lemma_no_lost_updates(m1, ops.drop_first(), i - 1);
    }
}

/// Storing under two distinct names commutes: per-operation atomicity
/// makes any interleaving of such stores equivalent to running them in
/// either order, so none is lost.
pub proof fn lemma_distinct_sets_commute(
    m: Map<Seq<char>, TermV>,
    name1: Seq<char>,
    t1: TermV,
    name2: Seq<char>,
    t2: TermV,
)
    requires
        name1 != name2,
    ensures
        m.insert(name1, t1).insert(name2, t2) == m.insert(name2, t2).insert(name1, t1),
{
    assert(m.insert(name1, t1).insert(name2, t2) =~= m.insert(name2, t2).insert(name1, t1));
}

/// A store under one name leaves every other name's binding untouched: a
/// later fetch of a distinct name sees exactly what was stored for it.
pub proof fn lemma_set_preserves_others(m: Map<Seq<char>, TermV>, name: Seq<char>, t: TermV, other: Seq<char>)
    requires
        name != other,
    ensures
        m.insert(name, t).contains_key(other) == m.contains_key(other),
        m.contains_key(other) ==> m.insert(name, t)[other] == m[other],
{
}

} // verus!
