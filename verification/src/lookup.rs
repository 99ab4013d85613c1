//! A string-keyed lookup table with a `Map<Seq<char>, V>` view.
//!
//! Entries are kept as a list of key/value pairs in insertion order; a later
//! entry for the same key shadows an earlier one, so the abstract view is the
//! map built by inserting the entries from first to last.

use vstd::prelude::*;

verus! {

use vstd::pervasive::VecAdditionalExecFns;

/// The map described by a list of entries: each entry inserted in order,
/// so the last entry for a key gives its value.
pub closed spec fn kv_view<V>(es: Seq<(String, V)>) -> Map<Seq<char>, V>
    decreases es.len(),
{
    if es.len() == 0 {
        Map::empty()
    } else {
        kv_view(es.drop_last()).insert(es.last().0@, es.last().1)
    }
}

proof fn lemma_kv_contains<V>(es: Seq<(String, V)>, k: Seq<char>)
    ensures
        kv_view(es).contains_key(k) == exists|j: int| 0 <= j < es.len() && es[j].0@ == k,
    decreases es.len(),
{
    if es.len() > 0 {
        lemma_kv_contains(es.drop_last(), k);
        if es.last().0@ == k {
            assert(es[es.len() - 1].0@ == k);
        } else if kv_view(es).contains_key(k) {
            let j = choose|j: int| 0 <= j < es.drop_last().len() && es.drop_last()[j].0@ == k;
            assert(es[j].0@ == k);
        } else if exists|j: int| 0 <= j < es.len() && es[j].0@ == k {
            let j = choose|j: int| 0 <= j < es.len() && es[j].0@ == k;
            assert(es.drop_last()[j].0@ == k);
        }
    }
}

proof fn lemma_kv_get<V>(es: Seq<(String, V)>, i: int)
    requires
        0 <= i < es.len(),
        forall|j: int| i < j < es.len() ==> es[j].0@ != es[i].0@,
    ensures
        kv_view(es).contains_key(es[i].0@),
        kv_view(es)[es[i].0@] == es[i].1,
    decreases es.len(),
{
    if i == es.len() - 1 {
    } else {
        assert(forall|j: int| i < j < es.drop_last().len() ==> es.drop_last()[j].0@ != es.drop_last()[i].0@);
        lemma_kv_get(es.drop_last(), i);
    }
}

proof fn lemma_kv_update_last<V>(es: Seq<(String, V)>, i: int, e: (String, V))
    requires
        0 <= i < es.len(),
        e.0@ == es[i].0@,
        forall|j: int| i < j < es.len() ==> es[j].0@ != es[i].0@,
    ensures
        kv_view(es.update(i, e)) == kv_view(es).insert(e.0@, e.1),
    decreases es.len(),
{
    if i == es.len() - 1 {
        assert(es.update(i, e).drop_last() =~= es.drop_last());
        assert(es.update(i, e).last() == e);
        assert(kv_view(es.drop_last()).insert(e.0@, e.1)
            =~= kv_view(es.drop_last()).insert(es[i].0@, es[i].1).insert(e.0@, e.1));
    } else {
        let es2 = es.drop_last();
        assert(es.update(i, e).drop_last() =~= es2.update(i, e));
        assert(forall|j: int| i < j < es2.len() ==> es2[j].0@ != es2[i].0@);
        lemma_kv_update_last(es2, i, e);
        let l = es.last();
        assert(es.update(i, e).last() == l);
        assert(l.0@ != e.0@);
        assert(kv_view(es2).insert(e.0@, e.1).insert(l.0@, l.1)
            =~= kv_view(es2).insert(l.0@, l.1).insert(e.0@, e.1));
    }
}

/// A lookup table from `String` keys to values, viewed as a map over the
/// keys' character sequences.
#[verifier::reject_recursive_types(V)]
pub struct LookupMap<V> {
    entries: Vec<(String, V)>,
}

impl<V> View for LookupMap<V> {
    type V = Map<Seq<char>, V>;

    closed spec fn view(&self) -> Map<Seq<char>, V> {
        kv_view(self.entries@)
    }
}

impl<V> LookupMap<V> {
    /// An empty table.
    pub fn new() -> (r: Self)
        ensures
            r@ == Map::<Seq<char>, V>::empty(),
    {
        LookupMap { entries: Vec::new() }
    }

    /// Whether the table holds the given key.
    #[verifier::loop_isolation(false)]
    pub fn contains_key(&self, key: &String) -> (b: bool)
        ensures
            b == self@.contains_key(key@),
    {
        proof {
            lemma_kv_contains(self.entries@, key@);
        }
        let n = self.entries.len();
        let mut j: usize = n;
        while j > 0
            invariant
                j <= self.entries@.len(),
                forall|t: int| j <= t < self.entries@.len() ==> self.entries@[t].0@ != key@,
            decreases j,
        {
            j = j - 1;
            if self.entries[j].0 == *key {
                return true;
            }
        }
        false
    }

    /// The value stored for the given key, if any.
    #[verifier::loop_isolation(false)]
    pub fn get(&self, key: &String) -> (r: Option<&V>)
        ensures
            match r {
                Some(v) => self@.contains_key(key@) && *v == self@[key@],
                None => !self@.contains_key(key@),
            },
    {
        proof {
            lemma_kv_contains(self.entries@, key@);
        }
        let mut j: usize = self.entries.len();
        while j > 0
            invariant
                j <= self.entries@.len(),
                forall|t: int| j <= t < self.entries@.len() ==> self.entries@[t].0@ != key@,
            decreases j,
        {
            j = j - 1;
            if self.entries[j].0 == *key {
                proof {
                    lemma_kv_get(self.entries@, j as int);
                }
                return Some(&self.entries[j].1);
            }
        }
        None
    }

    /// Stores `val` under `key`, returning the value it displaces, if any.
    #[verifier::loop_isolation(false)]
    pub fn replace(&mut self, key: &String, val: V) -> (r: Option<V>)
        ensures
            final(self)@ == old(self)@.insert(key@, val),
            match r {
                Some(v) => old(self)@.contains_key(key@) && v == old(self)@[key@],
                None => !old(self)@.contains_key(key@),
            },
    {
        proof {
            lemma_kv_contains(self.entries@, key@);
        }
        let ghost es0 = self.entries@;
        let mut j: usize = self.entries.len();
        while j > 0
            invariant
                self.entries@ == es0,
                j <= es0.len(),
                forall|t: int| j <= t < es0.len() ==> es0[t].0@ != key@,
            decreases j,
        {
            j = j - 1;
            if self.entries[j].0 == *key {
                proof {
                    lemma_kv_get(es0, j as int);
                }
                let mut slot: (String, V) = (key.clone(), val);
                let ghost newe = slot;
                self.entries.set_and_swap(j, &mut slot);
                proof {
                    lemma_kv_update_last(es0, j as int, newe);
                }
                return Some(slot.1);
            }
        }
        self.entries.push((key.clone(), val));
        proof {
            assert(self.entries@.drop_last() =~= es0);
        }
        None
    }

    /// Stores `val` under `key`, discarding any displaced value.
    pub fn insert(&mut self, key: &String, val: V)
        ensures
            final(self)@ == old(self)@.insert(key@, val),
    {
        let _ = self.replace(key, val);
    }
}

} // verus!
