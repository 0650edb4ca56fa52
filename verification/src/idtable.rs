//! A small association table keyed by WAMP IDs, with a `Map` model. The
//! session engine keeps every pending-request and resource table in one of
//! these.

use vstd::prelude::*;

verus! {

/// The map a sequence of entries denotes: later entries win, though a well
/// formed table never repeats a key.
pub open spec fn map_of<V>(e: Seq<(u64, V)>) -> Map<u64, V>
    decreases e.len(),
{
    if e.len() == 0 {
        Map::empty()
    } else {
        map_of(e.drop_last()).insert(e.last().0, e.last().1)
    }
}

/// No key appears twice.
pub open spec fn keys_unique<V>(e: Seq<(u64, V)>) -> bool {
    forall|i: int, j: int| 0 <= i < j < e.len() ==> (#[trigger] e[i]).0 != (#[trigger] e[j]).0
}

/// A key is in the map of a sequence exactly when some entry carries it.
pub proof fn lemma_map_of_contains<V>(e: Seq<(u64, V)>, k: u64)
    ensures
        map_of(e).contains_key(k) <==> exists|i: int| 0 <= i < e.len() && (#[trigger] e[i]).0 == k,
    decreases e.len(),
{
    if e.len() > 0 {
        lemma_map_of_contains(e.drop_last(), k);
        if e.last().0 == k {
            assert(e[e.len() - 1].0 == k);
        } else {
            if map_of(e).contains_key(k) {
                let i = choose|i: int| 0 <= i < e.drop_last().len() && (#[trigger] e.drop_last()[i]).0 == k;
                assert(e[i].0 == k);
            }
            if exists|i: int| 0 <= i < e.len() && (#[trigger] e[i]).0 == k {
                let i = choose|i: int| 0 <= i < e.len() && (#[trigger] e[i]).0 == k;
                assert(e.drop_last()[i].0 == k);
            }
        }
    }
}

/// In a well formed sequence the map sends each entry's key to its value.
pub proof fn lemma_map_of_index<V>(e: Seq<(u64, V)>, i: int)
    requires
        keys_unique(e),
        0 <= i < e.len(),
    ensures
        map_of(e).contains_key(e[i].0),
        map_of(e)[e[i].0] == e[i].1,
    decreases e.len(),
{
    lemma_map_of_contains(e, e[i].0);
    if i < e.len() - 1 {
        assert(keys_unique(e.drop_last()));
        lemma_map_of_index(e.drop_last(), i);
        assert(e[i].0 != e.last().0);
    }
}

/// Removing the entry at `i` from a well formed sequence removes exactly
/// its key from the map.
pub proof fn lemma_map_of_remove<V>(e: Seq<(u64, V)>, i: int)
    requires
        keys_unique(e),
        0 <= i < e.len(),
    ensures
        map_of(e.remove(i)) == map_of(e).remove(e[i].0),
    decreases e.len(),
{
    let k = e[i].0;
    if i == e.len() - 1 {
        assert(e.remove(i) =~= e.drop_last());
        lemma_map_of_contains(e.drop_last(), k);
        assert forall|j: int| 0 <= j < e.drop_last().len() implies (#[trigger] e.drop_last()[j]).0
            != k by {
            assert(e[j].0 == e.drop_last()[j].0);
        }
        assert(!map_of(e.drop_last()).contains_key(k));
        assert(map_of(e).remove(k) =~= map_of(e.drop_last()));
    } else {
        assert(keys_unique(e.drop_last()));
        lemma_map_of_remove(e.drop_last(), i);
        assert(e.remove(i).drop_last() =~= e.drop_last().remove(i));
        assert(e.remove(i).last() == e.last());
        assert(map_of(e.remove(i)) == map_of(e.drop_last().remove(i)).insert(
            e.last().0,
            e.last().1,
        ));
        assert(e[i] == e.drop_last()[i]);
        assert(k != e.last().0);
        assert(map_of(e.drop_last()).remove(k).insert(e.last().0, e.last().1) =~= map_of(
            e.drop_last(),
        ).insert(e.last().0, e.last().1).remove(k));
    }
}

/// A well formed sequence's map has a finite domain of the sequence's
/// size.
pub proof fn lemma_map_of_len<V>(e: Seq<(u64, V)>)
    requires
        keys_unique(e),
    ensures
        map_of(e).dom().finite(),
        map_of(e).dom().len() == e.len(),
    decreases e.len(),
{
    broadcast use vstd::set::group_set_axioms, vstd::map::group_map_axioms;

    if e.len() > 0 {
        assert(keys_unique(e.drop_last()));
        lemma_map_of_len(e.drop_last());
        lemma_map_of_contains(e.drop_last(), e.last().0);
        if map_of(e.drop_last()).contains_key(e.last().0) {
            let i = choose|i: int|
                0 <= i < e.drop_last().len() && (#[trigger] e.drop_last()[i]).0 == e.last().0;
            assert(e[i].0 == e[e.len() - 1].0);
            assert(false);
        }
    }
}

/// An association table keyed by IDs; its model is the finite map of its
/// entries.
pub struct IdTable<V> {
    /// The entries, each key at most once
    pub entries: Vec<(u64, V)>,
}

impl<V> View for IdTable<V> {
    type V = Map<u64, V>;

    open spec fn view(&self) -> Map<u64, V> {
        map_of(self.entries@)
    }
}

impl<V> IdTable<V> {
    /// Every key appears at most once.
    pub open spec fn wf(&self) -> bool {
        keys_unique(self.entries@)
    }

    /// Creates an empty table.
    pub fn new() -> (r: Self)
        ensures
            r.wf(),
            r@ == Map::<u64, V>::empty(),
            r.entries@.len() == 0,
    {
        IdTable { entries: Vec::new() }
    }

    /// The number of entries.
    pub fn len(&self) -> (n: usize)
        ensures
            n == self.entries@.len(),
    {
        self.entries.len()
    }

    /// Tests whether a key is present.
    #[verifier::loop_isolation(false)]
    pub fn contains(&self, k: u64) -> (r: bool)
        ensures
            r == self@.contains_key(k),
    {
        proof {
            lemma_map_of_contains(self.entries@, k);
        }
        let mut i: usize = 0;
        while i < self.entries.len()
            invariant
                0 <= i <= self.entries@.len(),
                forall|j: int| 0 <= j < i ==> (#[trigger] self.entries@[j]).0 != k,
            decreases self.entries@.len() - i,
        {
            if self.entries[i].0 == k {
                proof {
                    assert(self.entries@[i as int].0 == k);
                }
                return true;
            }
            i = i + 1;
        }
        false
    }

    /// Looks a key up.
    #[verifier::loop_isolation(false)]
    pub fn get(&self, k: u64) -> (r: Option<&V>)
        requires
            self.wf(),
        ensures
            match r {
                Option::Some(v) => self@.contains_key(k) && self@[k] == *v,
                Option::None => !self@.contains_key(k),
            },
    {
        proof {
            lemma_map_of_contains(self.entries@, k);
        }
        let mut i: usize = 0;
        while i < self.entries.len()
            invariant
                0 <= i <= self.entries@.len(),
                forall|j: int| 0 <= j < i ==> (#[trigger] self.entries@[j]).0 != k,
            decreases self.entries@.len() - i,
        {
            if self.entries[i].0 == k {
                proof {
                    lemma_map_of_index(self.entries@, i as int);
                }
                return Option::Some(&self.entries[i].1);
            }
            i = i + 1;
        }
        Option::None
    }

    /// Inserts a fresh key.
    pub fn insert(&mut self, k: u64, v: V)
        requires
            old(self).wf(),
            !old(self)@.contains_key(k),
        ensures
            final(self).wf(),
            final(self)@ == old(self)@.insert(k, v),
            final(self).entries@ == old(self).entries@.push((k, v)),
    {
        proof {
            lemma_map_of_contains(self.entries@, k);
        }
        self.entries.push((k, v));
        proof {
            assert(self.entries@.drop_last() =~= old(self).entries@);
        }
    }

    /// Removes a key, returning its value when it was present.
    #[verifier::loop_isolation(false)]
    pub fn take(&mut self, k: u64) -> (r: Option<V>)
        requires
            old(self).wf(),
        ensures
            final(self).wf(),
            match r {
                Option::Some(v) => old(self)@.contains_key(k) && old(self)@[k] == v
                    && final(self)@ == old(self)@.remove(k)
                    && final(self).entries@.len() + 1 == old(self).entries@.len(),
                Option::None => !old(self)@.contains_key(k) && final(self)@ == old(self)@
                    && final(self).entries@ == old(self).entries@,
            },
    {
        proof {
            lemma_map_of_contains(self.entries@, k);
        }
        let mut i: usize = 0;
        while i < self.entries.len()
            invariant
                0 <= i <= self.entries@.len(),
                *self == *old(self),
                forall|j: int| 0 <= j < i ==> (#[trigger] self.entries@[j]).0 != k,
            decreases self.entries@.len() - i,
        {
            if self.entries[i].0 == k {
                proof {
                    lemma_map_of_index(self.entries@, i as int);
                    lemma_map_of_remove(self.entries@, i as int);
                }
                let (_, v) = self.entries.remove(i);
                proof {
                    assert(keys_unique(self.entries@));
                }
                return Option::Some(v);
            }
            i = i + 1;
        }
        Option::None
    }

    /// Removes and returns every entry; the table is empty afterwards.
    pub fn drain_entries(&mut self) -> (r: Vec<(u64, V)>)
        ensures
            final(self).wf(),
            final(self)@ == Map::<u64, V>::empty(),
            final(self).entries@.len() == 0,
            r@ == old(self).entries@,
    {
        let mut out: Vec<(u64, V)> = Vec::new();
        core::mem::swap(&mut out, &mut self.entries);
        out
    }

    /// Whether the table is empty.
    pub fn is_empty(&self) -> (r: bool)
        ensures
            r == (self.entries@.len() == 0),
    {
        self.entries.len() == 0
    }
}

} // verus!
