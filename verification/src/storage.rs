use vstd::prelude::*;

use crate::model::{Product, User};

verus! {

/// The key-value contents of an association list; a later entry for a key
/// overrides an earlier one (well-formed stores never hold a key twice).
pub open spec fn map_of<V>(entries: Seq<(u64, V)>) -> Map<u64, V>
    decreases entries.len(),
{
    if entries.len() == 0 {
        Map::empty()
    } else {
        map_of(entries.drop_last()).insert(entries.last().0, entries.last().1)
    }
}

/// No key occurs twice in the list.
pub open spec fn unique_keys<V>(entries: Seq<(u64, V)>) -> bool {
    forall|i: int, j: int|
        0 <= i < j < entries.len() ==> (#[trigger] entries[i]).0 != (#[trigger] entries[j]).0
}

proof fn lemma_unique_drop_last<V>(entries: Seq<(u64, V)>)
    requires
        unique_keys(entries),
        entries.len() > 0,
    ensures
        unique_keys(entries.drop_last()),
{
    assert forall|i: int, j: int| 0 <= i < j < entries.drop_last().len() implies (#[trigger] entries
        .drop_last()[i]).0 != (#[trigger] entries.drop_last()[j]).0 by {
        assert(entries.drop_last()[i] == entries[i]);
        assert(entries.drop_last()[j] == entries[j]);
    }
}

proof fn lemma_map_of_dom<V>(entries: Seq<(u64, V)>, k: u64)
    ensures
        map_of(entries).dom().contains(k) <==> exists|i: int|
            0 <= i < entries.len() && (#[trigger] entries[i]).0 == k,
    decreases entries.len(),
{
    if entries.len() == 0 {
    } else {
        lemma_map_of_dom(entries.drop_last(), k);
        if entries.last().0 == k {
            assert((entries[entries.len() - 1]).0 == k);
        } else {
            if map_of(entries).dom().contains(k) {
                let i = choose|i: int|
                    0 <= i < entries.drop_last().len() && (#[trigger] entries.drop_last()[i]).0
                        == k;
                assert((entries[i]).0 == k);
            }
            if exists|i: int| 0 <= i < entries.len() && (#[trigger] entries[i]).0 == k {
                let i = choose|i: int| 0 <= i < entries.len() && (#[trigger] entries[i]).0 == k;
                assert((entries.drop_last()[i]).0 == k);
            }
        }
    }
}

proof fn lemma_map_of_at<V>(entries: Seq<(u64, V)>, i: int)
    requires
        unique_keys(entries),
        0 <= i < entries.len(),
    ensures
        map_of(entries).dom().contains(entries[i].0),
        map_of(entries)[entries[i].0] == entries[i].1,
    decreases entries.len(),
{
    if i == entries.len() - 1 {
    } else {
        lemma_unique_drop_last(entries);
        lemma_map_of_at(entries.drop_last(), i);
        assert(entries.drop_last()[i] == entries[i]);
        assert(entries.last().0 != entries[i].0);
    }
}

proof fn lemma_map_of_update<V>(entries: Seq<(u64, V)>, i: int, v: V)
    requires
        unique_keys(entries),
        0 <= i < entries.len(),
    ensures
        unique_keys(entries.update(i, (entries[i].0, v))),
        map_of(entries.update(i, (entries[i].0, v))) == map_of(entries).insert(entries[i].0, v),
    decreases entries.len(),
{
    let k = entries[i].0;
    let upd = entries.update(i, (k, v));
    assert forall|x: int, y: int| 0 <= x < y < upd.len() implies (#[trigger] upd[x]).0
        != (#[trigger] upd[y]).0 by {
        assert(upd[x].0 == entries[x].0);
        assert(upd[y].0 == entries[y].0);
    }
    if i == entries.len() - 1 {
        assert(upd.drop_last() =~= entries.drop_last());
        assert(map_of(entries).insert(k, v) =~= map_of(entries.drop_last()).insert(k, v));
        assert(map_of(upd) == map_of(entries.drop_last()).insert(k, v));
    } else {
        lemma_unique_drop_last(entries);
        assert(entries.drop_last()[i] == entries[i]);
        lemma_map_of_update(entries.drop_last(), i, v);
        assert(upd.drop_last() =~= entries.drop_last().update(i, (k, v)));
        let last = entries.last();
        assert(upd.last() == last);
        assert(last.0 != k);
        assert(map_of(upd) == map_of(entries.drop_last()).insert(k, v).insert(last.0, last.1));
        assert(map_of(entries.drop_last()).insert(k, v).insert(last.0, last.1)
            =~= map_of(entries.drop_last()).insert(last.0, last.1).insert(k, v));
    }
}

proof fn lemma_map_of_push<V>(entries: Seq<(u64, V)>, k: u64, v: V)
    requires
        unique_keys(entries),
        forall|j: int| 0 <= j < entries.len() ==> (#[trigger] entries[j]).0 != k,
    ensures
        unique_keys(entries.push((k, v))),
        map_of(entries.push((k, v))) == map_of(entries).insert(k, v),
{
    let p = entries.push((k, v));
    assert forall|x: int, y: int| 0 <= x < y < p.len() implies (#[trigger] p[x]).0
        != (#[trigger] p[y]).0 by {
        if y == p.len() - 1 {
            assert(p[x] == entries[x]);
        } else {
            assert(p[x] == entries[x]);
            assert(p[y] == entries[y]);
        }
    }
    assert(p.drop_last() =~= entries);
    assert(p.last() == (k, v));
}

/// A single-pass, finite iterator over values already fetched from a store.
pub struct StubIter<V> {
    data: Vec<V>,
}

impl<V> StubIter<V> {
    /// The values not yet handed out, front to back.
    pub closed spec fn remaining(self) -> Seq<V> {
        self.data@
    }

    /// Hands out the next value; `None` exactly once the iterator is
    /// exhausted.
    pub fn next(&mut self) -> (r: Option<V>)
        ensures
            match r {
                Some(v) => {
                    &&& old(self).remaining().len() > 0
                    &&& v == old(self).remaining()[0]
                    &&& final(self).remaining() == old(self).remaining().drop_first()
                },
                None => {
                    &&& old(self).remaining().len() == 0
                    &&& final(self).remaining() == old(self).remaining()
                },
            },
    {
        if self.data.len() > 0 {
            let v = self.data.remove(0);
            proof {
                assert(self.data@ =~= old(self).data@.drop_first());
            }
            Some(v)
        } else {
            None
        }
    }
}

/// In-memory user store: an association list from user id to user, holding
/// each key at most once.
pub struct UserStorage {
    entries: Vec<(u64, User)>,
}

impl UserStorage {
    pub closed spec fn entries_seq(self) -> Seq<(u64, User)> {
        self.entries@
    }

    pub open spec fn wf(self) -> bool {
        unique_keys(self.entries_seq())
    }

    /// The store's contents, as a map from user id to user.
    pub open spec fn contents(self) -> Map<u64, User> {
        map_of(self.entries_seq())
    }

    /// A fresh, empty in-memory store.
    pub fn create_stub() -> (r: Self)
        ensures
            r.wf(),
            r.contents() == Map::<u64, User>::empty(),
    {
        UserStorage { entries: Vec::new() }
    }

    /// Inserts `val` under `key`, overwriting any previous value. An
    /// in-memory store cannot fail, so this always reports success.
    pub fn store(&mut self, key: u64, val: User) -> (r: bool)
        requires
            old(self).wf(),
        ensures
            r,
            final(self).wf(),
            final(self).contents() == old(self).contents().insert(key, val),
    {
        let mut i: usize = 0;
        while i < self.entries.len()
            invariant
                *self == *old(self),
                self.wf(),
                i <= self.entries@.len(),
                forall|j: int| 0 <= j < i ==> (#[trigger] self.entries@[j]).0 != key,
            decreases self.entries@.len() - i,
        {
            if self.entries[i].0 == key {
                proof {
                    lemma_map_of_update(self.entries@, i as int, val);
                }
                self.entries.remove(i);
                self.entries.insert(i, (key, val));
                proof {
                    assert(self.entries@ =~= old(self).entries@.update(i as int, (key, val)));
                }
                return true;
            }
            i += 1;
        }
        proof {
            lemma_map_of_push(self.entries@, key, val);
        }
        self.entries.push((key, val));
        true
    }

    /// Looks a user up by id: `Some` exactly when the key is present.
    pub fn load(&self, key: u64) -> (r: Option<User>)
        requires
            self.wf(),
        ensures
            r.is_some() <==> self.contents().dom().contains(key),
            match r {
                Some(v) => self.contents().dom().contains(key) && v == self.contents()[key],
                None => true,
            },
    {
        let mut i: usize = 0;
        while i < self.entries.len()
            invariant
                self.wf(),
                i <= self.entries@.len(),
                forall|j: int| 0 <= j < i ==> (#[trigger] self.entries@[j]).0 != key,
            decreases self.entries@.len() - i,
        {
            let e = &self.entries[i];
            if e.0 == key {
                proof {
                    lemma_map_of_at(self.entries@, i as int);
                }
                return Some(e.1.clone());
            }
            i += 1;
        }
        proof {
            lemma_map_of_dom(self.entries@, key);
        }
        None
    }
}

/// In-memory product store: an association list from product id to product,
/// holding each key at most once.
pub struct ProductStorage {
    entries: Vec<(u64, Product)>,
}

impl ProductStorage {
    pub closed spec fn entries_seq(self) -> Seq<(u64, Product)> {
        self.entries@
    }

    pub open spec fn wf(self) -> bool {
        unique_keys(self.entries_seq())
    }

    /// The store's contents, as a map from product id to product.
    pub open spec fn contents(self) -> Map<u64, Product> {
        map_of(self.entries_seq())
    }

    /// The stored products in insertion order: what `load_all` hands out.
    pub open spec fn values_seq(self) -> Seq<Product> {
        self.entries_seq().map_values(|e: (u64, Product)| e.1)
    }

    /// Each position of `values_seq` is the stored value of its entry's key.
    pub proof fn lemma_value_in_contents(self, i: int)
        requires
            self.wf(),
            0 <= i < self.values_seq().len(),
        ensures
            self.contents().dom().contains(self.entries_seq()[i].0),
            self.contents()[self.entries_seq()[i].0] == self.values_seq()[i],
    {
        lemma_map_of_at(self.entries_seq(), i);
    }

    /// A fresh, empty in-memory store.
    pub fn create_stub() -> (r: Self)
        ensures
            r.wf(),
            r.contents() == Map::<u64, Product>::empty(),
    {
        ProductStorage { entries: Vec::new() }
    }

    /// Inserts `val` under `key`, overwriting any previous value. An
    /// in-memory store cannot fail, so this always reports success.
    pub fn store(&mut self, key: u64, val: Product) -> (r: bool)
        requires
            old(self).wf(),
        ensures
            r,
            final(self).wf(),
            final(self).contents() == old(self).contents().insert(key, val),
    {
        let mut i: usize = 0;
        while i < self.entries.len()
            invariant
                *self == *old(self),
                self.wf(),
                i <= self.entries@.len(),
                forall|j: int| 0 <= j < i ==> (#[trigger] self.entries@[j]).0 != key,
            decreases self.entries@.len() - i,
        {
            if self.entries[i].0 == key {
                proof {
                    lemma_map_of_update(self.entries@, i as int, val);
                }
                self.entries.remove(i);
                self.entries.insert(i, (key, val));
                proof {
                    assert(self.entries@ =~= old(self).entries@.update(i as int, (key, val)));
                }
                return true;
            }
            i += 1;
        }
        proof {
            lemma_map_of_push(self.entries@, key, val);
        }
        self.entries.push((key, val));
        true
    }

    /// Looks a product up by id: `Some` exactly when the key is present.
    pub fn load(&self, key: u64) -> (r: Option<Product>)
        requires
            self.wf(),
        ensures
            r.is_some() <==> self.contents().dom().contains(key),
            match r {
                Some(v) => self.contents().dom().contains(key) && v == self.contents()[key],
                None => true,
            },
    {
        let mut i: usize = 0;
        while i < self.entries.len()
            invariant
                self.wf(),
                i <= self.entries@.len(),
                forall|j: int| 0 <= j < i ==> (#[trigger] self.entries@[j]).0 != key,
            decreases self.entries@.len() - i,
        {
            let e = &self.entries[i];
            if e.0 == key {
                proof {
                    lemma_map_of_at(self.entries@, i as int);
                }
                return Some(e.1.clone());
            }
            i += 1;
        }
        proof {
            lemma_map_of_dom(self.entries@, key);
        }
        None
    }

    /// Every stored product, in insertion order, behind a single-pass
    /// iterator. An in-memory store is always reachable, so this never
    /// reports absence.
    pub fn load_all(&self) -> (r: Option<StubIter<Product>>)
        requires
            self.wf(),
        ensures
            r.is_some(),
            match r {
                Some(it) => it.remaining() == self.values_seq(),
                None => false,
            },
    {
        let mut data: Vec<Product> = Vec::new();
        let mut i: usize = 0;
        while i < self.entries.len()
            invariant
                i <= self.entries@.len(),
                data@.len() == i,
                forall|j: int| 0 <= j < i ==> #[trigger] data@[j] == self.entries@[j].1,
            decreases self.entries@.len() - i,
        {
            let e = &self.entries[i];
            data.push(e.1.clone());
            i += 1;
        }
        proof {
            assert(data@ =~= self.values_seq());
        }
        Some(StubIter { data })
    }
}

} // verus!
