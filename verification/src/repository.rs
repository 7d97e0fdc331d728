//! The repository abstraction: a generic, owning, keyed store of entities.
//!
//! `Store<T>` keeps entities of one kind in a vector whose elements carry
//! pairwise distinct keys, and is specified against its view: a map from
//! key to entity. The `Repository` trait states the capability set --
//! `find_by_id`, `save`, `delete` -- that every concrete repository
//! offers, and the laws at the end of the module record how those
//! operations interact.

use vstd::prelude::*;
use crate::text::str_eq;

verus! {

/// A record that a keyed store can hold: it is identified by a string key.
pub trait Entity: Sized {
    /// The identifying key of this record.
    spec fn key(&self) -> Seq<char>;

    /// The identifying key, as a string slice.
    fn id_ref(&self) -> (r: &str)
        ensures
            r@ == self.key(),
    ;
}

/// Whether some element of `s` carries the key `k`.
pub open spec fn has_key<T: Entity>(s: Seq<T>, k: Seq<char>) -> bool {
    exists|i: int| 0 <= i < s.len() && (#[trigger] s[i]).key() == k
}

/// The index of an element of `s` carrying the key `k`, if one exists.
pub open spec fn index_of_key<T: Entity>(s: Seq<T>, k: Seq<char>) -> int {
    choose|i: int| 0 <= i < s.len() && (#[trigger] s[i]).key() == k
}

/// The contents of `s` as a map from key to element.
pub open spec fn map_of<T: Entity>(s: Seq<T>) -> Map<Seq<char>, T> {
    Map::new(|k: Seq<char>| has_key(s, k), |k: Seq<char>| s[index_of_key(s, k)])
}

/// No two elements of `s` carry the same key.
pub open spec fn distinct_keys<T: Entity>(s: Seq<T>) -> bool {
    forall|i: int, j: int|
        0 <= i < j < s.len() ==> (#[trigger] s[i]).key() != (#[trigger] s[j]).key()
}

proof fn lemma_map_of_contains<T: Entity>(s: Seq<T>, k: Seq<char>)
    ensures
        map_of(s).contains_key(k) == has_key(s, k),
{
}

proof fn lemma_map_of_index<T: Entity>(s: Seq<T>, i: int)
    requires
        distinct_keys(s),
        0 <= i < s.len(),
    ensures
        map_of(s).contains_key(s[i].key()),
        map_of(s)[s[i].key()] == s[i],
{
    assert(has_key(s, s[i].key()));
    let j = index_of_key(s, s[i].key());
    assert(0 <= j < s.len() && s[j].key() == s[i].key());
}

proof fn lemma_map_of_push<T: Entity>(s: Seq<T>, item: T)
    requires
        distinct_keys(s),
        !has_key(s, item.key()),
    ensures
        distinct_keys(s.push(item)),
        map_of(s.push(item)) == map_of(s).insert(item.key(), item),
{
    let s2 = s.push(item);
    assert forall|i: int, j: int| 0 <= i < j < s2.len() implies (#[trigger] s2[i]).key() != (
    #[trigger] s2[j]).key() by {
        if j == s.len() {
            assert(s2[i] == s[i]);
            if s2[i].key() == s2[j].key() {
                assert(has_key(s, item.key()));
            }
        } else {
            assert(s2[i] == s[i] && s2[j] == s[j]);
        }
    }
    assert forall|k: Seq<char>| #[trigger] has_key(s2, k) == (has_key(s, k) || k
        == item.key()) by {
        if has_key(s2, k) {
            let i = choose|i: int| 0 <= i < s2.len() && (#[trigger] s2[i]).key() == k;
            if i < s.len() {
                assert(s2[i] == s[i]);
                assert(has_key(s, k));
            } else {
                assert(s2[i] == item);
            }
        }
        if has_key(s, k) {
            let i = choose|i: int| 0 <= i < s.len() && (#[trigger] s[i]).key() == k;
            assert(s2[i] == s[i]);
            assert(has_key(s2, k));
        }
        if k == item.key() {
            assert(s2[s.len() as int] == item);
            assert(has_key(s2, k));
        }
    }
    assert forall|k: Seq<char>| has_key(s2, k) implies map_of(s2)[k] == map_of(s).insert(
        item.key(),
        item,
    )[k] by {
        let j = index_of_key(s2, k);
        assert(0 <= j < s2.len() && s2[j].key() == k);
        if k == item.key() {
            if j < s.len() {
                assert(s2[j] == s[j]);
                assert(has_key(s, item.key()));
            }
            assert(s2[j] == item);
        } else {
            assert(j < s.len());
            assert(s2[j] == s[j]);
            assert(has_key(s, k));
            let j2 = index_of_key(s, k);
            assert(0 <= j2 < s.len() && s[j2].key() == k);
            assert(j == j2);
        }
    }
    assert(map_of(s2) =~= map_of(s).insert(item.key(), item));
}

proof fn lemma_map_of_remove<T: Entity>(s: Seq<T>, i: int)
    requires
        distinct_keys(s),
        0 <= i < s.len(),
    ensures
        distinct_keys(s.remove(i)),
        map_of(s.remove(i)) == map_of(s).remove(s[i].key()),
{
    let s2 = s.remove(i);
    assert forall|p: int, q: int| 0 <= p < q < s2.len() implies (#[trigger] s2[p]).key() != (
    #[trigger] s2[q]).key() by {
        let p0: int = if p < i { p } else { p + 1 };
        let q0: int = if q < i { q } else { q + 1 };
        assert(s2[p] == s[p0]);
        assert(s2[q] == s[q0]);
    }
    assert forall|k: Seq<char>| #[trigger] has_key(s2, k) == (has_key(s, k) && k != s[i].key()) by {
        if has_key(s2, k) {
            let j = choose|j: int| 0 <= j < s2.len() && (#[trigger] s2[j]).key() == k;
            let j0: int = if j < i { j } else { j + 1 };
            assert(s2[j] == s[j0]);
            assert(has_key(s, k));
            if k == s[i].key() {
                assert(s[j0].key() == s[i].key() && j0 != i);
                assert(false);
            }
        }
        if has_key(s, k) && k != s[i].key() {
            let j = choose|j: int| 0 <= j < s.len() && (#[trigger] s[j]).key() == k;
            let j2: int = if j < i { j } else { j - 1 };
            assert(s2[j2] == s[j]);
            assert(has_key(s2, k));
        }
    }
    assert forall|k: Seq<char>| has_key(s2, k) implies map_of(s2)[k] == map_of(s)[k] by {
        let j = index_of_key(s2, k);
        assert(0 <= j < s2.len() && s2[j].key() == k);
        let j0: int = if j < i { j } else { j + 1 };
        assert(s2[j] == s[j0]);
        assert(has_key(s, k));
        let j1 = index_of_key(s, k);
        assert(0 <= j1 < s.len() && s[j1].key() == k);
        assert(j1 == j0);
    }
    assert(map_of(s2) =~= map_of(s).remove(s[i].key()));
}

/// An owning keyed store of entities of one kind: the single generic
/// implementation of the repository capability set.
pub struct Store<T: Entity> {
    items: Vec<T>,
}

impl<T: Entity> View for Store<T> {
    type V = Map<Seq<char>, T>;

    closed spec fn view(&self) -> Map<Seq<char>, T> {
        map_of(self.items@)
    }
}

impl<T: Entity> Store<T> {
    #[verifier::type_invariant]
    spec fn inv(self) -> bool {
        distinct_keys(self.items@)
    }

    /// An empty store.
    pub fn new() -> (r: Self)
        ensures
            r@ == Map::<Seq<char>, T>::empty(),
    {
        let r = Store { items: Vec::new() };
        proof {
            assert(r@ =~= Map::<Seq<char>, T>::empty());
        }
        r
    }

    /// The index of the element carrying the key `id`, if any.
    fn index_of(&self, id: &str) -> (r: Option<usize>)
        ensures
            match r {
                Some(i) => i < self.items@.len() && self.items@[i as int].key() == id@,
                None => !has_key(self.items@, id@),
            },
    {
        let n = self.items.len();
        let mut i: usize = 0;
        while i < n
            invariant
                i <= n,
                n == self.items@.len(),
                forall|j: int| 0 <= j < i ==> (#[trigger] self.items@[j]).key() != id@,
            decreases n - i,
        {
            if str_eq(self.items[i].id_ref(), id) {
                return Some(i);
            }
            i += 1;
        }
        None
    }

    /// The stored entity carrying the key `id`, or `None` if there is none.
    pub fn find(&self, id: &str) -> (r: Option<&T>)
        ensures
            match r {
                Some(item) => self@.contains_key(id@) && *item == self@[id@],
                None => !self@.contains_key(id@),
            },
    {
        proof {
            use_type_invariant(&*self);
        }
        match self.index_of(id) {
            Some(i) => {
                proof {
                    lemma_map_of_index(self.items@, i as int);
                }
                Some(&self.items[i])
            },
            None => {
                proof {
                    lemma_map_of_contains(self.items@, id@);
                }
                None
            },
        }
    }

    /// Inserts `item` under its key, replacing any entity stored there.
    pub fn save(&mut self, item: T)
        ensures
            final(self)@ == old(self)@.insert(item.key(), item),
    {
        proof {
            use_type_invariant(&*self);
        }
        let ghost s0 = self.items@;
        let idx = self.index_of(item.id_ref());
        let mut items: Vec<T> = Vec::new();
        std::mem::swap(&mut items, &mut self.items);
        match idx {
            Some(i) => {
                proof {
                    lemma_map_of_remove(s0, i as int);
                    assert forall|j: int|
                        0 <= j < s0.remove(i as int).len() implies (#[trigger] s0.remove(
                        i as int,
                    )[j]).key() != item.key() by {
                        if j < i {
                            assert(s0.remove(i as int)[j] == s0[j]);
                        } else {
                            assert(s0.remove(i as int)[j] == s0[j + 1]);
                        }
                    }
                    assert(!has_key(s0.remove(i as int), item.key()));
                    lemma_map_of_push(s0.remove(i as int), item);
                    assert(map_of(s0).remove(item.key()).insert(item.key(), item) =~= map_of(
                        s0,
                    ).insert(item.key(), item));
                }
                items.remove(i);
                items.push(item);
                self.items = items;
            },
            None => {
                proof {
                    lemma_map_of_push(s0, item);
                }
                items.push(item);
                self.items = items;
            },
        }
    }

    /// Removes and returns the entity carrying the key `id`, if any.
    pub fn delete(&mut self, id: &str) -> (r: Option<T>)
        ensures
            final(self)@ == old(self)@.remove(id@),
            match r {
                Some(item) => old(self)@.contains_key(id@) && item == old(self)@[id@],
                None => !old(self)@.contains_key(id@),
            },
    {
        proof {
            use_type_invariant(&*self);
        }
        let ghost s0 = self.items@;
        match self.index_of(id) {
            Some(i) => {
                proof {
                    lemma_map_of_index(s0, i as int);
                    lemma_map_of_remove(s0, i as int);
                }
                let mut items: Vec<T> = Vec::new();
                std::mem::swap(&mut items, &mut self.items);
                let removed = items.remove(i);
                self.items = items;
                Some(removed)
            },
            None => {
                proof {
                    lemma_map_of_contains(s0, id@);
                    assert(map_of(s0).remove(id@) =~= map_of(s0));
                }
                None
            },
        }
    }

    /// Every stored entity, each exactly once; the order is unspecified.
    pub fn entries(&self) -> (r: Vec<&T>)
        ensures
            lists_contents(r@, self@),
    {
        proof {
            use_type_invariant(&*self);
        }
        let n = self.items.len();
        let mut r: Vec<&T> = Vec::new();
        let mut i: usize = 0;
        while i < n
            invariant
                i <= n,
                n == self.items@.len(),
                r@.len() == i,
                forall|j: int| 0 <= j < i ==> *(#[trigger] r@[j]) == self.items@[j],
            decreases n - i,
        {
            r.push(&self.items[i]);
            i += 1;
        }
        proof {
            assert forall|j: int| 0 <= j < r@.len() implies self@.contains_key(
                (#[trigger] r@[j]).key(),
            ) && *r@[j] == self@[r@[j].key()] by {
                lemma_map_of_index(self.items@, j);
            }
            assert forall|k: Seq<char>| #[trigger] self@.contains_key(k) implies exists|j: int|
                0 <= j < r@.len() && (#[trigger] r@[j]).key() == k by {
                lemma_map_of_contains(self.items@, k);
                let j = choose|j: int|
                    0 <= j < self.items@.len() && (#[trigger] self.items@[j]).key() == k;
                assert(r@[j].key() == k);
            }
        }
        r
    }
}

/// `r` lists the entities of `m` exactly: every listed entity is stored
/// under its key, no key is listed twice, and every stored key is listed.
pub open spec fn lists_contents<'a, T: Entity>(r: Seq<&'a T>, m: Map<Seq<char>, T>) -> bool {
    &&& forall|i: int|
        0 <= i < r.len() ==> m.contains_key((#[trigger] r[i]).key()) && *r[i] == m[r[i].key()]
    &&& forall|i: int, j: int|
        0 <= i < j < r.len() ==> (#[trigger] r[i]).key() != (#[trigger] r[j]).key()
    &&& forall|k: Seq<char>|
        #[trigger] m.contains_key(k) ==> exists|i: int| 0 <= i < r.len() && (#[trigger] r[i]).key()
            == k
}

/// The capability set that every repository offers, whatever the entity
/// kind: look up by id, insert or replace by id, remove by id. `contents`
/// is the abstract keyed state the three operations are specified against.
pub trait Repository<T: Entity>: Sized {
    /// The stored entities, as a map from id to entity.
    spec fn contents(&self) -> Map<Seq<char>, T>;

    /// The stored entity with the given id, or `None` if there is none.
    fn find_by_id(&self, id: &str) -> (r: Option<&T>)
        ensures
            match r {
                Some(item) => self.contents().contains_key(id@) && *item == self.contents()[id@],
                None => !self.contents().contains_key(id@),
            },
    ;

    /// Inserts `item` under its id, fully replacing any entity stored
    /// there; it always succeeds.
    fn save(&mut self, item: T)
        ensures
            final(self).contents() == old(self).contents().insert(item.key(), item),
    ;

    /// Removes and returns the entity stored under the id, or `None` --
    /// leaving the contents unchanged -- if there is none.
    fn delete(&mut self, id: &str) -> (r: Option<T>)
        ensures
            final(self).contents() == old(self).contents().remove(id@),
            match r {
                Some(item) => old(self).contents().contains_key(id@) && item == old(
                    self,
                ).contents()[id@],
                None => !old(self).contents().contains_key(id@),
            },
    ;
}

/// Law: after an entity is saved, looking up its id yields that entity.
pub proof fn lemma_save_then_find<T: Entity>(m: Map<Seq<char>, T>, item: T)
    ensures
        m.insert(item.key(), item).contains_key(item.key()),
        m.insert(item.key(), item)[item.key()] == item,
{
}

/// Law: removing an id that no stored entity carries changes nothing.
pub proof fn lemma_absent_id<T: Entity>(m: Map<Seq<char>, T>, k: Seq<char>)
    requires
        !m.contains_key(k),
    ensures
        m.remove(k) == m,
{
    assert(m.remove(k) =~= m);
}

/// Law: saving the same entity twice leaves the contents exactly as a
/// single save does.
pub proof fn lemma_save_idempotent<T: Entity>(m: Map<Seq<char>, T>, item: T)
    ensures
        m.insert(item.key(), item).insert(item.key(), item) == m.insert(item.key(), item),
{
    assert(m.insert(item.key(), item).insert(item.key(), item) =~= m.insert(item.key(), item));
}

/// Law: once an id has been deleted, a second delete of the same id finds
/// nothing and changes nothing.
pub proof fn lemma_delete_then_delete<T: Entity>(m: Map<Seq<char>, T>, k: Seq<char>)
    ensures
        !m.remove(k).contains_key(k),
        m.remove(k).remove(k) == m.remove(k),
{
    assert(m.remove(k).remove(k) =~= m.remove(k));
}

} // verus!
