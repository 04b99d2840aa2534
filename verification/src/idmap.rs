//! A map keyed by transaction id.
//!
//! Ids are hashes, so their first eight bytes spread them well: the map files
//! each entry under that integer and keeps the few entries that share it in a
//! short list. The view is the mathematical map from id to value.

use crate::digest::TxId;
use std::collections::HashMap;
use vstd::prelude::*;

verus! {

broadcast use vstd::std_specs::hash::group_hash_axioms;

/// The slot an id is filed under: its first eight bytes, little-endian.
spec fn slot_of(b: Seq<u8>) -> u64 {
    (b[0] as u64) | ((b[1] as u64) << 8) | ((b[2] as u64) << 16) | ((b[3] as u64) << 24) | ((
    b[4] as u64) << 32) | ((b[5] as u64) << 40) | ((b[6] as u64) << 48) | ((b[7] as u64) << 56)
}

fn slot(id: &TxId) -> (k: u64)
    ensures
        k == slot_of(id@),
{
    let b = id.as_bytes();
    (b[0] as u64) | ((b[1] as u64) << 8) | ((b[2] as u64) << 16) | ((b[3] as u64) << 24) | ((
    b[4] as u64) << 32) | ((b[5] as u64) << 40) | ((b[6] as u64) << 48) | ((b[7] as u64) << 56)
}

/// A finite map from [`TxId`] to `V`.
pub struct IdMap<V> {
    slots: HashMap<u64, Vec<(TxId, V)>>,
    count: usize,
}

/// Some entry of the list has this id.
spec fn listed<V>(list: Seq<(TxId, V)>, id: TxId) -> bool {
    exists|i: int| 0 <= i < list.len() && (#[trigger] list[i]).0 == id
}

/// The index of an id's entry in a list.
spec fn index_in<V>(list: Seq<(TxId, V)>, id: TxId) -> int {
    choose|i: int| 0 <= i < list.len() && (#[trigger] list[i]).0 == id
}

impl<V: Copy> IdMap<V> {
    spec fn has(&self, id: TxId) -> bool {
        self.slots@.contains_key(slot_of(id@)) && listed(self.slots@[slot_of(id@)]@, id)
    }

    /// The map this stands for.
    pub closed spec fn view(&self) -> Map<TxId, V> {
        Map::new(
            |id: TxId| self.has(id),
            |id: TxId|
                {
                    let list = self.slots@[slot_of(id@)]@;
                    list[index_in(list, id)].1
                },
        )
    }

    /// Every entry is filed under its own slot, no id twice, and the count is right.
    pub closed spec fn wf(&self) -> bool {
        &&& self.filed()
        &&& self@.dom().finite()
        &&& self@.dom().len() == self.count
    }

    /// The empty map.
    pub fn new() -> (m: Self)
        ensures
            m.wf(),
            m@ == Map::<TxId, V>::empty(),
    {
        let m = IdMap { slots: HashMap::new(), count: 0 };
        assert(m@ =~= Map::<TxId, V>::empty());
        m
    }

    /// How many ids the map holds.
    pub fn len(&self) -> (n: usize)
        requires
            self.wf(),
        ensures
            n == self@.dom().len(),
            self@.dom().finite(),
    {
        self.count
    }

    /// Where in its slot's list an id stands.
    fn position(list: &Vec<(TxId, V)>, id: &TxId) -> (r: Option<usize>)
        ensures
            match r {
                Some(i) => i < list@.len() && list@[i as int].0 == *id,
                None => !listed(list@, *id),
            },
    {
        let mut i: usize = 0;
        while i < list.len()
            invariant
                i <= list@.len(),
                forall|k: int| 0 <= k < i ==> (#[trigger] list@[k]).0 != *id,
            decreases list@.len() - i,
        {
            if list[i].0 == *id {
                return Some(i);
            }
            i = i + 1;
        }
        None
    }

    /// The value of an id, if the map holds it.
    pub fn get(&self, id: &TxId) -> (r: Option<V>)
        requires
            self.wf(),
        ensures
            match r {
                Some(v) => self@.contains_key(*id) && v == self@[*id],
                None => !self@.contains_key(*id),
            },
    {
        let k = slot(id);
        match self.slots.get(&k) {
            Some(list) => {
                match Self::position(list, id) {
                    Some(i) => {
                        proof {
                            let s = self.slots@[k]@;
                            assert(s[i as int].0 == *id);
                            let j = index_in(s, *id);
                            assert(0 <= j < s.len() && s[j].0 == *id);
                            assert(self.slots@[k]@[i as int].0 == self.slots@[k]@[j].0);
                        }
                        Some(list[i].1)
                    },
                    None => None,
                }
            },
            None => None,
        }
    }

    /// Whether the map holds an id.
    pub fn contains_key(&self, id: &TxId) -> (r: bool)
        requires
            self.wf(),
        ensures
            r == self@.contains_key(*id),
    {
        self.get(id).is_some()
    }

    /// The filing rules alone: every entry under its own slot, no id twice.
    spec fn filed(&self) -> bool {
        &&& forall|k: u64, i: int|
            #![trigger self.slots@[k]@[i]]
            self.slots@.contains_key(k) && 0 <= i < self.slots@[k]@.len() ==> slot_of(
                self.slots@[k]@[i].0@,
            ) == k
        &&& forall|k: u64, i: int, j: int|
            #![trigger self.slots@[k]@[i], self.slots@[k]@[j]]
            self.slots@.contains_key(k) && 0 <= i < j < self.slots@[k]@.len()
                ==> self.slots@[k]@[i].0 != self.slots@[k]@[j].0
    }

    /// A filed entry is what the view holds for its id.
    proof fn lemma_entry(&self, k: u64, i: int)
        requires
            self.filed(),
            self.slots@.contains_key(k),
            0 <= i < self.slots@[k]@.len(),
        ensures
            self@.contains_key(self.slots@[k]@[i].0),
            self@[self.slots@[k]@[i].0] == self.slots@[k]@[i].1,
    {
        let s = self.slots@[k]@;
        let id = s[i].0;
        assert(slot_of(id@) == k);
        assert(listed(s, id));
        let j = index_in(s, id);
        assert(0 <= j < s.len() && s[j].0 == id);
        assert(self.slots@[k]@[i].0 == self.slots@[k]@[j].0);
        assert(i == j);
    }

    /// An id of the view has an entry in its slot.
    proof fn lemma_held(&self, id: TxId) -> (i: int)
        requires
            self.filed(),
            self@.contains_key(id),
        ensures
            self.slots@.contains_key(slot_of(id@)),
            0 <= i < self.slots@[slot_of(id@)]@.len(),
            self.slots@[slot_of(id@)]@[i] == (id, self@[id]),
    {
        let s = self.slots@[slot_of(id@)]@;
        let i = index_in(s, id);
        assert(0 <= i < s.len() && s[i].0 == id);
        self.lemma_entry(slot_of(id@), i);
        i
    }

    /// Set the value of an id and hand back the one it had.
    pub fn insert(&mut self, id: TxId, v: V) -> (prev: Option<V>)
        requires
            old(self).wf(),
            old(self)@.dom().len() < usize::MAX,
        ensures
            final(self).wf(),
            final(self)@ == old(self)@.insert(id, v),
            match prev {
                Some(p) => old(self)@.contains_key(id) && p == old(self)@[id],
                None => !old(self)@.contains_key(id),
            },
    {
        let prev = self.get(&id);
        let k = slot(&id);
        let mut list = match self.slots.remove(&k) {
            Some(l) => l,
            None => Vec::new(),
        };
        let ghost before = if old(self).slots@.contains_key(k) {
            old(self).slots@[k]@
        } else {
            Seq::<(TxId, V)>::empty()
        };
        assert(list@ == before);
        match Self::position(&list, &id) {
            Some(i) => {
                proof {
                    old(self).lemma_entry(k, i as int);
                }
                list[i] = (id, v);
            },
            None => {
                proof {
                    if old(self)@.contains_key(id) {
                        let j = old(self).lemma_held(id);
                    }
                }
                list.push((id, v));
                self.count = self.count + 1;
            },
        }
        let ghost after = list@;
        self.slots.insert(k, list);
        proof {
            let o = *old(self);
            assert(self.slots@ == o.slots@.insert(k, list));
            assert(self.filed());
            assert forall|x: TxId| #![auto]
                self@.contains_key(x) <==> o@.insert(id, v).contains_key(x) by {
                if self@.contains_key(x) {
                    let j = self.lemma_held(x);
                    if x != id {
                        if slot_of(x@) == k {
                            assert(before[j] == after[j]);
                            o.lemma_entry(k, j);
                        } else {
                            o.lemma_entry(slot_of(x@), j);
                        }
                    }
                }
                if o@.contains_key(x) {
                    let j = o.lemma_held(x);
                    self.lemma_entry(slot_of(x@), j);
                }
                if x == id {
                    if prev is Some {
                        let j = o.lemma_held(id);
                        self.lemma_entry(k, j);
                    } else {
                        self.lemma_entry(k, after.len() - 1);
                    }
                }
            }
            assert forall|x: TxId| #![auto] self@.contains_key(x) implies self@[x] == o@.insert(
                id,
                v,
            )[x] by {
                let j = self.lemma_held(x);
                if x != id {
                    if slot_of(x@) == k {
                        assert(before[j] == after[j]);
                        o.lemma_entry(k, j);
                    } else {
                        o.lemma_entry(slot_of(x@), j);
                    }
                } else {
                    if prev is Some {
                        let i = o.lemma_held(id);
                        self.lemma_entry(k, i);
                    } else {
                        self.lemma_entry(k, after.len() - 1);
                    }
                }
            }
            assert(self@ =~= o@.insert(id, v));
        }
        prev
    }

    /// Take an id out and hand back the value it had.
    pub fn remove(&mut self, id: &TxId) -> (prev: Option<V>)
        requires
            old(self).wf(),
        ensures
            final(self).wf(),
            final(self)@ == old(self)@.remove(*id),
            match prev {
                Some(p) => old(self)@.contains_key(*id) && p == old(self)@[*id],
                None => !old(self)@.contains_key(*id),
            },
    {
        let prev = self.get(id);
        if prev.is_none() {
            assert(self@ =~= old(self)@.remove(*id));
            return None;
        }
        let k = slot(id);
        proof {
            let j = old(self).lemma_held(*id);
            assert(old(self)@.dom().contains(*id));
            assert(old(self)@.dom().len() > 0) by {
                if old(self)@.dom().len() == 0 {
                    assert(old(self)@.dom() =~= Set::empty());
                }
            }
        }
        let mut list = match self.slots.remove(&k) {
            Some(l) => l,
            None => Vec::new(),
        };
        let ghost before = list@;
        assert(before == old(self).slots@[k]@);
        let ghost mut at: int = 0;
        match Self::position(&list, id) {
            Some(i) => {
                list.swap_remove(i);
                self.count = self.count - 1;
                proof {
                    at = i as int;
                }
            },
            None => {
                proof {
                    let j = old(self).lemma_held(*id);
                    assert(list@[j].0 == *id);
                    assert(false);
                }
            },
        }
        let ghost after = list@;
        let ghost n = before.len() - 1;
        assert(after =~= if at == n { before.drop_last() } else { before.drop_last().update(
            at,
            before.last(),
        ) });
        if list.len() > 0 {
            self.slots.insert(k, list);
        }
        proof {
            let o = *old(self);
            assert forall|j: int| 0 <= j < after.len() implies #[trigger] after[j] == before[if j
                == at {
                n
            } else {
                j
            }] by {}
            assert(self.slots@ == if after.len() > 0 {
                o.slots@.insert(k, list)
            } else {
                o.slots@.remove(k)
            });
            assert forall|kk: u64, i: int|
                #![trigger self.slots@[kk]@[i]]
                self.slots@.contains_key(kk) && 0 <= i < self.slots@[kk]@.len() implies slot_of(
                self.slots@[kk]@[i].0@,
            ) == kk by {
                if kk == k {
                    assert(after[i] == o.slots@[k]@[if i == at { n } else { i }]);
                } else {
                    assert(self.slots@[kk]@[i] == o.slots@[kk]@[i]);
                }
            }
            assert forall|kk: u64, i: int, j: int|
                #![trigger self.slots@[kk]@[i], self.slots@[kk]@[j]]
                self.slots@.contains_key(kk) && 0 <= i < j < self.slots@[kk]@.len() implies self.slots@[kk]@[i].0
                != self.slots@[kk]@[j].0 by {
                if kk == k {
                    let i2 = if i == at { n } else { i };
                    let j2 = if j == at { n } else { j };
                    assert(after[i] == o.slots@[k]@[i2]);
                    assert(after[j] == o.slots@[k]@[j2]);
                    if i2 < j2 {
                        assert(o.slots@[k]@[i2].0 != o.slots@[k]@[j2].0);
                    } else {
                        assert(o.slots@[k]@[j2].0 != o.slots@[k]@[i2].0);
                    }
                } else {
                    assert(o.slots@[kk]@[i].0 != o.slots@[kk]@[j].0);
                }
            }
            assert(self.filed());
            assert forall|x: TxId| #![auto]
                self@.contains_key(x) implies o@.contains_key(x) && x != *id && self@[x] == o@[x] by {
                let j = self.lemma_held(x);
                if slot_of(x@) == k {
                    let j2 = if j == at { n } else { j };
                    assert(after[j] == o.slots@[k]@[j2]);
                    o.lemma_entry(k, j2);
                    assert(o.slots@[k]@[at].0 == *id);
                    if j2 < at {
                        assert(o.slots@[k]@[j2].0 != o.slots@[k]@[at].0);
                    } else {
                        assert(o.slots@[k]@[at].0 != o.slots@[k]@[j2].0);
                    }
                } else {
                    o.lemma_entry(slot_of(x@), j);
                }
            }
            assert forall|x: TxId| #![auto]
                o@.contains_key(x) && x != *id implies self@.contains_key(x) by {
                let j = o.lemma_held(x);
                if slot_of(x@) == k {
                    assert(before[j] == (x, o@[x]));
                    let j2 = if j == n { at } else { j };
                    assert(after[j2] == before[j]);
                    self.lemma_entry(k, j2);
                } else {
                    self.lemma_entry(slot_of(x@), j);
                }
            }
            assert(self@ =~= o@.remove(*id));
        }
        prev
    }
}

} // verus!
