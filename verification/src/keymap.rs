//! A map keyed by protocol values.
//!
//! Two keys are the same key when they denote the same [`Value`]. The map
//! holds its entries in a vector in which no key occurs twice, and is seen
//! as a `Map` from the value of a key to the view of what is stored under it.

use crate::resp::Resp;
use crate::value::Value;
use vstd::prelude::*;

verus! {

/// A map from protocol values to `V`.
pub struct RespMap<V: View> {
    entries: Vec<(Resp, V)>,
}

/// No two entries of `s` have the same key.
pub open spec fn keys_distinct<V>(s: Seq<(Resp, V)>) -> bool {
    forall|i: int, j: int|
        0 <= i < j < s.len() ==> (#[trigger] s[i]).0@ != (#[trigger] s[j]).0@
}

/// Some entry of `s` has the key `k`.
pub open spec fn has_key<V>(s: Seq<(Resp, V)>, k: Value) -> bool {
    exists|i: int| 0 <= i < s.len() && (#[trigger] s[i]).0@ == k
}

/// The place of an entry of `s` with the key `k`.
pub open spec fn index_of<V>(s: Seq<(Resp, V)>, k: Value) -> int {
    choose|i: int| 0 <= i < s.len() && (#[trigger] s[i]).0@ == k
}

/// The map that the entries `s` make up.
pub open spec fn map_of<V: View>(s: Seq<(Resp, V)>) -> Map<Value, V::V> {
    Map::new(|k: Value| has_key(s, k), |k: Value| s[index_of(s, k)].1@)
}

/// What the entry at `i` says of the map.
pub proof fn lemma_entry<V: View>(s: Seq<(Resp, V)>, i: int)
    requires
        keys_distinct(s),
        0 <= i < s.len(),
    ensures
        map_of(s).contains_key(s[i].0@),
        map_of(s)[s[i].0@] == s[i].1@,
{
    let k = s[i].0@;
    let j = index_of(s, k);
    assert(has_key(s, k));
    if i < j {
        assert(s[i].0@ != s[j].0@);
    }
    if j < i {
        assert(s[j].0@ != s[i].0@);
    }
}

/// Adding an entry under a new key inserts into the map.
pub proof fn lemma_push<V: View>(s: Seq<(Resp, V)>, e: (Resp, V))
    requires
        keys_distinct(s),
        !has_key(s, e.0@),
    ensures
        keys_distinct(s.push(e)),
        map_of(s.push(e)) == map_of(s).insert(e.0@, e.1@),
{
    let t = s.push(e);
    assert forall|i: int, j: int| 0 <= i < j < t.len() implies (#[trigger] t[i]).0@ != (
    #[trigger] t[j]).0@ by {
        if j < s.len() {
            assert(s[i].0@ != s[j].0@);
        } else {
            assert(t[i] == s[i]);
            assert(s[i].0@ != e.0@);
        }
    }
    assert forall|k: Value| map_of(t).contains_key(k) <==> map_of(s).insert(
        e.0@,
        e.1@,
    ).contains_key(k) by {
        if has_key(s, k) {
            let i = index_of(s, k);
            assert(t[i] == s[i]);
        }
        if has_key(t, k) {
            let i = index_of(t, k);
            if i < s.len() {
                assert(t[i] == s[i]);
            }
        }
        if k == e.0@ {
            assert(t[s.len() as int] == e);
        }
    }
    assert forall|k: Value| map_of(t).contains_key(k) implies map_of(t)[k] == map_of(s).insert(
        e.0@,
        e.1@,
    )[k] by {
        let i = index_of(t, k);
        lemma_entry(t, i);
        if i < s.len() {
            assert(t[i] == s[i]);
            lemma_entry(s, i);
        }
    }
    assert(map_of(t) =~= map_of(s).insert(e.0@, e.1@));
}

/// Replacing what is stored at `i`, under the same key, inserts into the
/// map.
pub proof fn lemma_update<V: View>(s: Seq<(Resp, V)>, i: int, e: (Resp, V))
    requires
        keys_distinct(s),
        0 <= i < s.len(),
        e.0@ == s[i].0@,
    ensures
        keys_distinct(s.update(i, e)),
        map_of(s.update(i, e)) == map_of(s).insert(e.0@, e.1@),
{
    let t = s.update(i, e);
    assert forall|a: int, b: int| 0 <= a < b < t.len() implies (#[trigger] t[a]).0@ != (
    #[trigger] t[b]).0@ by {
        assert(s[a].0@ != s[b].0@);
    }
    assert forall|k: Value| map_of(t).contains_key(k) <==> map_of(s).insert(
        e.0@,
        e.1@,
    ).contains_key(k) by {
        if has_key(s, k) {
            let j = index_of(s, k);
            assert(t[j].0@ == s[j].0@);
        }
        if has_key(t, k) {
            let j = index_of(t, k);
            assert(t[j].0@ == s[j].0@);
        }
        if k == e.0@ {
            assert(t[i].0@ == k);
        }
    }
    assert forall|k: Value| map_of(t).contains_key(k) implies map_of(t)[k] == map_of(s).insert(
        e.0@,
        e.1@,
    )[k] by {
        let j = index_of(t, k);
        lemma_entry(t, j);
        if j != i {
            assert(t[j] == s[j]);
            lemma_entry(s, j);
            lemma_entry(s, i);
        }
    }
    assert(map_of(t) =~= map_of(s).insert(e.0@, e.1@));
}

/// Taking the entry at `i` away removes its key from the map.
pub proof fn lemma_remove<V: View>(s: Seq<(Resp, V)>, i: int)
    requires
        keys_distinct(s),
        0 <= i < s.len(),
    ensures
        keys_distinct(s.remove(i)),
        map_of(s.remove(i)) == map_of(s).remove(s[i].0@),
{
    let t = s.remove(i);
    let gone = s[i].0@;
    assert forall|a: int, b: int| 0 <= a < b < t.len() implies (#[trigger] t[a]).0@ != (
    #[trigger] t[b]).0@ by {
        let a2 = if a < i {
            a
        } else {
            a + 1
        };
        let b2 = if b < i {
            b
        } else {
            b + 1
        };
        assert(t[a] == s[a2]);
        assert(t[b] == s[b2]);
        assert(s[a2].0@ != s[b2].0@);
    }
    assert forall|k: Value| map_of(t).contains_key(k) <==> map_of(s).remove(gone).contains_key(
        k,
    ) by {
        if has_key(t, k) {
            let j = index_of(t, k);
            let j2 = if j < i {
                j
            } else {
                j + 1
            };
            assert(t[j] == s[j2]);
            if j2 < i {
                assert(s[j2].0@ != s[i].0@);
            } else {
                assert(s[i].0@ != s[j2].0@);
            }
        }
        if has_key(s, k) && k != gone {
            let j = index_of(s, k);
            let j2 = if j < i {
                j
            } else {
                j - 1
            };
            assert(t[j2] == s[j]);
        }
    }
    assert forall|k: Value| map_of(t).contains_key(k) implies map_of(t)[k] == map_of(s).remove(
        gone,
    )[k] by {
        let j = index_of(t, k);
        let j2 = if j < i {
            j
        } else {
            j + 1
        };
        assert(t[j] == s[j2]);
        lemma_entry(t, j);
        lemma_entry(s, j2);
    }
    assert(map_of(t) =~= map_of(s).remove(gone));
}

impl<V: View> View for RespMap<V> {
    type V = Map<Value, V::V>;

    closed spec fn view(&self) -> Map<Value, V::V> {
        map_of(self.entries@)
    }
}

impl<V: View> RespMap<V> {
    /// No key occurs twice.
    pub closed spec fn wf(&self) -> bool {
        keys_distinct(self.entries@)
    }

    /// The empty map.
    pub fn new() -> (m: Self)
        ensures
            m.wf(),
            m@ == Map::<Value, V::V>::empty(),
    {
        let m = RespMap { entries: Vec::new() };
        assert(m@ =~= Map::<Value, V::V>::empty());
        m
    }

    /// The place of `key` among the entries.
    fn find(&self, key: &Resp) -> (r: Option<usize>)
        ensures
            match r {
                Some(i) => i < self.entries@.len() && self.entries@[i as int].0@ == key@,
                None => !has_key(self.entries@, key@),
            },
    {
        let mut i: usize = 0;
        while i < self.entries.len()
            invariant
                i <= self.entries.len(),
                forall|j: int| 0 <= j < i ==> (#[trigger] self.entries@[j]).0@ != key@,
            decreases self.entries.len() - i,
        {
            if self.entries[i].0 == *key {
                return Some(i);
            }
            i += 1;
        }
        None
    }

    /// What is stored under `key`.
    pub fn get(&self, key: &Resp) -> (r: Option<&V>)
        requires
            self.wf(),
        ensures
            match r {
                Some(v) => self@.contains_key(key@) && v@ == self@[key@],
                None => !self@.contains_key(key@),
            },
    {
        match self.find(key) {
            Some(i) => {
                proof {
                    lemma_entry(self.entries@, i as int);
                }
                Some(&self.entries[i].1)
            },
            None => None,
        }
    }

    /// Whether anything is stored under `key`.
    pub fn contains_key(&self, key: &Resp) -> (r: bool)
        requires
            self.wf(),
        ensures
            r == self@.contains_key(key@),
    {
        match self.find(key) {
            Some(i) => {
                proof {
                    lemma_entry(self.entries@, i as int);
                }
                true
            },
            None => false,
        }
    }

    /// Stores `value` under `key` and hands back what was stored there
    /// before.
    pub fn insert(&mut self, key: Resp, value: V) -> (r: Option<V>)
        requires
            old(self).wf(),
        ensures
            final(self).wf(),
            final(self)@ == old(self)@.insert(key@, value@),
            match r {
                Some(v) => old(self)@.contains_key(key@) && v@ == old(self)@[key@],
                None => !old(self)@.contains_key(key@),
            },
    {
        match self.find(&key) {
            Some(i) => {
                proof {
                    lemma_entry(self.entries@, i as int);
                    lemma_update(self.entries@, i as int, (key, value));
                }
                let ghost before = self.entries@;
                self.entries.push((key, value));
                let (_, previous) = self.entries.swap_remove(i);
                assert(self.entries@ =~= before.update(i as int, (key, value)));
                Some(previous)
            },
            None => {
                proof {
                    lemma_push(self.entries@, (key, value));
                }
                self.entries.push((key, value));
                None
            },
        }
    }

    /// The place under `key`, to read and to write; `default` is stored there
    /// first where the key is new.
    pub fn entry(&mut self, key: Resp, default: V) -> (slot: &mut V)
        requires
            old(self).wf(),
        ensures
            slot@ == (if old(self)@.contains_key(key@) {
                old(self)@[key@]
            } else {
                default@
            }),
            final(self).wf(),
            final(self)@ == old(self)@.insert(key@, final(slot)@),
    {
        let i = match self.find(&key) {
            Some(i) => i,
            None => {
                proof {
                    lemma_push(self.entries@, (key, default));
                }
                self.entries.push((key, default));
                self.entries.len() - 1
            },
        };
        let ghost before = self.entries@;
        proof {
            lemma_entry(before, i as int);
        }
        let slot = &mut self.entries[i].1;
        proof {
            let e = (before[i as int].0, *final(slot));
            lemma_update(before, i as int, e);
            assert(map_of(before).insert(key@, final(slot)@) =~= old(self)@.insert(
                key@,
                final(slot)@,
            ));
        }
        slot
    }

    /// Takes away what is stored under `key` and hands it back.
    pub fn remove(&mut self, key: &Resp) -> (r: Option<V>)
        requires
            old(self).wf(),
        ensures
            final(self).wf(),
            final(self)@ == old(self)@.remove(key@),
            match r {
                Some(v) => old(self)@.contains_key(key@) && v@ == old(self)@[key@],
                None => !old(self)@.contains_key(key@),
            },
    {
        match self.find(key) {
            Some(i) => {
                proof {
                    lemma_entry(self.entries@, i as int);
                    lemma_remove(self.entries@, i as int);
                }
                let (_, previous) = self.entries.remove(i);
                Some(previous)
            },
            None => {
                assert(self@ =~= old(self)@.remove(key@));
                None
            },
        }
    }

    /// Takes every entry away.
    pub fn clear(&mut self)
        ensures
            final(self).wf(),
            final(self)@ == Map::<Value, V::V>::empty(),
    {
        self.entries.clear();
        assert(self@ =~= Map::<Value, V::V>::empty());
    }
}

} // verus!
