//! One database: values under keys, and for some keys the time at which
//! they expire.
//!
//! Expiry is lazy. Nothing removes a key when its time comes; whoever looks
//! at the key next, at a time `now`, first removes it if `now` has reached
//! its expiry, and only then looks.

use crate::keymap::RespMap;
use crate::misc::get_current_ms;
use crate::resp::Resp;
use crate::value::Value;
use vstd::prelude::*;

verus! {

/// What a database holds.
#[verifier::ext_equal]
pub struct DbState {
    /// The value under each key.
    pub kv: Map<Value, Value>,
    /// The expiry of each key that has one, in milliseconds since the epoch.
    pub expiry: Map<Value, u128>,
}

impl DbState {
    /// The database that holds nothing.
    pub open spec fn empty() -> DbState {
        DbState { kv: Map::empty(), expiry: Map::empty() }
    }

    /// Every key with an expiry has a value.
    pub open spec fn expiry_within_kv(self) -> bool {
        self.expiry.dom().subset_of(self.kv.dom())
    }

    /// At `now` the key `k` has reached its expiry.
    pub open spec fn expired(self, k: Value, now: u128) -> bool {
        self.expiry.contains_key(k) && now >= self.expiry[k]
    }

    /// The database as someone who looks at `k` at `now` finds it: without
    /// `k` where `k` has expired, unchanged otherwise.
    pub open spec fn purge(self, k: Value, now: u128) -> DbState {
        if self.expired(k, now) {
            DbState { kv: self.kv.remove(k), expiry: self.expiry.remove(k) }
        } else {
            self
        }
    }

    /// The value under `k`, if any.
    pub open spec fn value(self, k: Value) -> Option<Value> {
        if self.kv.contains_key(k) {
            Some(self.kv[k])
        } else {
            None
        }
    }

    /// The expiry of `k`, if any.
    pub open spec fn expiry_of(self, k: Value) -> Option<u128> {
        if self.expiry.contains_key(k) {
            Some(self.expiry[k])
        } else {
            None
        }
    }

    /// The database with `v` under `k`. The expiry of `k` stays as it is.
    pub open spec fn set(self, k: Value, v: Value) -> DbState {
        DbState { kv: self.kv.insert(k, v), expiry: self.expiry }
    }

    /// The database without `k`: neither value nor expiry.
    pub open spec fn delete(self, k: Value) -> DbState {
        DbState { kv: self.kv.remove(k), expiry: self.expiry.remove(k) }
    }

    /// The database with `k` expiring at `when`.
    pub open spec fn set_expiry(self, k: Value, when: u128) -> DbState {
        DbState { kv: self.kv, expiry: self.expiry.insert(k, when) }
    }

    /// The database with `k` not expiring.
    pub open spec fn remove_expiry(self, k: Value) -> DbState {
        DbState { kv: self.kv, expiry: self.expiry.remove(k) }
    }
}

/// One database.
pub struct Db {
    kv: RespMap<Resp>,
    expiry: RespMap<u128>,
}

/// What an optional value denotes.
pub open spec fn value_view(r: Option<Resp>) -> Option<Value> {
    match r {
        Some(v) => Some(v@),
        None => None,
    }
}

/// What an optional borrowed value denotes.
pub open spec fn value_ref_view(r: Option<&Resp>) -> Option<Value> {
    match r {
        Some(v) => Some(v@),
        None => None,
    }
}

/// What an optional borrowed time is.
pub open spec fn time_ref_view(r: Option<&u128>) -> Option<u128> {
    match r {
        Some(v) => Some(*v),
        None => None,
    }
}

impl View for Db {
    type V = DbState;

    closed spec fn view(&self) -> DbState {
        DbState { kv: self.kv@, expiry: self.expiry@ }
    }
}

impl Db {
    /// Neither map holds a key twice.
    pub closed spec fn wf(&self) -> bool {
        self.kv.wf() && self.expiry.wf()
    }

    /// The database that holds nothing.
    pub fn new() -> (db: Db)
        ensures
            db.wf(),
            db@ == DbState::empty(),
    {
        Db { kv: RespMap::new(), expiry: RespMap::new() }
    }

    /// Removes `key` where it has expired at `now`.
    fn purge(&mut self, key: &Resp, now: u128)
        requires
            old(self).wf(),
        ensures
            final(self).wf(),
            final(self)@ == old(self)@.purge(key@, now),
    {
        let expired = match self.expiry.get(key) {
            Some(when) => now >= *when,
            None => false,
        };
        if expired {
            let _ = self.kv.remove(key);
            let _ = self.expiry.remove(key);
        }
    }

    /// Puts `value` under `key` and hands back what was there. The expiry of
    /// the key is not touched.
    pub fn set_value(&mut self, key: Resp, value: Resp) -> (r: Option<Resp>)
        requires
            old(self).wf(),
        ensures
            final(self).wf(),
            final(self)@ == old(self)@.set(key@, value@),
            value_view(r) == old(self)@.value(key@),
    {
        self.kv.insert(key, value)
    }

    /// Removes `key` with its value and its expiry, and hands back the
    /// value.
    pub fn remove_value(&mut self, key: &Resp) -> (r: Option<Resp>)
        requires
            old(self).wf(),
        ensures
            final(self).wf(),
            final(self)@ == old(self)@.delete(key@),
            value_view(r) == old(self)@.value(key@),
    {
        let _ = self.expiry.remove(key);
        self.kv.remove(key)
    }

    /// The value under `key` as found at `now`: the key is first removed if
    /// it has expired.
    pub fn get_value_at(&mut self, key: &Resp, now: u128) -> (r: Option<&Resp>)
        requires
            old(self).wf(),
        ensures
            final(self).wf(),
            final(self)@ == old(self)@.purge(key@, now),
            value_ref_view(r) == final(self)@.value(key@),
    {
        self.purge(key, now);
        self.kv.get(key)
    }

    /// The value under `key` as found now, by the wall clock. Whatever the
    /// clock says, the outcome is that of [`Db::get_value_at`] at some time.
    pub fn get_value(&mut self, key: &Resp) -> (r: Option<&Resp>)
        requires
            old(self).wf(),
        ensures
            final(self).wf(),
            exists|now: u128|
                {
                    &&& final(self)@ == old(self)@.purge(key@, now)
                    &&& value_ref_view(r) == final(self)@.value(key@)
                },
    {
        let now = get_current_ms();
        self.get_value_at(key, now)
    }

    /// The place of the value under `key`, to read and to write; `default`
    /// is put there first where the key has no value.
    pub fn entry_value(&mut self, key: Resp, default: Resp) -> (slot: &mut Resp)
        requires
            old(self).wf(),
        ensures
            slot@ == (match old(self)@.value(key@) {
                Some(v) => v,
                None => default@,
            }),
            final(self).wf(),
            final(self)@ == old(self)@.set(key@, final(slot)@),
    {
        self.kv.entry(key, default)
    }

    /// Lets `key` expire at `value`, in milliseconds since the epoch, and
    /// hands back the expiry it had.
    pub fn set_expiry(&mut self, key: Resp, value: u128) -> (r: Option<u128>)
        requires
            old(self).wf(),
        ensures
            final(self).wf(),
            final(self)@ == old(self)@.set_expiry(key@, value),
            r == old(self)@.expiry_of(key@),
    {
        self.expiry.insert(key, value)
    }

    /// The expiry of `key`, in milliseconds since the epoch.
    pub fn get_expiry(&self, key: &Resp) -> (r: Option<&u128>)
        requires
            self.wf(),
        ensures
            time_ref_view(r) == self@.expiry_of(key@),
    {
        self.expiry.get(key)
    }

    /// Lets `key` not expire, and hands back the expiry it had.
    pub fn remove_expiry(&mut self, key: &Resp) -> (r: Option<u128>)
        requires
            old(self).wf(),
        ensures
            final(self).wf(),
            final(self)@ == old(self)@.remove_expiry(key@),
            r == old(self)@.expiry_of(key@),
    {
        self.expiry.remove(key)
    }

    /// The place of the expiry of `key`, to read and to write; `default` is
    /// put there first where the key has no expiry.
    pub fn entry_expiry(&mut self, key: Resp, default: u128) -> (slot: &mut u128)
        requires
            old(self).wf(),
        ensures
            *slot == (match old(self)@.expiry_of(key@) {
                Some(when) => when,
                None => default,
            }),
            final(self).wf(),
            final(self)@ == old(self)@.set_expiry(key@, *final(slot)),
    {
        self.expiry.entry(key, default)
    }

    /// Whether `key` has a value as found at `now`: the key is first
    /// removed if it has expired.
    pub fn contains_value_at(&mut self, key: &Resp, now: u128) -> (r: bool)
        requires
            old(self).wf(),
        ensures
            final(self).wf(),
            final(self)@ == old(self)@.purge(key@, now),
            r == final(self)@.kv.contains_key(key@),
    {
        self.purge(key, now);
        self.kv.contains_key(key)
    }

    /// Whether `key` has a value as found now, by the wall clock. Whatever
    /// the clock says, the outcome is that of [`Db::contains_value_at`] at
    /// some time.
    pub fn contains_value(&mut self, key: &Resp) -> (r: bool)
        requires
            old(self).wf(),
        ensures
            final(self).wf(),
            exists|now: u128|
                {
                    &&& final(self)@ == old(self)@.purge(key@, now)
                    &&& r == final(self)@.kv.contains_key(key@)
                },
    {
        let now = get_current_ms();
        self.contains_value_at(key, now)
    }

    /// Whether `key` has an expiry. Nothing is removed, whatever the time.
    pub fn contains_expiry(&mut self, key: &Resp) -> (r: bool)
        requires
            old(self).wf(),
        ensures
            final(self).wf(),
            final(self)@ == old(self)@,
            r == old(self)@.expiry.contains_key(key@),
    {
        self.expiry.contains_key(key)
    }

    /// Removes every key.
    pub fn clear(&mut self)
        ensures
            final(self).wf(),
            final(self)@ == DbState::empty(),
    {
        self.kv.clear();
        self.expiry.clear();
    }
}

impl Default for Db {
    fn default() -> (db: Db)
        ensures
            db.wf(),
            db@ == DbState::empty(),
    {
        Db::new()
    }
}

/// Lazy expiry keeps every expiry within the keys that have a value, and so
/// do writing a value and removing a key.
pub proof fn lemma_expiry_within_kv(db: DbState, k: Value, v: Value, now: u128)
    requires
        db.expiry_within_kv(),
    ensures
        db.purge(k, now).expiry_within_kv(),
        db.set(k, v).expiry_within_kv(),
        db.delete(k).expiry_within_kv(),
        db.remove_expiry(k).expiry_within_kv(),
        db.kv.contains_key(k) ==> db.set_expiry(k, now).expiry_within_kv(),
        DbState::empty().expiry_within_kv(),
{
}

} // verus!
