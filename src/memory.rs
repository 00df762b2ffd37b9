//! The store: a mapping from keys to entries, each with an optional deadline
//! that is enforced lazily, when the key is next touched.

use vstd::prelude::*;

use crate::value::{Value, ValueModel};

verus! {

/// When an entry expires.
#[derive(PartialEq, Eq, Structural, Clone, Copy, Debug)]
pub enum Expiry {
    Never,
    /// An absolute deadline, in seconds since the Unix epoch.
    At(i64),
}

/// A stored entry.
pub struct DBValue {
    pub expiry: Expiry,
    pub last_modified: i64,
    pub last_accessed: i64,
    pub value: Value,
}

pub struct EntryModel {
    pub expiry: Expiry,
    pub last_modified: i64,
    pub last_accessed: i64,
    pub value: ValueModel,
}

impl View for DBValue {
    type V = EntryModel;

    open spec fn view(&self) -> EntryModel {
        EntryModel {
            expiry: self.expiry,
            last_modified: self.last_modified,
            last_accessed: self.last_accessed,
            value: self.value@,
        }
    }
}

/// One key and its entry.
pub struct Slot {
    pub key: String,
    pub entry: DBValue,
}

/// The key-value store: a list of slots with distinct keys.
pub struct MemoryDb {
    slots: Vec<Slot>,
}

/// The mapping that a list of slots stands for.
pub open spec fn map_of(s: Seq<Slot>) -> Map<Seq<char>, EntryModel>
    decreases s.len(),
{
    if s.len() == 0 {
        Map::empty()
    } else {
        map_of(s.drop_last()).insert(s.last().key@, s.last().entry@)
    }
}

pub open spec fn keys_unique(s: Seq<Slot>) -> bool {
    forall|i: int, j: int| 0 <= i < j < s.len() ==> s[i].key@ != s[j].key@
}

/// Whether an entry's deadline has passed at time `now`.
pub open spec fn is_expired(e: EntryModel, now: i64) -> bool {
    match e.expiry {
        Expiry::Never => false,
        Expiry::At(t) => t - now < 0,
    }
}

/// The store after lazy expiry of `k` at time `now`.
pub open spec fn purged(m: Map<Seq<char>, EntryModel>, k: Seq<char>, now: i64) -> Map<
    Seq<char>,
    EntryModel,
> {
    if m.contains_key(k) && is_expired(m[k], now) {
        m.remove(k)
    } else {
        m
    }
}

/// The time to live of `k` at `now`: -2 when absent or expired, -1 when it
/// never expires, else the seconds left.
pub open spec fn ttl_of(m: Map<Seq<char>, EntryModel>, k: Seq<char>, now: i64) -> int {
    if !m.contains_key(k) {
        -2
    } else {
        match m[k].expiry {
            Expiry::Never => -1,
            Expiry::At(t) => if t - now < 0 { -2 } else { t - now },
        }
    }
}

proof fn lemma_absent(s: Seq<Slot>, k: Seq<char>)
    requires
        forall|i: int| 0 <= i < s.len() ==> (#[trigger] s[i]).key@ != k,
    ensures
        !map_of(s).contains_key(k),
    decreases s.len(),
{
    if s.len() > 0 {
        lemma_absent(s.drop_last(), k);
    }
}

proof fn lemma_present(s: Seq<Slot>, i: int)
    requires
        keys_unique(s),
        0 <= i < s.len(),
    ensures
        map_of(s).contains_key(s[i].key@),
        map_of(s)[s[i].key@] == s[i].entry@,
    decreases s.len(),
{
    if i < s.len() - 1 {
        lemma_present(s.drop_last(), i);
    }
}

proof fn lemma_update(s: Seq<Slot>, i: int, x: Slot)
    requires
        keys_unique(s),
        0 <= i < s.len(),
        x.key@ == s[i].key@,
    ensures
        map_of(s.update(i, x)) == map_of(s).insert(x.key@, x.entry@),
        keys_unique(s.update(i, x)),
    decreases s.len(),
{
    let t = s.update(i, x);
    if i == s.len() - 1 {
        assert(t.drop_last() =~= s.drop_last());
        assert(map_of(t) =~= map_of(s).insert(x.key@, x.entry@));
    } else {
        assert(t.drop_last() =~= s.drop_last().update(i, x));
        lemma_update(s.drop_last(), i, x);
        assert(map_of(t) =~= map_of(s).insert(x.key@, x.entry@));
    }
}

proof fn lemma_remove(s: Seq<Slot>, i: int)
    requires
        keys_unique(s),
        0 <= i < s.len(),
    ensures
        map_of(s.remove(i)) == map_of(s).remove(s[i].key@),
        keys_unique(s.remove(i)),
    decreases s.len(),
{
    let t = s.remove(i);
    let k = s[i].key@;
    if i == s.len() - 1 {
        assert(t =~= s.drop_last());
        lemma_absent(s.drop_last(), k);
        assert(map_of(t) =~= map_of(s).remove(k));
    } else {
        assert(t.drop_last() =~= s.drop_last().remove(i));
        assert(t.last() == s.last());
        lemma_remove(s.drop_last(), i);
        assert(map_of(t) =~= map_of(s).remove(k));
    }
}

proof fn lemma_push(s: Seq<Slot>, x: Slot)
    requires
        keys_unique(s),
        forall|i: int| 0 <= i < s.len() ==> (#[trigger] s[i]).key@ != x.key@,
    ensures
        map_of(s.push(x)) == map_of(s).insert(x.key@, x.entry@),
        keys_unique(s.push(x)),
{
    assert(s.push(x).drop_last() =~= s);
}

impl View for MemoryDb {
    type V = Map<Seq<char>, EntryModel>;

    closed spec fn view(&self) -> Map<Seq<char>, EntryModel> {
        map_of(self.slots@)
    }
}

impl MemoryDb {
    /// The store's invariant: no key is held twice.
    pub closed spec fn wf(&self) -> bool {
        keys_unique(self.slots@)
    }

    /// An empty store.
    pub fn new() -> (r: Self)
        ensures
            r.wf(),
            r@ == Map::<Seq<char>, EntryModel>::empty(),
    {
        MemoryDb { slots: Vec::new() }
    }

    fn find(&self, key: &String) -> (r: Option<usize>)
        requires
            self.wf(),
        ensures
            r is None <==> !self@.contains_key(key@),
            r matches Some(i) ==> i < self.slots.len() && self.slots@[i as int].key@ == key@,
            r is None ==> forall|j: int|
                0 <= j < self.slots.len() ==> (#[trigger] self.slots@[j]).key@ != key@,
    {
        let mut i: usize = 0;
        while i < self.slots.len()
            invariant
                i <= self.slots.len(),
                self.wf(),
                forall|j: int| 0 <= j < i ==> (#[trigger] self.slots@[j]).key@ != key@,
            decreases self.slots.len() - i,
        {
            if self.slots[i].key == *key {
                proof {
                    lemma_present(self.slots@, i as int);
                }
                return Some(i);
            }
            i = i + 1;
        }
        proof {
            lemma_absent(self.slots@, key@);
        }
        None
    }

    /// Whether `key` is held, expired or not.
    pub fn has_key(&self, key: &String) -> (r: bool)
        requires
            self.wf(),
        ensures
            r == self@.contains_key(key@),
    {
        self.find(key).is_some()
    }

    fn put(&mut self, key: String, entry: DBValue)
        requires
            old(self).wf(),
        ensures
            final(self).wf(),
            final(self)@ == old(self)@.insert(key@, entry@),
    {
        let ghost k = key@;
        let ghost e = entry@;
        match self.find(&key) {
            Some(i) => {
                let slot = Slot { key, entry };
                proof {
                    lemma_update(self.slots@, i as int, slot);
                }
                self.slots.set(i, slot);
            },
            None => {
                let slot = Slot { key, entry };
                proof {
                    lemma_push(self.slots@, slot);
                }
                self.slots.push(slot);
            },
        }
    }

    /// Removes `key`, if held.
    pub fn remove(&mut self, key: &String)
        requires
            old(self).wf(),
        ensures
            final(self).wf(),
            final(self)@ == old(self)@.remove(key@),
    {
        match self.find(key) {
            Some(i) => {
                proof {
                    lemma_remove(self.slots@, i as int);
                }
                self.slots.remove(i);
            },
            None => {
                assert(self@ =~= self@.remove(key@));
            },
        }
    }

    /// Drops `key` if its deadline has passed at `now` (lazy expiry).
    pub fn purge(&mut self, key: &String, now: i64)
        requires
            old(self).wf(),
        ensures
            final(self).wf(),
            final(self)@ == purged(old(self)@, key@, now),
    {
        if let Some(i) = self.find(key) {
            proof {
                lemma_present(self.slots@, i as int);
            }
            let expired = match self.slots[i].entry.expiry {
                Expiry::Never => false,
                Expiry::At(t) => (t as i128) - (now as i128) < 0,
            };
            if expired {
                proof {
                    lemma_remove(self.slots@, i as int);
                }
                self.slots.remove(i);
            }
        }
    }

    /// The time to live of `key` at `now`: -2 when absent or expired (an
    /// expired entry is dropped), -1 when it never expires, else the seconds
    /// left.
    pub fn get_ttl(&mut self, key: &String, now: i64) -> (r: i64)
        requires
            old(self).wf(),
            now >= 0,
        ensures
            final(self).wf(),
            final(self)@ == purged(old(self)@, key@, now),
            r as int == ttl_of(old(self)@, key@, now),
    {
        self.purge(key, now);
        match self.find(key) {
            None => -2,
            Some(i) => {
                proof {
                    lemma_present(self.slots@, i as int);
                }
                match self.slots[i].entry.expiry {
                    Expiry::Never => -1,
                    Expiry::At(t) => t - now,
                }
            },
        }
    }

    /// The value of `key` at `now`, after lazy expiry; a read marks the entry
    /// as accessed at `now`.
    pub fn get(&mut self, key: &String, now: i64) -> (r: Option<Value>)
        requires
            old(self).wf(),
        ensures
            final(self).wf(),
            ({
                let m = purged(old(self)@, key@, now);
                &&& r is Some <==> m.contains_key(key@)
                &&& r matches Some(v) ==> v@ == m[key@].value
                &&& final(self)@ == if m.contains_key(key@) {
                    m.insert(key@, EntryModel { last_accessed: now, ..m[key@] })
                } else {
                    m
                }
            }),
    {
        self.purge(key, now);
        match self.find(key) {
            None => None,
            Some(i) => {
                proof {
                    lemma_present(self.slots@, i as int);
                }
                let ghost s0 = self.slots@;
                let mut slot = self.slots.remove(i);
                slot.entry.last_accessed = now;
                let v = slot.entry.value.duplicate();
                self.slots.insert(i, slot);
                proof {
                    assert(self.slots@ =~= s0.update(i as int, slot));
                    lemma_update(s0, i as int, slot);
                }
                Some(v)
            },
        }
    }

    /// Stores `value` under `key` with no expiry, stamped with `now`.
    pub fn set(&mut self, key: String, value: Value, now: i64)
        requires
            old(self).wf(),
        ensures
            final(self).wf(),
            final(self)@ == old(self)@.insert(
                key@,
                EntryModel {
                    expiry: Expiry::Never,
                    last_modified: now,
                    last_accessed: now,
                    value: value@,
                },
            ),
    {
        let entry = DBValue { expiry: Expiry::Never, last_modified: now, last_accessed: now, value };
        self.put(key, entry);
    }

    /// Sets the expiry of `key`, if held.
    pub fn set_ttl(&mut self, key: &String, expiry: Expiry)
        requires
            old(self).wf(),
        ensures
            final(self).wf(),
            final(self)@ == if old(self)@.contains_key(key@) {
                old(self)@.insert(key@, EntryModel { expiry, ..old(self)@[key@] })
            } else {
                old(self)@
            },
    {
        if let Some(i) = self.find(key) {
            proof {
                lemma_present(self.slots@, i as int);
            }
            let ghost s0 = self.slots@;
            let mut slot = self.slots.remove(i);
            slot.entry.expiry = expiry;
            self.slots.insert(i, slot);
            proof {
                assert(self.slots@ =~= s0.update(i as int, slot));
                lemma_update(s0, i as int, slot);
            }
        }
    }

    /// Moves the entry of `key` to `new_key`; nothing happens if `key` is not
    /// held.
    pub fn rename(&mut self, key: &String, new_key: &String)
        requires
            old(self).wf(),
        ensures
            final(self).wf(),
            final(self)@ == if old(self)@.contains_key(key@) {
                old(self)@.remove(key@).insert(new_key@, old(self)@[key@])
            } else {
                old(self)@
            },
    {
        if let Some(i) = self.find(key) {
            proof {
                lemma_present(self.slots@, i as int);
                lemma_remove(self.slots@, i as int);
            }
            let slot = self.slots.remove(i);
            self.put(new_key.clone(), slot.entry);
        }
    }

    /// Copies the entry of `key` to `new_key`; nothing happens if `key` is not
    /// held.
    pub fn copy(&mut self, key: &String, new_key: &String)
        requires
            old(self).wf(),
        ensures
            final(self).wf(),
            final(self)@ == if old(self)@.contains_key(key@) {
                old(self)@.insert(new_key@, old(self)@[key@])
            } else {
                old(self)@
            },
    {
        if let Some(i) = self.find(key) {
            proof {
                lemma_present(self.slots@, i as int);
            }
            let e = &self.slots[i].entry;
            let entry = DBValue {
                expiry: e.expiry,
                last_modified: e.last_modified,
                last_accessed: e.last_accessed,
                value: e.value.duplicate(),
            };
            self.put(new_key.clone(), entry);
        }
    }

    /// The value held under `key`, expired or not, without touching it.
    pub fn peek(&self, key: &String) -> (r: Option<Value>)
        requires
            self.wf(),
        ensures
            r is Some <==> self@.contains_key(key@),
            r matches Some(v) ==> v@ == self@[key@].value,
    {
        match self.find(key) {
            None => None,
            Some(i) => {
                proof {
                    lemma_present(self.slots@, i as int);
                }
                Some(self.slots[i].entry.value.duplicate())
            },
        }
    }

    /// Whether `key` is held and not expired at `now`.
    pub fn is_live(&self, key: &String, now: i64) -> (r: bool)
        requires
            self.wf(),
        ensures
            r == (ttl_of(self@, key@, now) != -2),
    {
        match self.find(key) {
            None => false,
            Some(i) => {
                proof {
                    lemma_present(self.slots@, i as int);
                }
                match self.slots[i].entry.expiry {
                    Expiry::Never => true,
                    Expiry::At(t) => (t as i128) - (now as i128) >= 0,
                }
            },
        }
    }
}

} // verus!
