//! A store of values that expire.
//!
//! Every entry carries the moment from which it counts as gone. A reader
//! never sees an entry at or after that moment, whether or not a sweep has
//! removed it yet. Time is a reading of a monotonic clock that the caller
//! passes in, in a unit of its choice; lifetimes are in the same unit.

use vstd::prelude::*;

verus! {

/// A value and the moment from which it counts as gone.
#[derive(Debug, Clone)]
pub struct Value<V> {
    pub value: V,
    pub expires: u64,
}

impl<V> Value<V> {
    /// A value that lives for `lifetime` from `now`.
    pub fn new(value: V, lifetime: u64, now: u64) -> (r: Self)
        requires
            now + lifetime <= u64::MAX,
        ensures
            r.value == value,
            r.expires == now + lifetime,
    {
        Value { value, expires: now + lifetime }
    }

    /// Whether the value counts as gone at `now`.
    pub open spec fn spec_is_expired_at(&self, now: u64) -> bool {
        self.expires <= now
    }

    /// Whether the value counts as gone at `now`.
    #[verifier::when_used_as_spec(spec_is_expired_at)]
    pub fn is_expired_at(&self, now: u64) -> (r: bool)
        ensures
            r == (self.expires <= now),
    {
        self.expires <= now
    }

    /// Makes the value live for `lifetime` from `now`.
    pub fn set_expiry(&mut self, lifetime: u64, now: u64)
        requires
            now + lifetime <= u64::MAX,
        ensures
            final(self).value == old(self).value,
            final(self).expires == now + lifetime,
    {
        self.expires = now + lifetime;
    }

    /// Makes the value live for `lifetime` longer.
    pub fn add_expiry(&mut self, lifetime: u64)
        requires
            old(self).expires + lifetime <= u64::MAX,
        ensures
            final(self).value == old(self).value,
            final(self).expires == old(self).expires + lifetime,
    {
        self.expires = self.expires + lifetime;
    }
}

/// Removes what has expired.
pub trait Cleanup {
    /// Removes every entry that counts as gone at `now`.
    fn cleanup(&mut self, now: u64);
}

/// One entry of the store.
struct Entry<V> {
    key: String,
    value: Value<V>,
}

/// Whether an entry of `entries` has the key `k`.
spec fn has_key<V>(entries: Seq<Entry<V>>, k: Seq<char>) -> bool {
    exists|i: int| 0 <= i < entries.len() && (#[trigger] entries[i]).key@ == k
}

/// Whether no two of `entries` share a key.
spec fn distinct<V>(entries: Seq<Entry<V>>) -> bool {
    forall|i: int, j: int|
        0 <= i < j < entries.len() ==> (#[trigger] entries[i]).key@ != (#[trigger] entries[j]).key@
}

/// The entries as a map from key to value.
spec fn model<V>(entries: Seq<Entry<V>>) -> Map<Seq<char>, Value<V>> {
    Map::new(
        |k: Seq<char>| has_key(entries, k),
        |k: Seq<char>|
            entries[choose|i: int| 0 <= i < entries.len() && (#[trigger] entries[i]).key@ == k].value,
    )
}

/// The part of `m` that is still there at `now`.
pub open spec fn live<V>(m: Map<Seq<char>, Value<V>>, now: u64) -> Map<Seq<char>, Value<V>> {
    Map::new(|k: Seq<char>| m.contains_key(k) && m[k].expires > now, |k: Seq<char>| m[k])
}

/// Whether `a` holds nothing but entries of `b`.
spec fn part_of<V>(a: Map<Seq<char>, Value<V>>, b: Map<Seq<char>, Value<V>>) -> bool {
    forall|k: Seq<char>| #[trigger] a.contains_key(k) ==> b.contains_key(k) && b[k] == a[k]
}

/// Whether `m` holds every key of `all` that is still there at `now`.
spec fn keeps_live<V>(
    all: Map<Seq<char>, Value<V>>,
    m: Map<Seq<char>, Value<V>>,
    now: u64,
) -> bool {
    forall|k: Seq<char>| #[trigger] all.contains_key(k) && all[k].expires > now ==> m.contains_key(k)
}

proof fn lemma_model_at<V>(entries: Seq<Entry<V>>, i: int)
    requires
        distinct(entries),
        0 <= i < entries.len(),
    ensures
        model(entries).contains_key(entries[i].key@),
        model(entries)[entries[i].key@] == entries[i].value,
{
    let k = entries[i].key@;
    let j = choose|j: int| 0 <= j < entries.len() && (#[trigger] entries[j]).key@ == k;
    assert(j == i);
}

proof fn lemma_model_update<V>(entries: Seq<Entry<V>>, at: int, entry: Entry<V>)
    requires
        distinct(entries),
        0 <= at < entries.len(),
        entries[at].key@ == entry.key@,
    ensures
        distinct(entries.update(at, entry)),
        model(entries.update(at, entry)) == model(entries).insert(entry.key@, entry.value),
{
    let after = entries.update(at, entry);
    assert forall|i: int, j: int| 0 <= i < j < after.len() implies (#[trigger] after[i]).key@ != (
    #[trigger] after[j]).key@ by {
        assert(after[i].key@ == entries[i].key@);
        assert(after[j].key@ == entries[j].key@);
    }
    let want = model(entries).insert(entry.key@, entry.value);
    assert forall|k: Seq<char>| model(after).contains_key(k) == want.contains_key(k) by {
        if has_key(after, k) {
            let i = choose|i: int| 0 <= i < after.len() && (#[trigger] after[i]).key@ == k;
            assert(entries[i].key@ == k);
        }
        if has_key(entries, k) {
            let i = choose|i: int| 0 <= i < entries.len() && (#[trigger] entries[i]).key@ == k;
            assert(after[i].key@ == k);
        }
        assert(after[at].key@ == entry.key@);
    }
    assert forall|k: Seq<char>| model(after).contains_key(k) implies model(after)[k] == want[k] by {
        let i = choose|i: int| 0 <= i < after.len() && (#[trigger] after[i]).key@ == k;
        lemma_model_at(after, i);
        if i != at {
            assert(entries[i].key@ == k);
            lemma_model_at(entries, i);
        }
    }
    assert(model(after) =~= want);
}

proof fn lemma_model_push<V>(entries: Seq<Entry<V>>, entry: Entry<V>)
    requires
        distinct(entries),
        !has_key(entries, entry.key@),
    ensures
        distinct(entries.push(entry)),
        model(entries.push(entry)) == model(entries).insert(entry.key@, entry.value),
{
    let after = entries.push(entry);
    let last = entries.len() as int;
    assert forall|i: int, j: int| 0 <= i < j < after.len() implies (#[trigger] after[i]).key@ != (
    #[trigger] after[j]).key@ by {
        assert(after[i] == entries[i]);
        if j < last {
            assert(after[j] == entries[j]);
        }
    }
    let want = model(entries).insert(entry.key@, entry.value);
    assert forall|k: Seq<char>| model(after).contains_key(k) == want.contains_key(k) by {
        if has_key(after, k) {
            let i = choose|i: int| 0 <= i < after.len() && (#[trigger] after[i]).key@ == k;
            if i < last {
                assert(entries[i].key@ == k);
            }
        }
        if has_key(entries, k) {
            let i = choose|i: int| 0 <= i < entries.len() && (#[trigger] entries[i]).key@ == k;
            assert(after[i].key@ == k);
        }
        assert(after[last].key@ == entry.key@);
    }
    assert forall|k: Seq<char>| model(after).contains_key(k) implies model(after)[k] == want[k] by {
        let i = choose|i: int| 0 <= i < after.len() && (#[trigger] after[i]).key@ == k;
        lemma_model_at(after, i);
        if i < last {
            assert(entries[i].key@ == k);
            lemma_model_at(entries, i);
        }
    }
    assert(model(after) =~= want);
}

proof fn lemma_model_remove<V>(entries: Seq<Entry<V>>, at: int)
    requires
        distinct(entries),
        0 <= at < entries.len(),
    ensures
        distinct(entries.remove(at)),
        model(entries.remove(at)) == model(entries).remove(entries[at].key@),
{
    let after = entries.remove(at);
    let gone = entries[at].key@;
    assert forall|i: int| 0 <= i < after.len() implies #[trigger] after[i] == entries[if i < at {
        i
    } else {
        i + 1
    }] by {}
    assert forall|i: int, j: int| 0 <= i < j < after.len() implies (#[trigger] after[i]).key@ != (
    #[trigger] after[j]).key@ by {
        let a = if i < at { i } else { i + 1 };
        let b = if j < at { j } else { j + 1 };
        assert(after[i] == entries[a]);
        assert(after[j] == entries[b]);
    }
    let want = model(entries).remove(gone);
    assert forall|k: Seq<char>| model(after).contains_key(k) == want.contains_key(k) by {
        if has_key(after, k) {
            let i = choose|i: int| 0 <= i < after.len() && (#[trigger] after[i]).key@ == k;
            let a = if i < at { i } else { i + 1 };
            assert(after[i] == entries[a]);
            assert(entries[a].key@ == k);
            assert(a != at);
            if a < at {
                assert(entries[a].key@ != entries[at].key@);
            } else {
                assert(entries[at].key@ != entries[a].key@);
            }
        }
        if has_key(entries, k) && k != gone {
            let a = choose|a: int| 0 <= a < entries.len() && (#[trigger] entries[a]).key@ == k;
            let i = if a < at { a } else { a - 1 };
            assert(after[i] == entries[a]);
            assert(after[i].key@ == k);
        }
    }
    assert forall|k: Seq<char>| model(after).contains_key(k) implies model(after)[k] == want[k] by {
        let i = choose|i: int| 0 <= i < after.len() && (#[trigger] after[i]).key@ == k;
        let a = if i < at { i } else { i + 1 };
        assert(after[i] == entries[a]);
        lemma_model_at(after, i);
        lemma_model_at(entries, a);
    }
    assert(model(after) =~= want);
}

/// A map from text keys to values that expire.
pub struct TimedMap<V> {
    entries: Vec<Entry<V>>,
}

impl<V> TimedMap<V> {
    #[verifier::type_invariant]
    spec fn distinct_keys(&self) -> bool {
        distinct(self.entries@)
    }

    /// Every entry that was put in and not yet removed, expired or not.
    pub closed spec fn view(&self) -> Map<Seq<char>, Value<V>> {
        model(self.entries@)
    }

    /// An empty store.
    pub fn new() -> (map: Self)
        ensures
            map@ == Map::<Seq<char>, Value<V>>::empty(),
    {
        let map = TimedMap { entries: Vec::new() };
        assert(map@ =~= Map::<Seq<char>, Value<V>>::empty());
        map
    }

    fn position(&self, key: &str) -> (r: Option<usize>)
        ensures
            match r {
                Some(i) => i < self.entries@.len() && self.entries@[i as int].key@ == key@,
                None => !has_key(self.entries@, key@),
            },
    {
        let wanted = crate::text::chars_of(key);
        let mut i: usize = 0;
        while i < self.entries.len()
            invariant
                i <= self.entries@.len(),
                wanted@ == key@,
                forall|j: int| 0 <= j < i ==> (#[trigger] self.entries@[j]).key@ != key@,
            decreases self.entries.len() - i,
        {
            let have = crate::text::chars_of(self.entries[i].key.as_str());
            if crate::text::same_chars(have.as_slice(), wanted.as_slice()) {
                return Some(i);
            }
            i += 1;
        }
        None
    }

    /// Puts `value` under `key` for `lifetime` from `now`, in place of
    /// whatever `key` held.
    pub fn insert(&mut self, key: String, value: V, lifetime: u64, now: u64)
        requires
            now + lifetime <= u64::MAX,
        ensures
            final(self)@ == old(self)@.insert(
                key@,
                Value { value, expires: (now + lifetime) as u64 },
            ),
    {
        proof {
            use_type_invariant(&*self);
        }
        let entry = Entry { key, value: Value { value, expires: now + lifetime } };
        self.put(entry);
    }

    /// Takes the entries out, leaving none behind.
    fn take_entries(&mut self) -> (entries: Vec<Entry<V>>)
        ensures
            entries@ == old(self).entries@,
            distinct(entries@),
            final(self).entries@.len() == 0,
    {
        proof {
            use_type_invariant(&*self);
        }
        let mut entries: Vec<Entry<V>> = Vec::new();
        core::mem::swap(&mut self.entries, &mut entries);
        entries
    }

    fn put(&mut self, entry: Entry<V>)
        ensures
            final(self)@ == old(self)@.insert(entry.key@, entry.value),
    {
        let found = self.position(entry.key.as_str());
        let mut entries = self.take_entries();
        let ghost before = entries@;
        match found {
            Some(at) => {
                proof {
                    lemma_model_update(before, at as int, entry);
                    assert(before.remove(at as int).insert(at as int, entry) =~= before.update(
                        at as int,
                        entry,
                    ));
                }
                let _ = entries.remove(at);
                entries.insert(at, entry);
            },
            None => {
                proof {
                    lemma_model_push(before, entry);
                }
                entries.push(entry);
            },
        }
        self.entries = entries;
    }
}

impl<V> TimedMap<V> {
    /// Removes `key` and hands out what it held, unless that had expired.
    pub fn remove(&mut self, key: &str, now: u64) -> (r: Option<V>)
        ensures
            final(self)@ == old(self)@.remove(key@),
            r == if old(self)@.contains_key(key@) && old(self)@[key@].expires > now {
                Some(old(self)@[key@].value)
            } else {
                None
            },
    {
        let found = self.position(key);
        let mut entries = self.take_entries();
        let ghost before = entries@;
        let r = match found {
            Some(at) => {
                proof {
                    lemma_model_at(before, at as int);
                    lemma_model_remove(before, at as int);
                }
                let entry = entries.remove(at);
                if entry.value.expires > now {
                    Some(entry.value.value)
                } else {
                    None
                }
            },
            None => {
                assert(model(before).remove(key@) =~= model(before));
                None
            },
        };
        self.entries = entries;
        r
    }

    /// Makes the value under `key` live for `new_lifetime` from `now`, and
    /// tells whether there was a value to do so for. An expired one is
    /// removed instead.
    pub fn refresh(&mut self, key: &str, new_lifetime: u64, now: u64) -> (r: bool)
        requires
            now + new_lifetime <= u64::MAX,
        ensures
            r == (old(self)@.contains_key(key@) && old(self)@[key@].expires > now),
            final(self)@ == if r {
                old(self)@.insert(
                    key@,
                    Value { value: old(self)@[key@].value, expires: (now + new_lifetime) as u64 },
                )
            } else {
                old(self)@.remove(key@)
            },
    {
        self.reschedule(key, now, now, new_lifetime)
    }

    /// Makes the value under `key` live for `added_lifetime` longer, and
    /// tells whether there was a value to do so for. An expired one is
    /// removed instead.
    pub fn extend(&mut self, key: &str, added_lifetime: u64, now: u64) -> (r: bool)
        requires
            old(self)@.contains_key(key@) ==> old(self)@[key@].expires + added_lifetime
                <= u64::MAX,
        ensures
            r == (old(self)@.contains_key(key@) && old(self)@[key@].expires > now),
            final(self)@ == if r {
                old(self)@.insert(
                    key@,
                    Value {
                        value: old(self)@[key@].value,
                        expires: (old(self)@[key@].expires + added_lifetime) as u64,
                    },
                )
            } else {
                old(self)@.remove(key@)
            },
    {
        let base = match self.expiry_of(key) {
            Some(expires) => expires,
            None => 0,
        };
        self.reschedule(key, now, base, added_lifetime)
    }

    /// The moment from which the value under `key` counts as gone.
    pub fn expiry_of(&self, key: &str) -> (r: Option<u64>)
        ensures
            r == if self@.contains_key(key@) {
                Some(self@[key@].expires)
            } else {
                None
            },
    {
        proof {
            use_type_invariant(self);
        }
        match self.position(key) {
            Some(at) => {
                proof {
                    lemma_model_at(self.entries@, at as int);
                }
                Some(self.entries[at].value.expires)
            },
            None => None,
        }
    }

    /// Sets the expiry of a live value under `key` to `base + lifetime`;
    /// removes an expired one.
    fn reschedule(&mut self, key: &str, now: u64, base: u64, lifetime: u64) -> (r: bool)
        requires
            base + lifetime <= u64::MAX,
        ensures
            r == (old(self)@.contains_key(key@) && old(self)@[key@].expires > now),
            final(self)@ == if r {
                old(self)@.insert(
                    key@,
                    Value { value: old(self)@[key@].value, expires: (base + lifetime) as u64 },
                )
            } else {
                old(self)@.remove(key@)
            },
    {
        let found = self.position(key);
        let mut entries = self.take_entries();
        let ghost before = entries@;
        let r = match found {
            Some(at) => {
                proof {
                    lemma_model_at(before, at as int);
                    lemma_model_remove(before, at as int);
                }
                let entry = entries.remove(at);
                if entry.value.expires > now {
                    let renewed = Entry {
                        key: entry.key,
                        value: Value { value: entry.value.value, expires: base + lifetime },
                    };
                    proof {
                        lemma_model_update(before, at as int, renewed);
                        assert(before.remove(at as int).insert(at as int, renewed)
                            =~= before.update(at as int, renewed));
                    }
                    entries.insert(at, renewed);
                    true
                } else {
                    false
                }
            },
            None => {
                assert(model(before).remove(key@) =~= model(before));
                false
            },
        };
        self.entries = entries;
        r
    }

    /// Removes every entry.
    pub fn clear(&mut self)
        ensures
            final(self)@ == Map::<Seq<char>, Value<V>>::empty(),
    {
        let _ = self.take_entries();
        assert(self@ =~= Map::<Seq<char>, Value<V>>::empty());
    }

    /// How many entries are still there at `now`.
    pub fn len(&self, now: u64) -> (n: usize)
        ensures
            live(self@, now).dom().finite(),
            n == live(self@, now).dom().len(),
    {
        proof {
            use_type_invariant(self);
        }
        let mut n: usize = 0;
        let mut i: usize = 0;
        let ghost mut seen: Set<Seq<char>> = Set::empty();
        while i < self.entries.len()
            invariant
                i <= self.entries@.len(),
                n <= i,
                distinct(self.entries@),
                seen.finite(),
                seen.len() == n,
                forall|k: Seq<char>|
                    seen.contains(k) <==> exists|j: int|
                        0 <= j < i && (#[trigger] self.entries@[j]).key@ == k
                            && self.entries@[j].value.expires > now,
            decreases self.entries.len() - i,
        {
            let ghost key = self.entries@[i as int].key@;
            if self.entries[i].value.expires > now {
                proof {
                    assert(!seen.contains(key)) by {
                        if seen.contains(key) {
                            let j = choose|j: int|
                                0 <= j < i && (#[trigger] self.entries@[j]).key@ == key
                                    && self.entries@[j].value.expires > now;
                            assert(self.entries@[j].key@ != self.entries@[i as int].key@);
                        }
                    }
                    let grown = seen.insert(key);
                    assert forall|k: Seq<char>|
                        grown.contains(k) <==> exists|j: int|
                            0 <= j < i + 1 && (#[trigger] self.entries@[j]).key@ == k
                                && self.entries@[j].value.expires > now by {
                        if grown.contains(k) {
                            if k == key {
                                assert(self.entries@[i as int].key@ == k);
                            } else {
                                let j = choose|j: int|
                                    0 <= j < i && (#[trigger] self.entries@[j]).key@ == k
                                        && self.entries@[j].value.expires > now;
                                assert(self.entries@[j].key@ == k);
                            }
                        }
                    }
                    seen = grown;
                }
                n += 1;
            } else {
                proof {
                    assert forall|k: Seq<char>|
                        seen.contains(k) <==> exists|j: int|
                            0 <= j < i + 1 && (#[trigger] self.entries@[j]).key@ == k
                                && self.entries@[j].value.expires > now by {
                        if seen.contains(k) {
                            let j = choose|j: int|
                                0 <= j < i && (#[trigger] self.entries@[j]).key@ == k
                                    && self.entries@[j].value.expires > now;
                            assert(self.entries@[j].key@ == k);
                        }
                    }
                }
            }
            i += 1;
        }
        proof {
            assert forall|k: Seq<char>| seen.contains(k) == live(self@, now).dom().contains(k) by {
                if seen.contains(k) {
                    let j = choose|j: int|
                        0 <= j < i && (#[trigger] self.entries@[j]).key@ == k
                            && self.entries@[j].value.expires > now;
                    lemma_model_at(self.entries@, j);
                }
                if live(self@, now).dom().contains(k) {
                    let j = choose|j: int|
                        0 <= j < self.entries@.len() && (#[trigger] self.entries@[j]).key@ == k;
                    lemma_model_at(self.entries@, j);
                }
            }
            assert(seen =~= live(self@, now).dom());
        }
        n
    }

    /// Whether no entry is still there at `now`.
    pub fn is_empty(&self, now: u64) -> (r: bool)
        ensures
            r == (live(self@, now) == Map::<Seq<char>, Value<V>>::empty()),
    {
        let n = self.len(now);
        proof {
            if n == 0 {
                assert(live(self@, now).dom() =~= Set::<Seq<char>>::empty());
                assert(live(self@, now) =~= Map::<Seq<char>, Value<V>>::empty());
            } else {
                assert(live(self@, now).dom().len() != 0);
                assert(Map::<Seq<char>, Value<V>>::empty().dom() =~= Set::<Seq<char>>::empty());
            }
        }
        n == 0
    }

    /// Removes every entry that counts as gone at `now`.
    pub fn sweep(&mut self, now: u64)
        ensures
            final(self)@ == live(old(self)@, now),
    {
        let mut entries = self.take_entries();
        let ghost start = model(entries@);
        let mut i: usize = 0;
        while i < entries.len()
            invariant
                i <= entries@.len(),
                distinct(entries@),
                forall|j: int| 0 <= j < i ==> (#[trigger] entries@[j]).value.expires > now,
                part_of(model(entries@), start),
                keeps_live(start, model(entries@), now),
            decreases entries.len() - i,
        {
            if entries[i].value.expires <= now {
                let ghost before = entries@;
                proof {
                    lemma_model_at(before, i as int);
                    lemma_model_remove(before, i as int);
                }
                let _ = entries.remove(i);
                proof {
                    let gone = before[i as int].key@;
                    assert(model(entries@) == model(before).remove(gone));
                    assert forall|j: int| 0 <= j < i implies (#[trigger] entries@[j]).value.expires
                        > now by {
                        assert(entries@[j] == before[j]);
                    }
                    assert forall|k: Seq<char>| #[trigger]
                        model(entries@).contains_key(k) implies start.contains_key(k) && start[k]
                        == model(entries@)[k] by {
                        assert(model(before).contains_key(k));
                    }
                    assert forall|k: Seq<char>| #[trigger]
                        start.contains_key(k) && start[k].expires > now implies model(
                        entries@,
                    ).contains_key(k) by {
                        assert(model(before).contains_key(k));
                        if k == gone {
                            assert(start[k] == model(before)[k]);
                        }
                    }
                }
            } else {
                i += 1;
            }
        }
        proof {
            let after = model(entries@);
            assert forall|k: Seq<char>| after.contains_key(k) == live(start, now).contains_key(
                k,
            ) by {
                if after.contains_key(k) {
                    let j = choose|j: int|
                        0 <= j < entries@.len() && (#[trigger] entries@[j]).key@ == k;
                    lemma_model_at(entries@, j);
                    assert(start.contains_key(k) && start[k] == after[k]);
                }
                if live(start, now).contains_key(k) {
                    assert(start.contains_key(k) && start[k].expires > now);
                }
            }
            assert forall|k: Seq<char>| after.contains_key(k) implies after[k] == live(
                start,
                now,
            )[k] by {
                assert(start.contains_key(k) && start[k] == after[k]);
            }
            assert(after =~= live(start, now));
        }
        self.entries = entries;
    }
}

impl<V> Cleanup for TimedMap<V> {
    fn cleanup(&mut self, now: u64)
        ensures
            final(self)@ == live(old(self)@, now),
    {
        self.sweep(now);
    }
}

impl<V: Clone> TimedMap<V> {
    /// A copy of what `key` holds, expired or not.
    pub fn get_value_unchecked(&self, key: &str) -> (r: Option<Value<V>>)
        ensures
            match r {
                Some(found) => {
                    &&& self@.contains_key(key@)
                    &&& cloned(self@[key@].value, found.value)
                    &&& found.expires == self@[key@].expires
                },
                None => !self@.contains_key(key@),
            },
    {
        proof {
            use_type_invariant(self);
        }
        match self.position(key) {
            Some(at) => {
                proof {
                    lemma_model_at(self.entries@, at as int);
                }
                let value = self.entries[at].value.value.clone();
                Some(Value { value, expires: self.entries[at].value.expires })
            },
            None => None,
        }
    }

    /// A copy of what `key` holds, unless that has expired at `now`; an
    /// expired entry is removed.
    pub fn get_value(&mut self, key: &str, now: u64) -> (r: Option<Value<V>>)
        ensures
            r is Some <==> old(self)@.contains_key(key@) && old(self)@[key@].expires > now,
            r matches Some(found) ==> cloned(old(self)@[key@].value, found.value)
                && found.expires == old(self)@[key@].expires,
            final(self)@ == if r is Some {
                old(self)@
            } else {
                old(self)@.remove(key@)
            },
    {
        match self.get_value_unchecked(key) {
            Some(found) => {
                if found.expires <= now {
                    let _ = self.remove(key, now);
                    None
                } else {
                    Some(found)
                }
            },
            None => {
                assert(self@.remove(key@) =~= self@);
                None
            },
        }
    }

    /// A copy of the value under `key`. There is none from the moment the
    /// entry expires, whether or not it has been swept; asking removes an
    /// expired entry.
    pub fn get(&mut self, key: &str, now: u64) -> (r: Option<V>)
        ensures
            r is Some <==> old(self)@.contains_key(key@) && old(self)@[key@].expires > now,
            r matches Some(value) ==> cloned(old(self)@[key@].value, value),
            final(self)@ == if r is Some {
                old(self)@
            } else {
                old(self)@.remove(key@)
            },
    {
        match self.get_value(key, now) {
            Some(found) => Some(found.value),
            None => None,
        }
    }

    /// Whether `key` holds a value that has not expired at `now`; asking
    /// removes an expired entry.
    pub fn contains(&mut self, key: &str, now: u64) -> (r: bool)
        ensures
            r == (old(self)@.contains_key(key@) && old(self)@[key@].expires > now),
            final(self)@ == if r {
                old(self)@
            } else {
                old(self)@.remove(key@)
            },
    {
        self.get(key, now).is_some()
    }

    /// Copies of the entries that are still there at `now`, each key once.
    pub fn snapshot(&self, now: u64) -> (out: Vec<(String, V)>)
        ensures
            forall|a: int|
                0 <= a < out@.len() ==> live(self@, now).contains_key((#[trigger] out@[a]).0@)
                    && cloned(self@[out@[a].0@].value, out@[a].1),
            forall|k: Seq<char>|
                live(self@, now).contains_key(k) ==> exists|a: int|
                    0 <= a < out@.len() && (#[trigger] out@[a]).0@ == k,
            forall|a: int, b: int|
                0 <= a < b < out@.len() ==> (#[trigger] out@[a]).0@ != (#[trigger] out@[b]).0@,
    {
        proof {
            use_type_invariant(self);
        }
        let mut out: Vec<(String, V)> = Vec::new();
        let mut i: usize = 0;
        // `from[a]` is where the entry copied to `out[a]` stands.
        let ghost mut from: Seq<int> = Seq::empty();
        while i < self.entries.len()
            invariant
                i <= self.entries@.len(),
                from.len() == out@.len(),
                forall|a: int|
                    0 <= a < from.len() ==> 0 <= #[trigger] from[a] < i && copy_of(
                        self.entries@[from[a]],
                        out@[a],
                        now,
                    ),
                forall|a: int, b: int|
                    0 <= a < b < from.len() ==> #[trigger] from[a] < #[trigger] from[b],
                forall|j: int|
                    0 <= j < i && (#[trigger] self.entries@[j]).value.expires > now
                        ==> from.contains(j),
            decreases self.entries.len() - i,
        {
            if self.entries[i].value.expires > now {
                let key = self.entries[i].key.clone();
                let value = self.entries[i].value.value.clone();
                let ghost before = out@;
                let ghost sources = from;
                out.push((key, value));
                proof {
                    from = sources.push(i as int);
                    assert forall|a: int| 0 <= a < from.len() implies 0 <= #[trigger] from[a] < i
                        + 1 && copy_of(self.entries@[from[a]], out@[a], now) by {
                        if a < sources.len() {
                            assert(from[a] == sources[a]);
                            assert(out@[a] == before[a]);
                        }
                    }
                    assert forall|j: int|
                        0 <= j < i + 1 && (#[trigger] self.entries@[j]).value.expires
                            > now implies from.contains(j) by {
                        if j < i {
                            let a = choose|a: int| 0 <= a < sources.len() && sources[a] == j;
                            assert(from[a] == j);
                        } else {
                            assert(from[sources.len() as int] == j);
                        }
                    }
                }
            }
            i += 1;
        }
        proof {
            assert forall|a: int| 0 <= a < out@.len() implies live(self@, now).contains_key(
                (#[trigger] out@[a]).0@,
            ) && cloned(self@[out@[a].0@].value, out@[a].1) by {
                assert(copy_of(self.entries@[from[a]], out@[a], now));
                lemma_model_at(self.entries@, from[a]);
            }
            assert forall|k: Seq<char>| live(self@, now).contains_key(k) implies exists|a: int|
                0 <= a < out@.len() && (#[trigger] out@[a]).0@ == k by {
                let j = choose|j: int|
                    0 <= j < self.entries@.len() && (#[trigger] self.entries@[j]).key@ == k;
                lemma_model_at(self.entries@, j);
                assert(self.entries@[j].value.expires > now);
                let a = choose|a: int| 0 <= a < from.len() && from[a] == j;
                assert(copy_of(self.entries@[from[a]], out@[a], now));
                assert(out@[a].0@ == k);
            }
            assert forall|a: int, b: int| 0 <= a < b < out@.len() implies (
            #[trigger] out@[a]).0@ != (#[trigger] out@[b]).0@ by {
                assert(copy_of(self.entries@[from[a]], out@[a], now));
                assert(copy_of(self.entries@[from[b]], out@[b], now));
                assert(from[a] < from[b]);
                assert(self.entries@[from[a]].key@ != self.entries@[from[b]].key@);
            }
        }
        out
    }
}

/// Whether `pair` is a copy of `entry`, which is still there at `now`.
spec fn copy_of<V: Clone>(entry: Entry<V>, pair: (String, V), now: u64) -> bool {
    &&& entry.key@ == pair.0@
    &&& entry.value.expires > now
    &&& cloned(entry.value.value, pair.1)
}

/// An entry put in at `put_at` for `lifetime` is there for a reader until
/// `lifetime` has passed, and gone from that moment on, swept or not.
pub proof fn lemma_entry_lifetime<V>(
    m: Map<Seq<char>, Value<V>>,
    key: Seq<char>,
    value: V,
    lifetime: u64,
    put_at: u64,
    now: u64,
)
    requires
        put_at + lifetime <= u64::MAX,
    ensures
        live(m.insert(key, Value { value, expires: (put_at + lifetime) as u64 }), now).contains_key(
            key,
        ) <==> now < put_at + lifetime,
{
}

/// A sweep takes nothing from a later reader: what is there at `now` is the
/// same whether or not the store was swept at an earlier `swept_at`.
pub proof fn lemma_sweep_unseen<V>(m: Map<Seq<char>, Value<V>>, swept_at: u64, now: u64)
    requires
        swept_at <= now,
    ensures
        live(live(m, swept_at), now) == live(m, now),
{
    assert(live(live(m, swept_at), now) =~= live(m, now));
}

} // verus!
