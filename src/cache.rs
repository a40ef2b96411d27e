//! Caching policy in front of a pool.

use vstd::prelude::*;

verus! {

/// A read-through / write-through layer with time-based expiry. Times are
/// whole ticks of the caller's clock.
pub trait Cache<K, V> {
    /// The cached value of `key`, if it is held and not expired.
    fn fetch(&mut self, key: K) -> Option<V>;

    /// Holds `value` for `key`.
    fn put(&mut self, key: K, value: V);

    /// Sets (`Some`) or clears (`None`) the time-to-live of `key`; `false`
    /// where `key` is not held.
    fn expire(&mut self, key: K, timeout: Option<u64>) -> bool;
}

/// The cache that holds nothing: every fetch misses and falls through.
#[derive(Debug, Clone, Copy, Default)]
pub struct NoCache;

impl<K, V> Cache<K, V> for NoCache {
    fn fetch(&mut self, key: K) -> Option<V> {
        None
    }

    fn put(&mut self, key: K, value: V) {
    }

    fn expire(&mut self, key: K, timeout: Option<u64>) -> bool {
        false
    }
}

/// Whether a held value with the given deadline is still fresh at `now`.
pub open spec fn is_fresh(deadline: Option<u64>, now: u64) -> bool {
    match deadline {
        None => true,
        Some(d) => now < d,
    }
}

/// The deadline that a time-to-live of `timeout` ticks set at `now` gives;
/// `None` clears it. A deadline past the clock's range saturates.
pub open spec fn deadline_of(now: u64, timeout: Option<u64>) -> Option<u64> {
    match timeout {
        None => None,
        Some(t) => Some(
            if now + t > u64::MAX {
                u64::MAX
            } else {
                (now + t) as u64
            },
        ),
    }
}

/// The value and deadline held for `key` among `entries`: those of the
/// last entry with that key.
pub open spec fn held_of<V>(entries: Seq<(u64, V, Option<u64>)>, key: u64) -> Option<(V, Option<u64>)>
    decreases entries.len(),
{
    if entries.len() == 0 {
        None
    } else if entries.last().0 == key {
        Some((entries.last().1, entries.last().2))
    } else {
        held_of(entries.drop_last(), key)
    }
}

/// Replacing the last entry of a key changes what that key holds and
/// nothing else.
proof fn lemma_replace_last<V>(entries: Seq<(u64, V, Option<u64>)>, i: int, e: (u64, V, Option<u64>), key: u64)
    requires
        0 <= i < entries.len(),
        entries[i].0 == e.0,
        forall|j: int| i < j < entries.len() ==> #[trigger] entries[j].0 != e.0,
    ensures
        held_of(entries.update(i, e), key) == if key == e.0 {
            Some((e.1, e.2))
        } else {
            held_of(entries, key)
        },
    decreases entries.len(),
{
    let next = entries.update(i, e);
    assert(next.drop_last() =~= if i == entries.len() - 1 {
        entries.drop_last()
    } else {
        entries.drop_last().update(i, e)
    });
    if i < entries.len() - 1 {
        assert(entries.last().0 != e.0);
        lemma_replace_last(entries.drop_last(), i, e, key);
    }
}

/// A cache of values by integer key, each with an optional deadline on the
/// cache's own clock, which the owner advances.
pub struct TtlCache<V> {
    entries: Vec<(u64, V, Option<u64>)>,
    now: u64,
}

impl<V: Copy> TtlCache<V> {
    /// The value and deadline held for `key`, if any.
    pub closed spec fn spec_held(&self, key: u64) -> Option<(V, Option<u64>)> {
        held_of(self.entries@, key)
    }

    pub closed spec fn spec_now(&self) -> u64 {
        self.now
    }

    pub fn new() -> (r: TtlCache<V>)
        ensures
            forall|k: u64| r.spec_held(k) == None::<(V, Option<u64>)>,
            r.spec_now() == 0,
    {
        TtlCache { entries: Vec::new(), now: 0 }
    }

    /// Moves the clock to `now`.
    pub fn tick(&mut self, now: u64)
        ensures
            forall|k: u64| final(self).spec_held(k) == old(self).spec_held(k),
            final(self).spec_now() == now,
    {
        self.now = now;
    }

    /// The position of the last entry of `key`.
    fn find(&self, key: u64) -> (r: Option<usize>)
        ensures
            match r {
                Some(i) => i < self.entries@.len() && self.entries@[i as int].0 == key && forall|
                    j: int,
                | i < j < self.entries@.len() ==> #[trigger] self.entries@[j].0 != key,
                None => held_of(self.entries@, key) == None::<(V, Option<u64>)>,
            },
    {
        let mut i: usize = self.entries.len();
        assert(self.entries@.subrange(0, i as int) =~= self.entries@);
        while i > 0
            invariant
                i <= self.entries@.len(),
                forall|j: int| i <= j < self.entries@.len() ==> #[trigger] self.entries@[j].0 != key,
                held_of(self.entries@, key) == held_of(self.entries@.subrange(0, i as int), key),
            decreases i,
        {
            if self.entries[i - 1].0 == key {
                return Some(i - 1);
            }
            assert(self.entries@.subrange(0, i as int).drop_last() =~= self.entries@.subrange(
                0,
                i - 1,
            ));
            i = i - 1;
        }
        None
    }

    /// The value of `key` where it is held and fresh.
    pub fn get(&self, key: u64) -> (r: Option<V>)
        ensures
            r == match self.spec_held(key) {
                Some((value, deadline)) => if is_fresh(deadline, self.spec_now()) {
                    Some(value)
                } else {
                    None
                },
                None => None,
            },
    {
        match self.find(key) {
            None => None,
            Some(i) => {
                proof {
                    lemma_replace_last(self.entries@, i as int, self.entries@[i as int], key);
                    assert(self.entries@.update(i as int, self.entries@[i as int]) =~= self.entries@);
                }
                let (_, value, deadline) = self.entries[i];
                let fresh = match deadline {
                    None => true,
                    Some(d) => self.now < d,
                };
                if fresh {
                    Some(value)
                } else {
                    None
                }
            },
        }
    }

    /// Holds `value` for `key` with no deadline, replacing what was held.
    pub fn insert(&mut self, key: u64, value: V)
        ensures
            forall|k: u64|
                #[trigger] final(self).spec_held(k) == if k == key {
                    Some((value, None::<u64>))
                } else {
                    old(self).spec_held(k)
                },
            final(self).spec_now() == old(self).spec_now(),
    {
        let e = (key, value, None);
        match self.find(key) {
            Some(i) => {
                proof {
                    assert forall|k: u64|
                        #[trigger] held_of(self.entries@.update(i as int, e), k) == if k == key {
                            Some((value, None::<u64>))
                        } else {
                            held_of(self.entries@, k)
                        } by {
                        lemma_replace_last(self.entries@, i as int, e, k);
                    }
                }
                self.entries[i] = e;
            },
            None => {
                let ghost before = self.entries@;
                self.entries.push(e);
                assert(self.entries@.drop_last() =~= before);
            },
        }
    }

    /// Sets (`Some`) or clears (`None`) the deadline of `key`, counted from
    /// the clock's present time; `false`, changing nothing, where `key` is
    /// not held.
    pub fn set_ttl(&mut self, key: u64, timeout: Option<u64>) -> (r: bool)
        ensures
            r == old(self).spec_held(key).is_some(),
            forall|k: u64|
                #[trigger] final(self).spec_held(k) == if r && k == key {
                    Some((old(self).spec_held(key).unwrap().0, deadline_of(old(self).spec_now(), timeout)))
                } else {
                    old(self).spec_held(k)
                },
            final(self).spec_now() == old(self).spec_now(),
    {
        match self.find(key) {
            None => false,
            Some(i) => {
                let deadline = match timeout {
                    None => None,
                    Some(t) => Some(self.now.saturating_add(t)),
                };
                let value = self.entries[i].1;
                let e = (key, value, deadline);
                proof {
                    lemma_replace_last(self.entries@, i as int, self.entries@[i as int], key);
                    assert(self.entries@.update(i as int, self.entries@[i as int]) =~= self.entries@);
                    assert forall|k: u64|
                        #[trigger] held_of(self.entries@.update(i as int, e), k) == if k == key {
                            Some((value, deadline))
                        } else {
                            held_of(self.entries@, k)
                        } by {
                        lemma_replace_last(self.entries@, i as int, e, k);
                    }
                }
                self.entries[i] = e;
                true
            },
        }
    }
}

impl<V: Copy> Cache<u64, V> for TtlCache<V> {
    fn fetch(&mut self, key: u64) -> Option<V> {
        self.get(key)
    }

    fn put(&mut self, key: u64, value: V) {
        self.insert(key, value)
    }

    fn expire(&mut self, key: u64, timeout: Option<u64>) -> bool {
        self.set_ttl(key, timeout)
    }
}

} // verus!
