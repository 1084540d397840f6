//! The expiring counter cache.

use vstd::prelude::*;
use vstd::hash_map::StringHashMap;
use vstd::string::*;
use crate::entry::CacheEntry;
use crate::model::{count_of, counted, expired, swept, touched};

verus! {

/// How entries leave the cache.
#[derive(Clone, Copy, Debug, PartialEq, Eq, Structural)]
pub enum ExpiryStrategy {
    /// Each key is removed by a one-shot timer that is set when the key is
    /// first counted and never moved: a fixed window per key.
    Deferred,
    /// A periodic sweep removes every entry that has been idle for the whole
    /// window: a sliding window per key.
    Sweep,
}

/// What one touch of a key gave.
#[derive(Clone, Copy, Debug, PartialEq, Eq, Structural)]
pub struct Touch {
    /// The key's count after the touch.
    pub count: u32,
    /// Whether the touch created the entry.
    pub inserted: bool,
    /// The delay in milliseconds after which the caller must run `expire` for
    /// the key, where the touch asks for a timer.
    pub expire_after: Option<u128>,
}

/// Counts per key, with the time of each key's last touch.
///
/// The keys are held twice: in the hash map, which answers a touch, and in a
/// list, which lets a sweep walk them.
pub struct ExpiringCounterCache {
    entries: StringHashMap<CacheEntry>,
    keys: Vec<String>,
    ttl: u128,
    strategy: ExpiryStrategy,
}

impl View for ExpiringCounterCache {
    type V = Map<Seq<char>, CacheEntry>;

    closed spec fn view(&self) -> Map<Seq<char>, CacheEntry> {
        self.entries@
    }
}

/// No two places of `keys` hold the same key.
spec fn distinct(keys: Seq<String>) -> bool {
    forall|i: int, j: int| 0 <= i < j < keys.len() ==> (#[trigger] keys[i])@ != (#[trigger] keys[j])@
}

/// Some place of `keys` holds `key`.
spec fn listed(keys: Seq<String>, key: Seq<char>) -> bool {
    exists|i: int| 0 <= i < keys.len() && (#[trigger] keys[i])@ == key
}

/// `keys` lists the keys of `entries`, each once.
spec fn indexes(keys: Seq<String>, entries: Map<Seq<char>, CacheEntry>) -> bool {
    &&& distinct(keys)
    &&& forall|i: int| 0 <= i < keys.len() ==> entries.contains_key((#[trigger] keys[i])@)
    &&& forall|key: Seq<char>| #[trigger] entries.contains_key(key) ==> listed(keys, key)
}

/// The place of `wanted` in `keys`.
fn position_of(keys: &Vec<String>, wanted: &String) -> (at: usize)
    requires
        listed(keys@, wanted@),
    ensures
        at < keys.len(),
        keys@[at as int]@ == wanted@,
{
    let mut i: usize = 0;
    while i < keys.len()
        invariant
            listed(keys@, wanted@),
            forall|j: int| 0 <= j < i ==> (#[trigger] keys@[j])@ != wanted@,
        decreases keys.len() - i,
    {
        if keys[i] == *wanted {
            return i;
        }
        i += 1;
    }
    proof {
        let j = choose|j: int| 0 <= j < keys@.len() && (#[trigger] keys@[j])@ == wanted@;
        assert(keys@[j]@ != wanted@);
    }
    i
}

impl ExpiringCounterCache {
    /// The key list and the map agree.
    pub closed spec fn indexed(&self) -> bool {
        indexes(self.keys@, self.entries@)
    }

    /// Well-formedness: the key list and the map agree, the cache is finite,
    /// and every key in it has been touched at least once.
    pub open spec fn wf(&self) -> bool {
        &&& self.indexed()
        &&& self@.dom().finite()
        &&& counted(self@)
    }

    /// The window in milliseconds.
    pub closed spec fn spec_ttl(&self) -> u128 {
        self.ttl
    }

    /// The way entries leave this cache.
    pub closed spec fn spec_strategy(&self) -> ExpiryStrategy {
        self.strategy
    }

    /// An empty cache with window `ttl` (milliseconds).
    pub fn new(ttl: u128, strategy: ExpiryStrategy) -> (cache: Self)
        ensures
            cache.wf(),
            cache@ == Map::<Seq<char>, CacheEntry>::empty(),
            cache.spec_ttl() == ttl,
            cache.spec_strategy() == strategy,
    {
        ExpiringCounterCache { entries: StringHashMap::new(), keys: Vec::new(), ttl, strategy }
    }

    /// The window in milliseconds.
    #[verifier::when_used_as_spec(spec_ttl)]
    pub fn ttl(&self) -> (ttl: u128)
        ensures
            ttl == self.spec_ttl(),
    {
        self.ttl
    }

    /// The way entries leave this cache.
    #[verifier::when_used_as_spec(spec_strategy)]
    pub fn strategy(&self) -> (strategy: ExpiryStrategy)
        ensures
            strategy == self.spec_strategy(),
    {
        self.strategy
    }

    /// Number of entries.
    pub fn size(&self) -> (n: usize)
        ensures
            n == self@.len(),
    {
        self.entries.len()
    }

    /// The count stored for `key`, zero if it is absent. Changes nothing.
    pub fn count(&self, key: &str) -> (count: u32)
        ensures
            count == count_of(self@, key@),
    {
        match self.entries.get(key) {
            Some(entry) => entry.count,
            None => 0,
        }
    }

    /// Counts one touch of `key` at time `now` and returns the new count.
    ///
    /// An absent key is entered with count 1. Under `Deferred` that first
    /// touch, and no later one, asks for a timer of the cache's window.
    /// The empty key is a key like any other.
    pub fn increment(&mut self, key: &str, now: u128) -> (touch: Touch)
        requires
            old(self).wf(),
            count_of(old(self)@, key@) < u32::MAX,
        ensures
            final(self).wf(),
            final(self)@ == touched(old(self)@, key@, now),
            final(self).spec_ttl() == old(self).spec_ttl(),
            final(self).spec_strategy() == old(self).spec_strategy(),
            touch.count == count_of(old(self)@, key@) + 1,
            touch.count == count_of(final(self)@, key@),
            touch.inserted == !old(self)@.contains_key(key@),
            touch.expire_after == (if touch.inserted && old(self).spec_strategy()
                == ExpiryStrategy::Deferred {
                Some(old(self).spec_ttl())
            } else {
                None
            }),
    {
        let prior: u32 = self.count(key);
        let inserted = !self.entries.contains_key(key);
        let count: u32 = prior + 1;
        self.entries.insert(String::from_str(key), CacheEntry { count, last_touch: now });
        if inserted {
            self.keys.push(String::from_str(key));
            proof {
                let keys = self.keys@;
                let last = keys.len() - 1;
                assert(keys[last]@ == key@);
                assert forall|k: Seq<char>| self.entries@.contains_key(k) implies listed(keys, k) by {
                    if k == key@ {
                        assert(keys[last]@ == k);
                    } else {
                        assert(listed(old(self).keys@, k));
                        let i = choose|i: int|
                            0 <= i < old(self).keys@.len() && (#[trigger] old(self).keys@[i])@ == k;
                        assert(keys[i]@ == k);
                    }
                }
            }
        } else {
            proof {
                let keys = self.keys@;
                assert forall|k: Seq<char>| self.entries@.contains_key(k) implies listed(keys, k) by {
                    assert(old(self).entries@.contains_key(k));
                }
            }
        }
        let expire_after = match self.strategy {
            ExpiryStrategy::Deferred => if inserted {
                Some(self.ttl)
            } else {
                None
            },
            ExpiryStrategy::Sweep => None,
        };
        Touch { count, inserted, expire_after }
    }

    /// The same as `increment`: a read counts as a touch.
    pub fn get(&mut self, key: &str, now: u128) -> (touch: Touch)
        requires
            old(self).wf(),
            count_of(old(self)@, key@) < u32::MAX,
        ensures
            final(self).wf(),
            final(self)@ == touched(old(self)@, key@, now),
            final(self).spec_ttl() == old(self).spec_ttl(),
            final(self).spec_strategy() == old(self).spec_strategy(),
            touch.count == count_of(old(self)@, key@) + 1,
            touch.count == count_of(final(self)@, key@),
            touch.inserted == !old(self)@.contains_key(key@),
            touch.expire_after == (if touch.inserted && old(self).spec_strategy()
                == ExpiryStrategy::Deferred {
                Some(old(self).spec_ttl())
            } else {
                None
            }),
    {
        self.increment(key, now)
    }

    /// Removes `key`, whatever its count and last touch, and says whether it
    /// was there. This is what the timer of the `Deferred` strategy runs when
    /// it fires.
    pub fn expire(&mut self, key: &str) -> (removed: bool)
        requires
            old(self).wf(),
        ensures
            final(self).wf(),
            final(self)@ == expired(old(self)@, key@),
            final(self).spec_ttl() == old(self).spec_ttl(),
            final(self).spec_strategy() == old(self).spec_strategy(),
            removed == old(self)@.contains_key(key@),
    {
        if !self.entries.contains_key(key) {
            assert(self.entries@.remove(key@) =~= self.entries@);
            return false;
        }
        let wanted = String::from_str(key);
        let at = position_of(&self.keys, &wanted);
        self.entries.remove(key);
        self.keys.remove(at);
        proof {
            let before = old(self).keys@;
            let keys = self.keys@;
            assert forall|i: int| 0 <= i < keys.len() implies (#[trigger] keys[i])@ == before[if i
                < at {
                i
            } else {
                i + 1
            }]@ by {}
            assert forall|i: int, j: int| 0 <= i < j < keys.len() implies (#[trigger] keys[i])@ != (
            #[trigger] keys[j])@ by {
                let a = if i < at { i } else { i + 1 };
                let b = if j < at { j } else { j + 1 };
                assert(before[a]@ != before[b]@);
            }
            assert forall|i: int| 0 <= i < keys.len() implies self.entries@.contains_key(
                (#[trigger] keys[i])@,
            ) by {
                let a = if i < at { i } else { i + 1 };
                assert(before[a]@ != before[at as int]@);
            }
            assert forall|k: Seq<char>| self.entries@.contains_key(k) implies listed(keys, k) by {
                assert(listed(before, k));
                let a = choose|a: int| 0 <= a < before.len() && (#[trigger] before[a])@ == k;
                let i = if a < at { a } else { a - 1 };
                assert(keys[i]@ == k);
            }
        }
        true
    }

    /// Removes every entry that is not live at `now` under the cache's window,
    /// and returns how many were removed. Live entries stay as they are.
    pub fn sweep(&mut self, now: u128) -> (removed: usize)
        requires
            old(self).wf(),
        ensures
            final(self).wf(),
            final(self)@ == swept(old(self)@, now, old(self).spec_ttl()),
            final(self).spec_ttl() == old(self).spec_ttl(),
            final(self).spec_strategy() == old(self).spec_strategy(),
            removed == old(self)@.len() - final(self)@.len(),
    {
        let ghost before = self.entries@;
        let ghost strategy = self.strategy;
        let ttl = self.ttl;
        let size_before = self.entries.len();
        let mut kept: Vec<String> = Vec::new();
        while self.keys.len() > 0
            invariant
                self.ttl == ttl,
                self.strategy == strategy,
                self.entries@.dom().finite(),
                distinct(self.keys@),
                distinct(kept@),
                forall|i: int, j: int|
                    0 <= i < self.keys@.len() && 0 <= j < kept@.len() ==> (#[trigger] self.keys@[i])@
                        != (#[trigger] kept@[j])@,
                forall|i: int|
                    0 <= i < self.keys@.len() ==> self.entries@.contains_key(
                        (#[trigger] self.keys@[i])@,
                    ),
                forall|j: int|
                    0 <= j < kept@.len() ==> self.entries@.contains_key((#[trigger] kept@[j])@)
                        && before[kept@[j]@].is_live(now, ttl),
                forall|k: Seq<char>| #[trigger]
                    self.entries@.contains_key(k) ==> listed(self.keys@, k) || listed(kept@, k),
                forall|k: Seq<char>| #[trigger]
                    self.entries@.contains_key(k) ==> before.contains_key(k) && self.entries@[k]
                        == before[k],
                forall|k: Seq<char>|
                    before.contains_key(k) && before[k].is_live(now, ttl)
                        ==> #[trigger] self.entries@.contains_key(k),
            decreases self.keys.len(),
        {
            let ghost keys_then = self.keys@;
            let ghost kept_then = kept@;
            let ghost entries_then = self.entries@;
            let key = self.keys.pop().unwrap();
            let ghost last = keys_then.len() - 1;
            assert(key@ == keys_then[last]@);
            let live = match self.entries.get(key.as_str()) {
                Some(entry) => entry.live_at(now, ttl),
                None => false,
            };
            if live {
                kept.push(key);
            } else {
                self.entries.remove(key.as_str());
            }
            proof {
                let keys = self.keys@;
                assert forall|i: int| 0 <= i < keys.len() implies (#[trigger] keys[i])
                    == keys_then[i] by {}
                assert forall|k: Seq<char>| self.entries@.contains_key(k) implies listed(keys, k)
                    || listed(kept@, k) by {
                    assert(entries_then.contains_key(k));
                    if listed(keys_then, k) {
                        let a = choose|a: int|
                            0 <= a < keys_then.len() && (#[trigger] keys_then[a])@ == k;
                        if a == last {
                            assert(live);
                            assert(kept@[kept@.len() - 1]@ == k);
                        } else {
                            assert(keys[a]@ == k);
                        }
                    } else {
                        let b = choose|b: int|
                            0 <= b < kept_then.len() && (#[trigger] kept_then[b])@ == k;
                        assert(kept@[b]@ == k);
                    }
                }
                assert forall|j: int| 0 <= j < kept@.len() implies self.entries@.contains_key(
                    (#[trigger] kept@[j])@,
                ) && before[kept@[j]@].is_live(now, ttl) by {
                    if j < kept_then.len() {
                        assert(kept@[j] == kept_then[j]);
                        assert(kept_then[j]@ != keys_then[last]@);
                    }
                }
                assert forall|i: int, j: int| 0 <= i < j < kept@.len() implies (#[trigger] kept@[i])@ != (
                #[trigger] kept@[j])@ by {
                    if j < kept_then.len() {
                        assert(kept@[i] == kept_then[i]);
                        assert(kept@[j] == kept_then[j]);
                    } else {
                        assert(kept@[i] == kept_then[i]);
                        assert(keys_then[last]@ != kept_then[i]@);
                    }
                }
                assert forall|i: int, j: int| 0 <= i < keys.len() && 0 <= j < kept@.len() implies (
                #[trigger] keys[i])@ != (#[trigger] kept@[j])@ by {
                    assert(keys[i] == keys_then[i]);
                    if j < kept_then.len() {
                        assert(kept@[j] == kept_then[j]);
                    } else {
                        assert(keys_then[i]@ != keys_then[last]@);
                    }
                }
                assert forall|i: int| 0 <= i < keys.len() implies self.entries@.contains_key(
                    (#[trigger] keys[i])@,
                ) by {
                    assert(keys[i] == keys_then[i]);
                    assert(keys_then[i]@ != keys_then[last]@);
                }
            }
        }
        self.keys = kept;
        proof {
            assert(self.entries@ =~= swept(before, now, ttl)) by {
                assert forall|k: Seq<char>| self.entries@.contains_key(k) implies before[k].is_live(
                    now,
                    ttl,
                ) by {
                    assert(listed(kept@, k));
                    let b = choose|b: int| 0 <= b < kept@.len() && (#[trigger] kept@[b])@ == k;
                }
            }
            assert(self.entries@.dom().subset_of(before.dom()));
            vstd::set_lib::lemma_len_subset(self.entries@.dom(), before.dom());
        }
        size_before - self.entries.len()
    }
}

} // verus!
