//! The mathematical model of the cache: a map from keys to entries, and the
//! three ways in which it changes.

use vstd::prelude::*;
use crate::entry::CacheEntry;

verus! {

/// The count stored for `key`; an absent key stands at zero.
pub open spec fn count_of(entries: Map<Seq<char>, CacheEntry>, key: Seq<char>) -> nat {
    if entries.contains_key(key) {
        entries[key].count as nat
    } else {
        0
    }
}

/// Every key that is held has been touched at least once.
pub open spec fn counted(entries: Map<Seq<char>, CacheEntry>) -> bool {
    forall|key: Seq<char>| #[trigger] entries.contains_key(key) ==> entries[key].count >= 1
}

/// The entries after one touch of `key` at time `now`: its count goes up by
/// one (from zero if it was absent) and its last touch becomes `now`.
pub open spec fn touched(entries: Map<Seq<char>, CacheEntry>, key: Seq<char>, now: u128) -> Map<
    Seq<char>,
    CacheEntry,
> {
    entries.insert(
        key,
        CacheEntry { count: (count_of(entries, key) + 1) as u32, last_touch: now },
    )
}

/// The entries after the deferred removal of `key`: it is gone, whatever its
/// count and last touch were.
pub open spec fn expired(entries: Map<Seq<char>, CacheEntry>, key: Seq<char>) -> Map<
    Seq<char>,
    CacheEntry,
> {
    entries.remove(key)
}

/// The entries after a sweep at time `now` with window `ttl`: exactly the live
/// ones stay, unchanged.
pub open spec fn swept(entries: Map<Seq<char>, CacheEntry>, now: u128, ttl: u128) -> Map<
    Seq<char>,
    CacheEntry,
> {
    Map::new(
        |key: Seq<char>| entries.contains_key(key) && entries[key].is_live(now, ttl),
        |key: Seq<char>| entries[key],
    )
}

/// The entries after the touches `touches`, each a key and a time, in order.
pub open spec fn touched_all(
    entries: Map<Seq<char>, CacheEntry>,
    touches: Seq<(Seq<char>, u128)>,
) -> Map<Seq<char>, CacheEntry>
    decreases touches.len(),
{
    if touches.len() == 0 {
        entries
    } else {
        touched(touched_all(entries, touches.drop_last()), touches.last().0, touches.last().1)
    }
}

/// How many of `touches` are touches of `key`.
pub open spec fn touches_of(touches: Seq<(Seq<char>, u128)>, key: Seq<char>) -> nat
    decreases touches.len(),
{
    if touches.len() == 0 {
        0
    } else {
        touches_of(touches.drop_last(), key) + if touches.last().0 == key {
            1nat
        } else {
            0nat
        }
    }
}

} // verus!
