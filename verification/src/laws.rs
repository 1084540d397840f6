//! What holds of the cache whatever it is asked to do, proved over the model.

use vstd::prelude::*;
use crate::entry::CacheEntry;
use crate::model::{count_of, counted, expired, swept, touched, touched_all, touches_of};

verus! {

/// A touch moves the touched key's count up by exactly one and stamps it with
/// the time of the touch; an absent key starts from zero.
pub proof fn lemma_touch_counts_one(entries: Map<Seq<char>, CacheEntry>, key: Seq<char>, now: u128)
    requires
        count_of(entries, key) < u32::MAX,
    ensures
        touched(entries, key, now).contains_key(key),
        count_of(touched(entries, key, now), key) == count_of(entries, key) + 1,
        touched(entries, key, now)[key].last_touch == now,
        !entries.contains_key(key) ==> count_of(touched(entries, key, now), key) == 1,
{
}

/// A held key has a count of at least one, so that a count of zero means an
/// absent key; touches, removals and sweeps keep it so.
pub proof fn lemma_held_keys_stay_counted(
    entries: Map<Seq<char>, CacheEntry>,
    key: Seq<char>,
    now: u128,
    ttl: u128,
)
    requires
        counted(entries),
        count_of(entries, key) < u32::MAX,
    ensures
        forall|any: Seq<char>| count_of(entries, any) == 0 <==> !entries.contains_key(any),
        counted(touched(entries, key, now)),
        counted(expired(entries, key)),
        counted(swept(entries, now, ttl)),
{
}

/// Counts are exact: after any run of touches, a key's count has grown by the
/// number of touches of that key, however they were mixed with touches of
/// other keys.
pub proof fn lemma_counts_are_exact(
    entries: Map<Seq<char>, CacheEntry>,
    touches: Seq<(Seq<char>, u128)>,
    key: Seq<char>,
)
    requires
        count_of(entries, key) + touches_of(touches, key) <= u32::MAX,
    ensures
        count_of(touched_all(entries, touches), key) == count_of(entries, key) + touches_of(
            touches,
            key,
        ),
    decreases touches.len(),
{
    if touches.len() > 0 {
        lemma_counts_are_exact(entries, touches.drop_last(), key);
    }
}

/// A run of touches that all name one key is a run of that many touches of it.
pub proof fn lemma_touches_of_one_key(touches: Seq<(Seq<char>, u128)>, key: Seq<char>)
    requires
        forall|i: int| 0 <= i < touches.len() ==> (#[trigger] touches[i]).0 == key,
    ensures
        touches_of(touches, key) == touches.len(),
    decreases touches.len(),
{
    if touches.len() > 0 {
        let rest = touches.drop_last();
        assert forall|i: int| 0 <= i < rest.len() implies (#[trigger] rest[i]).0 == key by {
            assert(rest[i] == touches[i]);
        }
        lemma_touches_of_one_key(rest, key);
        assert(touches.last() == touches[touches.len() - 1]);
    }
}

/// On a key that the cache does not hold, the n-th touch in a row gives the
/// count n, for every n that a count can hold.
pub proof fn lemma_nth_touch_counts_n(
    entries: Map<Seq<char>, CacheEntry>,
    key: Seq<char>,
    touches: Seq<(Seq<char>, u128)>,
    n: int,
)
    requires
        !entries.contains_key(key),
        forall|i: int| 0 <= i < touches.len() ==> (#[trigger] touches[i]).0 == key,
        1 <= n <= touches.len(),
        n <= u32::MAX,
    ensures
        count_of(touched_all(entries, touches.take(n)), key) == n,
{
    let first = touches.take(n);
    assert forall|i: int| 0 <= i < first.len() implies (#[trigger] first[i]).0 == key by {
        assert(first[i] == touches[i]);
    }
    lemma_touches_of_one_key(first, key);
    lemma_counts_are_exact(entries, first, key);
}

/// A touch or a removal of one key leaves every other key as it was: whether
/// it is held, its entry, and so the count that its next touch gives.
pub proof fn lemma_keys_are_independent(
    entries: Map<Seq<char>, CacheEntry>,
    key: Seq<char>,
    other: Seq<char>,
    now: u128,
    later: u128,
)
    requires
        key != other,
    ensures
        touched(entries, key, now).contains_key(other) == entries.contains_key(other),
        touched(entries, key, now)[other] == entries[other],
        count_of(touched(entries, key, now), other) == count_of(entries, other),
        count_of(touched(touched(entries, key, now), other, later), other) == count_of(
            touched(entries, other, later),
            other,
        ),
        expired(entries, key).contains_key(other) == entries.contains_key(other),
        expired(entries, key)[other] == entries[other],
        count_of(expired(entries, key), other) == count_of(entries, other),
        count_of(touched(expired(entries, key), other, later), other) == count_of(
            touched(entries, other, later),
            other,
        ),
{
}

/// Touches of two different keys can be made in either order.
pub proof fn lemma_touches_of_different_keys_commute(
    entries: Map<Seq<char>, CacheEntry>,
    key: Seq<char>,
    now: u128,
    other: Seq<char>,
    later: u128,
)
    requires
        key != other,
    ensures
        touched(touched(entries, key, now), other, later) == touched(
            touched(entries, other, later),
            key,
            now,
        ),
{
    assert(touched(touched(entries, key, now), other, later) =~= touched(
        touched(entries, other, later),
        key,
        now,
    ));
}

/// A touch is not idempotent: the second of two touches of a key in a row
/// gives a count one above the first, and leaves another state behind.
pub proof fn lemma_touch_is_not_idempotent(
    entries: Map<Seq<char>, CacheEntry>,
    key: Seq<char>,
    now: u128,
    later: u128,
)
    requires
        count_of(entries, key) + 2 <= u32::MAX,
    ensures
        count_of(touched(touched(entries, key, now), key, later), key) == count_of(
            touched(entries, key, now),
            key,
        ) + 1,
        count_of(touched(touched(entries, key, now), key, later), key) > count_of(
            touched(entries, key, now),
            key,
        ),
        touched(touched(entries, key, now), key, later) != touched(entries, key, now),
{
    let once = touched(entries, key, now);
    let twice = touched(once, key, later);
    assert(once[key].count != twice[key].count);
}

/// A sweep removes a key exactly when a whole window has passed since its
/// last touch, and leaves every other entry as it was.
pub proof fn lemma_sweep_removes_the_idle(
    entries: Map<Seq<char>, CacheEntry>,
    key: Seq<char>,
    now: u128,
    ttl: u128,
)
    requires
        entries.contains_key(key),
    ensures
        swept(entries, now, ttl).contains_key(key) <==> entries[key].last_touch + ttl > now,
        swept(entries, now, ttl).contains_key(key) ==> swept(entries, now, ttl)[key]
            == entries[key],
        !entries.contains_key(key) ==> !swept(entries, now, ttl).contains_key(key),
{
}

/// A key last touched at `touch_time` and then left alone is gone after any
/// sweep at or after `touch_time + ttl`, and its next touch counts 1 again.
pub proof fn lemma_sweep_resets_idle_key(
    entries: Map<Seq<char>, CacheEntry>,
    key: Seq<char>,
    touch_time: u128,
    ttl: u128,
    sweep_time: u128,
    later: u128,
)
    requires
        touch_time + ttl <= sweep_time,
    ensures
        !swept(touched(entries, key, touch_time), sweep_time, ttl).contains_key(key),
        count_of(
            touched(swept(touched(entries, key, touch_time), sweep_time, ttl), key, later),
            key,
        ) == 1,
{
}

/// A touch within the window moves the window: a key touched again at
/// `again` outlives every sweep before `again + ttl`, with its count kept.
pub proof fn lemma_touch_refreshes_window(
    entries: Map<Seq<char>, CacheEntry>,
    key: Seq<char>,
    again: u128,
    ttl: u128,
    sweep_time: u128,
)
    requires
        sweep_time < again + ttl,
    ensures
        swept(touched(entries, key, again), sweep_time, ttl).contains_key(key),
        swept(touched(entries, key, again), sweep_time, ttl)[key] == touched(
            entries,
            key,
            again,
        )[key],
{
}

/// The deferred removal of a key takes it away however often it was touched
/// since its first touch, and its next touch counts 1 again.
pub proof fn lemma_expiry_resets_key(
    entries: Map<Seq<char>, CacheEntry>,
    key: Seq<char>,
    touches: Seq<(Seq<char>, u128)>,
    later: u128,
)
    ensures
        !expired(touched_all(entries, touches), key).contains_key(key),
        count_of(touched(expired(touched_all(entries, touches), key), key, later), key) == 1,
{
}

/// Some touch in `touches` is a touch of `key`.
pub open spec fn touches_name(touches: Seq<(Seq<char>, u128)>, key: Seq<char>) -> bool {
    exists|i: int| 0 <= i < touches.len() && (#[trigger] touches[i]).0 == key
}

/// Touches keep a finite cache finite, and the cache then holds exactly the
/// keys that it held before and those that were touched.
pub proof fn lemma_touches_add_their_keys(
    entries: Map<Seq<char>, CacheEntry>,
    touches: Seq<(Seq<char>, u128)>,
)
    requires
        entries.dom().finite(),
    ensures
        touched_all(entries, touches).dom().finite(),
        forall|key: Seq<char>| #[trigger]
            touched_all(entries, touches).contains_key(key) <==> entries.contains_key(key)
                || touches_name(touches, key),
    decreases touches.len(),
{
    if touches.len() > 0 {
        let rest = touches.drop_last();
        let last = touches.len() - 1;
        let before = touched_all(entries, rest);
        let after = touched_all(entries, touches);
        lemma_touches_add_their_keys(entries, rest);
        assert forall|key: Seq<char>| #[trigger] after.contains_key(key) implies entries.contains_key(
            key,
        ) || touches_name(touches, key) by {
            if key == touches[last].0 {
                assert(touches[last].0 == key);
            } else {
                assert(before.contains_key(key));
                if !entries.contains_key(key) {
                    assert(touches_name(rest, key));
                    let i = choose|i: int| 0 <= i < rest.len() && (#[trigger] rest[i]).0 == key;
                    assert(touches[i].0 == key);
                }
            }
        }
        assert forall|key: Seq<char>|
            entries.contains_key(key) || touches_name(touches, key) implies #[trigger] after.contains_key(
            key,
        ) by {
            if entries.contains_key(key) {
                assert(before.contains_key(key));
            } else {
                let i = choose|i: int| 0 <= i < touches.len() && (#[trigger] touches[i]).0 == key;
                if i < last {
                    assert(rest[i].0 == key);
                    assert(touches_name(rest, key));
                    assert(before.contains_key(key));
                }
            }
        }
    } else {
        assert forall|key: Seq<char>| !touches_name(touches, key) by {}
    }
}

/// After touches of keys that are pairwise different and were not held
/// before, the cache has grown by exactly the number of touches.
pub proof fn lemma_size_counts_new_keys(
    entries: Map<Seq<char>, CacheEntry>,
    touches: Seq<(Seq<char>, u128)>,
)
    requires
        entries.dom().finite(),
        forall|i: int| 0 <= i < touches.len() ==> !entries.contains_key((#[trigger] touches[i]).0),
        forall|i: int, j: int|
            0 <= i < j < touches.len() ==> (#[trigger] touches[i]).0 != (#[trigger] touches[j]).0,
    ensures
        touched_all(entries, touches).len() == entries.len() + touches.len(),
    decreases touches.len(),
{
    if touches.len() > 0 {
        let rest = touches.drop_last();
        let last = touches.len() - 1;
        assert forall|i: int| 0 <= i < rest.len() implies !entries.contains_key(
            (#[trigger] rest[i]).0,
        ) by {
            assert(rest[i] == touches[i]);
        }
        assert forall|i: int, j: int| 0 <= i < j < rest.len() implies (#[trigger] rest[i]).0 != (
        #[trigger] rest[j]).0 by {
            assert(rest[i] == touches[i]);
            assert(rest[j] == touches[j]);
        }
        lemma_size_counts_new_keys(entries, rest);
        lemma_touches_add_their_keys(entries, rest);
        let before = touched_all(entries, rest);
        let key = touches[last].0;
        assert(!before.contains_key(key)) by {
            if touches_name(rest, key) {
                let i = choose|i: int| 0 <= i < rest.len() && (#[trigger] rest[i]).0 == key;
                assert(rest[i] == touches[i]);
            }
        }
        assert(touched_all(entries, touches).dom() =~= before.dom().insert(key));
    }
}

/// A sweep at a time when no entry is live leaves the cache empty.
pub proof fn lemma_sweep_of_idle_cache_is_empty(
    entries: Map<Seq<char>, CacheEntry>,
    now: u128,
    ttl: u128,
)
    requires
        forall|key: Seq<char>| #[trigger]
            entries.contains_key(key) ==> entries[key].last_touch + ttl <= now,
    ensures
        swept(entries, now, ttl) == Map::<Seq<char>, CacheEntry>::empty(),
        swept(entries, now, ttl).len() == 0,
{
    assert(swept(entries, now, ttl) =~= Map::<Seq<char>, CacheEntry>::empty());
}

/// A sweep never adds an entry and never changes one, so it never makes a
/// finite cache larger.
pub proof fn lemma_sweep_only_removes(entries: Map<Seq<char>, CacheEntry>, now: u128, ttl: u128)
    requires
        entries.dom().finite(),
    ensures
        swept(entries, now, ttl).submap_of(entries),
        swept(entries, now, ttl).dom().finite(),
        swept(entries, now, ttl).len() <= entries.len(),
{
    assert(swept(entries, now, ttl).dom().subset_of(entries.dom()));
    vstd::set_lib::lemma_len_subset(swept(entries, now, ttl).dom(), entries.dom());
}

} // verus!
