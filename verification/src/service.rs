//! The request and response face of the cache.

use vstd::prelude::*;
use crate::cache::{ExpiringCounterCache, ExpiryStrategy};
use crate::clock::now_millis;
use crate::entry::CacheEntry;
use crate::model::{count_of, expired, swept, touched};

verus! {

/// A request to count one touch of `key`. Any string is a key, the empty one
/// too.
#[derive(Debug)]
pub struct IncRequest {
    pub key: String,
}

/// The answer to a request: the key's count after the touch.
#[derive(Clone, Copy, Debug, PartialEq, Eq, Structural)]
pub struct IncResponse {
    pub count: u32,
}

/// Why a request could not be served.
#[derive(Clone, Copy, Debug, PartialEq, Eq, Structural)]
pub enum Fault {
    /// The key's count stands at `u32::MAX` and cannot grow.
    CountExhausted,
    /// The wall clock stands before the epoch.
    ClockBeforeEpoch,
}

/// A served request: the answer, and what the caller has to make known of it.
#[derive(Clone, Copy, Debug, PartialEq, Eq, Structural)]
pub struct Served {
    /// The answer for the wire.
    pub response: IncResponse,
    /// The number of entries after the request, where the request created one:
    /// the new value of the size gauge.
    pub cache_size: Option<usize>,
    /// The delay in milliseconds after which `expire` must be run for the
    /// key, where the request asks for a timer.
    pub expire_after: Option<u128>,
}

/// What serving a touch of `key` gives on `entries`, with the entries after
/// the touch in `after`.
pub open spec fn serving(
    entries: Map<Seq<char>, CacheEntry>,
    after: Map<Seq<char>, CacheEntry>,
    key: Seq<char>,
    ttl: u128,
    strategy: ExpiryStrategy,
) -> Served {
    Served {
        response: IncResponse { count: (count_of(entries, key) + 1) as u32 },
        cache_size: if entries.contains_key(key) {
            None
        } else {
            Some(after.len() as usize)
        },
        expire_after: if !entries.contains_key(key) && strategy == ExpiryStrategy::Deferred {
            Some(ttl)
        } else {
            None
        },
    }
}

/// The counting service: one cache behind two requests that do the same.
pub struct CounterService {
    cache: ExpiringCounterCache,
}

impl View for CounterService {
    type V = Map<Seq<char>, CacheEntry>;

    closed spec fn view(&self) -> Map<Seq<char>, CacheEntry> {
        self.cache@
    }
}

impl CounterService {
    /// Well-formedness: that of the cache.
    pub closed spec fn wf(&self) -> bool {
        self.cache.wf()
    }

    /// The cache's window in milliseconds.
    pub closed spec fn spec_ttl(&self) -> u128 {
        self.cache.spec_ttl()
    }

    /// The way entries leave the cache.
    pub closed spec fn spec_strategy(&self) -> ExpiryStrategy {
        self.cache.spec_strategy()
    }

    /// A service over an empty cache with window `ttl` (milliseconds).
    pub fn new(ttl: u128, strategy: ExpiryStrategy) -> (service: Self)
        ensures
            service.wf(),
            service@ == Map::<Seq<char>, CacheEntry>::empty(),
            service.spec_ttl() == ttl,
            service.spec_strategy() == strategy,
    {
        CounterService { cache: ExpiringCounterCache::new(ttl, strategy) }
    }

    /// The cache's window in milliseconds.
    #[verifier::when_used_as_spec(spec_ttl)]
    pub fn ttl(&self) -> (ttl: u128)
        ensures
            ttl == self.spec_ttl(),
    {
        self.cache.ttl()
    }

    /// The way entries leave the cache.
    #[verifier::when_used_as_spec(spec_strategy)]
    pub fn strategy(&self) -> (strategy: ExpiryStrategy)
        ensures
            strategy == self.spec_strategy(),
    {
        self.cache.strategy()
    }

    /// Number of entries in the cache.
    pub fn size(&self) -> (n: usize)
        ensures
            n == self@.len(),
    {
        self.cache.size()
    }

    /// Serves `request` as a touch at time `now`.
    ///
    /// It fails only where the key's count cannot grow, and then changes
    /// nothing.
    pub fn increment_at(&mut self, request: &IncRequest, now: u128) -> (served: Result<
        Served,
        Fault,
    >)
        requires
            old(self).wf(),
        ensures
            final(self).wf(),
            final(self).spec_ttl() == old(self).spec_ttl(),
            final(self).spec_strategy() == old(self).spec_strategy(),
            served is Ok <==> count_of(old(self)@, request.key@) < u32::MAX,
            served is Ok ==> final(self)@ == touched(old(self)@, request.key@, now),
            served is Ok ==> served == Ok::<Served, Fault>(
                serving(
                    old(self)@,
                    final(self)@,
                    request.key@,
                    old(self).spec_ttl(),
                    old(self).spec_strategy(),
                ),
            ),
            served is Err ==> final(self)@ == old(self)@,
            served is Err ==> served == Err::<Served, Fault>(Fault::CountExhausted),
    {
        let key = request.key.as_str();
        if self.cache.count(key) == u32::MAX {
            return Err(Fault::CountExhausted);
        }
        let touch = self.cache.increment(key, now);
        let cache_size = if touch.inserted {
            Some(self.cache.size())
        } else {
            None
        };
        Ok(
            Served {
                response: IncResponse { count: touch.count },
                cache_size,
                expire_after: touch.expire_after,
            },
        )
    }

    /// The same as `increment_at`: a read counts as a touch.
    pub fn get_at(&mut self, request: &IncRequest, now: u128) -> (served: Result<Served, Fault>)
        requires
            old(self).wf(),
        ensures
            final(self).wf(),
            final(self).spec_ttl() == old(self).spec_ttl(),
            final(self).spec_strategy() == old(self).spec_strategy(),
            served is Ok <==> count_of(old(self)@, request.key@) < u32::MAX,
            served is Ok ==> final(self)@ == touched(old(self)@, request.key@, now),
            served is Ok ==> served == Ok::<Served, Fault>(
                serving(
                    old(self)@,
                    final(self)@,
                    request.key@,
                    old(self).spec_ttl(),
                    old(self).spec_strategy(),
                ),
            ),
            served is Err ==> final(self)@ == old(self)@,
            served is Err ==> served == Err::<Served, Fault>(Fault::CountExhausted),
    {
        self.increment_at(request, now)
    }

    /// Serves `request` as a touch at the wall clock's time.
    ///
    /// Whatever the clock reads, a served request is a touch at some time; a
    /// failed one changes nothing.
    pub fn increment(&mut self, request: &IncRequest) -> (served: Result<Served, Fault>)
        requires
            old(self).wf(),
        ensures
            final(self).wf(),
            final(self).spec_ttl() == old(self).spec_ttl(),
            final(self).spec_strategy() == old(self).spec_strategy(),
            served is Ok ==> count_of(old(self)@, request.key@) < u32::MAX,
            served is Ok ==> exists|now: u128|
                final(self)@ == #[trigger] touched(old(self)@, request.key@, now),
            served is Ok ==> served == Ok::<Served, Fault>(
                serving(
                    old(self)@,
                    final(self)@,
                    request.key@,
                    old(self).spec_ttl(),
                    old(self).spec_strategy(),
                ),
            ),
            served is Err ==> final(self)@ == old(self)@,
            served == Err::<Served, Fault>(Fault::CountExhausted) ==> count_of(
                old(self)@,
                request.key@,
            ) == u32::MAX,
    {
        match now_millis() {
            Some(now) => self.increment_at(request, now),
            None => Err(Fault::ClockBeforeEpoch),
        }
    }

    /// The same as `increment`: a read counts as a touch.
    pub fn get(&mut self, request: &IncRequest) -> (served: Result<Served, Fault>)
        requires
            old(self).wf(),
        ensures
            final(self).wf(),
            final(self).spec_ttl() == old(self).spec_ttl(),
            final(self).spec_strategy() == old(self).spec_strategy(),
            served is Ok ==> count_of(old(self)@, request.key@) < u32::MAX,
            served is Ok ==> exists|now: u128|
                final(self)@ == #[trigger] touched(old(self)@, request.key@, now),
            served is Ok ==> served == Ok::<Served, Fault>(
                serving(
                    old(self)@,
                    final(self)@,
                    request.key@,
                    old(self).spec_ttl(),
                    old(self).spec_strategy(),
                ),
            ),
            served is Err ==> final(self)@ == old(self)@,
            served == Err::<Served, Fault>(Fault::CountExhausted) ==> count_of(
                old(self)@,
                request.key@,
            ) == u32::MAX,
    {
        self.increment(request)
    }

    /// Runs the deferred removal of `key` and says whether the key was there.
    pub fn expire(&mut self, key: &str) -> (removed: bool)
        requires
            old(self).wf(),
        ensures
            final(self).wf(),
            final(self)@ == expired(old(self)@, key@),
            final(self).spec_ttl() == old(self).spec_ttl(),
            final(self).spec_strategy() == old(self).spec_strategy(),
            removed == old(self)@.contains_key(key@),
    {
        self.cache.expire(key)
    }

    /// Sweeps the cache at time `now` and returns how many entries were
    /// removed.
    pub fn sweep_at(&mut self, now: u128) -> (removed: usize)
        requires
            old(self).wf(),
        ensures
            final(self).wf(),
            final(self)@ == swept(old(self)@, now, old(self).spec_ttl()),
            final(self).spec_ttl() == old(self).spec_ttl(),
            final(self).spec_strategy() == old(self).spec_strategy(),
            removed == old(self)@.len() - final(self)@.len(),
    {
        self.cache.sweep(now)
    }

    /// Sweeps the cache at the wall clock's time and returns how many entries
    /// were removed; fails, changing nothing, where the clock cannot be read.
    pub fn sweep(&mut self) -> (removed: Result<usize, Fault>)
        requires
            old(self).wf(),
        ensures
            final(self).wf(),
            final(self).spec_ttl() == old(self).spec_ttl(),
            final(self).spec_strategy() == old(self).spec_strategy(),
            match removed {
                Ok(n) => n == old(self)@.len() - final(self)@.len() && exists|now: u128|
                    final(self)@ == #[trigger] swept(old(self)@, now, old(self).spec_ttl()),
                Err(fault) => fault == Fault::ClockBeforeEpoch && final(self)@ == old(self)@,
            },
    {
        match now_millis() {
            Some(now) => Ok(self.sweep_at(now)),
            None => Err(Fault::ClockBeforeEpoch),
        }
    }
}

} // verus!
