//! Implementation of data caching for slow resolvers.
//!
//! Each entry lives for a time that is drawn at random between two bounds,
//! so that entries that came in together do not all lapse together. Time is
//! a count of ticks of the caller's clock.

use crate::keyed::Keyed;
use vstd::pervasive::cloned;
use vstd::prelude::*;

verus! {

/// `fastrand::u64` on the range from `low` to `high`, both included. The
/// contract claims only that the number lies in that range; an empty range,
/// on which `fastrand` panics, is left out.
#[verifier::external_body]
fn random_between(low: u64, high: u64) -> (drawn: u64)
    requires
        low <= high,
    ensures
        low <= drawn <= high,
{
    fastrand::u64(low..=high)
}

/// The tick at which an entry lapses that came in at `now`, with the
/// shortest time to live `shortest` and `jitter` ticks on top; the last tick
/// of the clock where that lies beyond it.
pub open spec fn deadline(now: u64, shortest: u64, jitter: u64) -> u64 {
    if now + shortest + jitter > u64::MAX {
        u64::MAX
    } else {
        (now + shortest + jitter) as u64
    }
}

/// A timed cache, with random jitter on the time-to-live.
///
/// The view maps each key to the tick at which its entry lapses and to the
/// value: the entry is good up to that tick, the tick included.
pub struct TimedCache<V> {
    entries: Keyed<(u64, V)>,
    shortest: u64,
    spread: u64,
}

impl<V> View for TimedCache<V> {
    type V = Map<Seq<char>, (u64, V)>;

    closed spec fn view(&self) -> Map<Seq<char>, (u64, V)> {
        self.entries@
    }
}

impl<V> TimedCache<V> {
    /// The shortest time that an entry lives.
    pub closed spec fn shortest_ttl(&self) -> u64 {
        self.shortest
    }

    /// How far beyond the shortest time the life of an entry may reach.
    pub closed spec fn spread(&self) -> u64 {
        self.spread
    }

    /// Create a new timed cache with min and max TTLs. The bounds may come
    /// in either order.
    pub fn new(min_ttl: u64, max_ttl: u64) -> (cache: Self)
        ensures
            cache@ == Map::<Seq<char>, (u64, V)>::empty(),
            min_ttl <= max_ttl ==> cache.shortest_ttl() == min_ttl && cache.spread() == max_ttl
                - min_ttl,
            min_ttl > max_ttl ==> cache.shortest_ttl() == max_ttl && cache.spread() == min_ttl
                - max_ttl,
    {
        if min_ttl <= max_ttl {
            TimedCache { entries: Keyed::new(), shortest: min_ttl, spread: max_ttl - min_ttl }
        } else {
            TimedCache { entries: Keyed::new(), shortest: max_ttl, spread: min_ttl - max_ttl }
        }
    }

    /// The tick at which an entry lapses that comes in at `now` with
    /// `jitter` ticks on top of the shortest time to live; a jitter beyond
    /// the spread counts as the spread.
    pub fn lapse(&self, now: u64, jitter: u64) -> (tick: u64)
        ensures
            tick == deadline(
                now,
                self.shortest_ttl(),
                if jitter <= self.spread() {
                    jitter
                } else {
                    self.spread()
                },
            ),
    {
        let extra = if jitter <= self.spread {
            jitter
        } else {
            self.spread
        };
        now.saturating_add(self.shortest).saturating_add(extra)
    }

    /// Get an entry from the cache, checking if it has expired.
    ///
    /// An entry is handed out up to the tick at which it lapses. Past that
    /// tick it is taken out of the cache, and the answer is `None`, as for a
    /// key that the cache never had.
    pub fn get(&mut self, key: &str, now: u64) -> (found: Option<V>) where V: Clone
        ensures
            final(self).shortest_ttl() == old(self).shortest_ttl(),
            final(self).spread() == old(self).spread(),
            !old(self)@.contains_key(key@) ==> found is None && final(self)@ == old(self)@,
            old(self)@.contains_key(key@) && now <= old(self)@[key@].0 ==> found is Some && cloned(
                old(self)@[key@].1,
                found.unwrap(),
            ) && final(self)@ == old(self)@,
            old(self)@.contains_key(key@) && now > old(self)@[key@].0 ==> found is None
                && final(self)@ == old(self)@.remove(key@),
    {
        let fresh = match self.entries.get(key) {
            Some(entry) => {
                if now <= entry.0 {
                    Some(entry.1.clone())
                } else {
                    None
                }
            },
            None => {
                return None;
            },
        };
        if fresh.is_none() {
            self.entries.remove(key);
        }
        fresh
    }

    /// The tick at which the entry of `key` lapses.
    pub fn expires_at(&self, key: &str) -> (tick: Option<u64>)
        ensures
            tick == if self@.contains_key(key@) {
                Some(self@[key@].0)
            } else {
                None
            },
    {
        match self.entries.get(key) {
            Some(entry) => Some(entry.0),
            None => None,
        }
    }

    /// Stores `value` under `key`, good up to the tick `until`, in place of
    /// any entry that the key had.
    pub fn insert_until(&mut self, key: String, value: V, until: u64)
        ensures
            final(self)@ == old(self)@.insert(key@, (until, value)),
            final(self).shortest_ttl() == old(self).shortest_ttl(),
            final(self).spread() == old(self).spread(),
    {
        self.entries.insert(key, (until, value));
    }

    /// Set an entry in the cache, with a random expiration time.
    ///
    /// The entry replaces any that the key had. It lapses at `now` plus the
    /// shortest time to live plus a jitter, which is drawn at random and is
    /// no more than the spread.
    pub fn insert(&mut self, key: String, value: V, now: u64)
        ensures
            final(self).shortest_ttl() == old(self).shortest_ttl(),
            final(self).spread() == old(self).spread(),
            exists|jitter: u64|
                jitter <= old(self).spread() && final(self)@ == old(self)@.insert(
                    key@,
                    (#[trigger] deadline(now, old(self).shortest_ttl(), jitter), value),
                ),
    {
        let jitter = random_between(0, self.spread);
        let until = self.lapse(now, jitter);
        self.insert_until(key, value, until);
    }
}

/// A longer jitter never gives an earlier last tick.
pub proof fn lemma_deadline_follows_jitter(now: u64, shortest: u64, first: u64, second: u64)
    requires
        first <= second,
    ensures
        deadline(now, shortest, first) <= deadline(now, shortest, second),
{
}

/// Different jitters give different last ticks: entries that come in at
/// the same tick lapse apart, and the one with the longer jitter lapses
/// later, as long as the later of the two ticks lies within the clock.
pub proof fn lemma_jitter_separates(now: u64, shortest: u64, first: u64, second: u64)
    requires
        first < second,
        now + shortest + second <= u64::MAX,
    ensures
        deadline(now, shortest, first) < deadline(now, shortest, second),
        deadline(now, shortest, first) == now + shortest + first,
        deadline(now, shortest, second) == now + shortest + second,
{
}

} // verus!
