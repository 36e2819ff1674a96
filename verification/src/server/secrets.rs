//! The part of a secret-manager resolver that needs no service: what is
//! remembered of earlier answers, and what to make of a new one.
//!
//! The resolver looks a name up with [`Secrets::recall`]. On a miss it asks
//! the service for the secret of that name and hands the answer to
//! [`Secrets::accept`], which reads it as JSON and remembers it.

use crate::failure::Failure;
use crate::json::{parsed, Json, JsonValue};
use crate::server::cache::{deadline, TimedCache};
use vstd::prelude::*;
use vstd::string::StringExecFns;

verus! {

/// The prefix under which secrets are served.
pub const SECRETS_PREFIX: &'static str = "aws";

/// What is remembered of the answers of a secret manager.
///
/// The view maps each name to the tick at which its entry lapses and to the
/// document that the secret held.
pub struct Secrets {
    cache: TimedCache<Json>,
}

impl View for Secrets {
    type V = Map<Seq<char>, (u64, JsonValue)>;

    closed spec fn view(&self) -> Map<Seq<char>, (u64, JsonValue)> {
        self.cache@.map_values(|entry: (u64, Json)| (entry.0, entry.1@))
    }
}

impl Secrets {
    /// The shortest time for which an answer is remembered.
    pub closed spec fn shortest_ttl(&self) -> u64 {
        self.cache.shortest_ttl()
    }

    /// How far beyond the shortest time an answer may be remembered.
    pub closed spec fn spread(&self) -> u64 {
        self.cache.spread()
    }

    /// Nothing remembered yet; answers will be remembered for a time
    /// between `min_ttl` and `max_ttl` ticks, which may come in either
    /// order.
    pub fn new(min_ttl: u64, max_ttl: u64) -> (secrets: Secrets)
        ensures
            secrets@ == Map::<Seq<char>, (u64, JsonValue)>::empty(),
            min_ttl <= max_ttl ==> secrets.shortest_ttl() == min_ttl && secrets.spread()
                == max_ttl - min_ttl,
            min_ttl > max_ttl ==> secrets.shortest_ttl() == max_ttl && secrets.spread() == min_ttl
                - max_ttl,
    {
        let secrets = Secrets { cache: TimedCache::new(min_ttl, max_ttl) };
        assert(secrets@ =~= Map::<Seq<char>, (u64, JsonValue)>::empty());
        secrets
    }

    /// The document remembered for `name`, unless its entry has lapsed: a
    /// lapsed entry is forgotten.
    pub fn recall(&mut self, name: &str, now: u64) -> (found: Option<Json>)
        ensures
            final(self).shortest_ttl() == old(self).shortest_ttl(),
            final(self).spread() == old(self).spread(),
            !old(self)@.contains_key(name@) ==> found is None && final(self)@ == old(self)@,
            old(self)@.contains_key(name@) && now <= old(self)@[name@].0 ==> found is Some
                && found.unwrap()@ == old(self)@[name@].1 && final(self)@ == old(self)@,
            old(self)@.contains_key(name@) && now > old(self)@[name@].0 ==> found is None
                && final(self)@ == old(self)@.remove(name@),
    {
        let found = self.cache.get(name, now);
        proof {
            if old(self)@.contains_key(name@) && now > old(self)@[name@].0 {
                assert(self@ =~= old(self)@.remove(name@));
            }
        }
        found
    }

    /// Takes in what the service answered for `name`.
    ///
    /// An answer without a secret string is a failure, and so is a string
    /// that is not JSON; neither is remembered. Any other answer is read as
    /// JSON, remembered under `name` from `now` on, and handed back.
    pub fn accept(&mut self, name: &str, secret: Option<&str>, now: u64) -> (outcome: Result<
        Json,
        Failure,
    >)
        ensures
            final(self).shortest_ttl() == old(self).shortest_ttl(),
            final(self).spread() == old(self).spread(),
            secret is None ==> (outcome matches Err(failure) && failure is MissingSecretString)
                && final(self)@ == old(self)@,
            secret is Some && parsed(secret.unwrap()@) is None ==> (outcome matches Err(failure)
                && failure is InvalidJson) && final(self)@ == old(self)@,
            secret is Some && parsed(secret.unwrap()@) is Some ==> {
                &&& outcome is Ok
                &&& outcome.unwrap()@ == parsed(secret.unwrap()@).unwrap()
                &&& final(self)@.contains_key(name@)
                &&& final(self)@ == old(self)@.insert(
                    name@,
                    (final(self)@[name@].0, outcome.unwrap()@),
                )
                &&& deadline(now, old(self).shortest_ttl(), 0) <= final(self)@[name@].0
                    <= deadline(now, old(self).shortest_ttl(), old(self).spread())
            },
    {
        let Some(text) = secret else {
            return Err(Failure::MissingSecretString);
        };
        let value = Json::parse(text)?;
        self.cache.insert(String::from_str(name), value.clone(), now);
        proof {
            assert(self@ =~= old(self)@.insert(name@, (self@[name@].0, value@)));
        }
        Ok(value)
    }
}

} // verus!
