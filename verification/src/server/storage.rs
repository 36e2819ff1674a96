//! Storage of raw templates, one for each environment.
//!
//! The store of this module keeps its records in memory. A backend that
//! keeps them in files or in a bucket names the record of an environment
//! `<environment>.json`; the rules of that naming are here too.

use crate::failure::Failure;
use crate::json::{same_text, Json, JsonValue};
use crate::keyed::{lists_names, Keyed};
use vstd::prelude::*;
use vstd::string::StringExecFns;

verus! {

/// What ends the name of the record of an environment.
pub const RECORD_SUFFIX: &'static str = ".json";

/// The characters of [`RECORD_SUFFIX`].
pub open spec fn suffix_text() -> Seq<char> {
    seq!['.', 'j', 's', 'o', 'n']
}

/// The name of the record that holds the template of `env`.
pub fn record_name(env: &str) -> (name: String)
    ensures
        name@ == env@ + suffix_text(),
{
    proof {
        reveal_strlit(".json");
        assert(".json"@ =~= suffix_text());
    }
    String::from_str(env).concat(RECORD_SUFFIX)
}

/// The environment whose template the record `name` holds: the name without
/// its suffix, and `None` for a name that does not end in it.
pub fn environment_of(name: &str) -> (env: Option<String>)
    ensures
        match env {
            Some(e) => name@ == e@ + suffix_text(),
            None => !exists|e: Seq<char>| name@ == e + suffix_text(),
        },
{
    proof {
        reveal_strlit(".json");
        assert(".json"@ =~= suffix_text());
    }
    let length = name.unicode_len();
    if length < 5 {
        assert forall|e: Seq<char>| name@ != e + suffix_text() by {
            assert((e + suffix_text()).len() == e.len() + 5);
        }
        return None;
    }
    let ending = name.substring_char(length - 5, length);
    if same_text(ending, RECORD_SUFFIX) {
        let stem = name.substring_char(0, length - 5);
        assert(name@ =~= stem@ + suffix_text());
        Some(String::from_str(stem))
    } else {
        assert forall|e: Seq<char>| name@ != e + suffix_text() by {
            if name@ == e + suffix_text() {
                assert(e.len() == length - 5);
                assert(name@.subrange(length - 5, length as int) =~= suffix_text());
            }
        }
        None
    }
}

/// The environments among the first `n` of `names`, in order: each name that
/// ends in the record suffix, without it.
pub open spec fn environments(names: Seq<String>, n: int) -> Seq<Seq<char>>
    decreases n,
{
    if n <= 0 {
        Seq::empty()
    } else {
        let name = names[n - 1]@;
        if name.len() >= 5 && name.skip(name.len() - 5) == suffix_text() {
            environments(names, n - 1).push(name.take(name.len() - 5))
        } else {
            environments(names, n - 1)
        }
    }
}

/// The environments that a listing of record names shows: the names that do
/// not end in the record suffix are passed over.
pub fn environment_names(names: &Vec<String>) -> (envs: Vec<String>)
    ensures
        envs@.len() == environments(names@, names@.len() as int).len(),
        forall|i: int|
            0 <= i < envs@.len() ==> (#[trigger] envs@[i])@ == environments(
                names@,
                names@.len() as int,
            )[i],
{
    let mut envs: Vec<String> = Vec::new();
    let mut i: usize = 0;
    while i < names.len()
        invariant
            i <= names@.len(),
            envs@.len() == environments(names@, i as int).len(),
            forall|j: int|
                0 <= j < envs@.len() ==> (#[trigger] envs@[j])@ == environments(names@, i as int)[j],
        decreases names@.len() - i,
    {
        let ghost name = names@[i as int]@;
        match environment_of(names[i].as_str()) {
            Some(env) => {
                proof {
                    assert(name.skip(name.len() - 5) =~= suffix_text());
                    assert(name.take(name.len() - 5) =~= env@);
                }
                envs.push(env);
            },
            None => {
                proof {
                    if name.len() >= 5 && name.skip(name.len() - 5) == suffix_text() {
                        assert(name =~= name.take(name.len() - 5) + suffix_text());
                    }
                }
            },
        }
        i += 1;
    }
    envs
}

/// The failure of a read of the template of `env` from a backend: a record
/// that is not there is a missing template; whatever else went wrong is a
/// failure of storage, told in `detail`.
pub fn failed_read(env: &str, missing: bool, detail: &str) -> (failure: Failure)
    ensures
        missing ==> (failure matches Failure::MissingTemplate { env: named } && named@ == env@),
        !missing ==> (failure matches Failure::StorageFailed { detail: told } && told@
            == detail@),
{
    if missing {
        Failure::MissingTemplate { env: String::from_str(env) }
    } else {
        Failure::StorageFailed { detail: String::from_str(detail) }
    }
}

/// Templates by environment, kept in memory.
pub struct Storage {
    templates: Keyed<Json>,
}

impl View for Storage {
    type V = Map<Seq<char>, JsonValue>;

    closed spec fn view(&self) -> Map<Seq<char>, JsonValue> {
        self.templates@.map_values(|json: Json| json@)
    }
}

/// What storage holds for `env`.
pub open spec fn stored(records: Map<Seq<char>, JsonValue>, env: Seq<char>) -> Option<JsonValue> {
    if records.contains_key(env) {
        Some(records[env])
    } else {
        None
    }
}

/// Reading an environment back gives the template that was last written to
/// it, and a write to one environment leaves the others as they were.
pub proof fn lemma_store_round_trip(
    records: Map<Seq<char>, JsonValue>,
    env: Seq<char>,
    value: JsonValue,
    other: Seq<char>,
)
    ensures
        stored(records.insert(env, value), env) == Some(value),
        other != env ==> stored(records.insert(env, value), other) == stored(records, other),
{
}

impl Storage {
    /// A store without records.
    pub fn new() -> (storage: Storage)
        ensures
            storage@ == Map::<Seq<char>, JsonValue>::empty(),
    {
        let storage = Storage { templates: Keyed::new() };
        assert(storage@ =~= Map::<Seq<char>, JsonValue>::empty());
        storage
    }

    /// Retrieve a value from storage.
    ///
    /// Fails with [`Failure::MissingTemplate`] where nothing was written
    /// for `env`.
    pub fn get(&self, env: &str) -> (outcome: Result<Json, Failure>)
        ensures
            match outcome {
                Ok(json) => stored(self@, env@) == Some(json@),
                Err(failure) => stored(self@, env@) is None && (
                failure matches Failure::MissingTemplate { env: missing } && missing@ == env@),
            },
    {
        match self.templates.get(env) {
            Some(json) => Ok(json.clone()),
            None => Err(Failure::MissingTemplate { env: String::from_str(env) }),
        }
    }

    /// Set a value in storage, in place of what `env` had.
    pub fn set(&mut self, env: &str, value: &Json)
        ensures
            final(self)@ == old(self)@.insert(env@, value@),
    {
        let copy = value.clone();
        self.templates.insert(String::from_str(env), copy);
        assert(self@ =~= old(self)@.insert(env@, value@));
    }

    /// List all of the templates in storage: the environments that have
    /// one, each once.
    pub fn list(&self) -> (envs: Vec<String>)
        ensures
            lists_names(envs@, self@),
    {
        let envs = self.templates.names();
        proof {
            assert forall|name: Seq<char>| self@.contains_key(name) implies exists|i: int|
                0 <= i < envs@.len() && #[trigger] envs@[i]@ == name by {
                assert(self.templates@.contains_key(name));
            }
        }
        envs
    }
}

} // verus!
