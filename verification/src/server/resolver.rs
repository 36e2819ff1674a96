//! Resolvers turn the payload of a placeholder into a document, each under
//! a prefix of its own; a chain dispatches a placeholder by its prefix.

use crate::failure::Failure;
use crate::json::{parsed, Json};
use vstd::prelude::*;
use vstd::string::StringExecFns;

verus! {

/// The character between the prefix and the payload of a placeholder.
pub const DELIMITER: char = ':';

/// Something that resolves names to documents under one prefix.
///
/// The trait asks nothing of an implementation. What an implementation
/// states of its own `prefix` and `resolve` is what [`may_serve`] and
/// [`may_answer`] say of it.
pub trait Resolver {
    /// The prefix of this resolver, as used in templates.
    fn prefix(&self) -> &'static str;

    /// Resolves `name`.
    fn resolve(&self, name: &str) -> Result<Json, Failure>;
}

/// Whether `resolver` may name `prefix` as its prefix.
pub open spec fn may_serve<R: Resolver>(resolver: R, prefix: Seq<char>) -> bool {
    exists|text: &'static str| text@ == prefix && #[trigger] call_ensures(R::prefix, (&resolver,), text)
}

/// Whether `resolver` may give `reply` for `name`.
pub open spec fn may_answer<R: Resolver>(
    resolver: R,
    name: Seq<char>,
    reply: Result<Json, Failure>,
) -> bool {
    exists|text: &str| text@ == name && #[trigger] call_ensures(R::resolve, (&resolver, text), reply)
}

/// Where the first delimiter of `text` stands.
pub open spec fn delimiter_at(text: Seq<char>) -> Option<int> {
    if exists|i: int| 0 <= i < text.len() && text[i] == DELIMITER {
        Some(choose|i: int| first_delimiter(text, i))
    } else {
        None
    }
}

/// What stands before the first delimiter of `text`.
pub open spec fn prefix_of(text: Seq<char>) -> Seq<char>
    recommends
        delimiter_at(text) is Some,
{
    text.take(delimiter_at(text).unwrap())
}

/// What stands behind the first delimiter of `text`.
pub open spec fn payload_of(text: Seq<char>) -> Seq<char>
    recommends
        delimiter_at(text) is Some,
{
    text.skip(delimiter_at(text).unwrap() + 1)
}

/// `at` is the place of the first delimiter of `text`.
pub open spec fn first_delimiter(text: Seq<char>, at: int) -> bool {
    &&& 0 <= at < text.len()
    &&& text[at] == DELIMITER
    &&& forall|j: int| 0 <= j < at ==> text[j] != DELIMITER
}

/// The first delimiter of a text is where nothing but the delimiter-free
/// part stands before it.
pub proof fn lemma_delimiter_at(text: Seq<char>, at: int)
    requires
        first_delimiter(text, at),
    ensures
        delimiter_at(text) == Some(at),
{
    let other = choose|i: int| first_delimiter(text, i);
    assert(first_delimiter(text, other));
    if other < at {
        assert(text[other] != DELIMITER);
    } else if at < other {
        assert(text[at] != DELIMITER);
    }
}

/// Some resolver of `chain` is registered under `prefix`.
pub open spec fn serves<R>(chain: Seq<(Seq<char>, R)>, prefix: Seq<char>) -> bool {
    exists|i: int| 0 <= i < chain.len() && (#[trigger] chain[i]).0 == prefix
}

/// No two resolvers of `chain` are registered under the same prefix.
pub open spec fn distinct_prefixes<R>(chain: Seq<(Seq<char>, R)>) -> bool {
    forall|i: int, j: int|
        0 <= i < j < chain.len() ==> (#[trigger] chain[i]).0 != (#[trigger] chain[j]).0
}

/// The failure names `prefix` as a prefix that nobody serves, and lists the
/// prefixes of `chain` in the order of registration.
pub open spec fn reports_unknown<R>(
    failure: Failure,
    chain: Seq<(Seq<char>, R)>,
    prefix: Seq<char>,
) -> bool {
    &&& failure matches Failure::UnknownPrefix { prefix: named, known }
    &&& named@ == prefix
    &&& known@.len() == chain.len()
    &&& forall|i: int| 0 <= i < known@.len() ==> (#[trigger] known@[i])@ == chain[i].0
}

/// Whether `chain` may give `reply` for `placeholder`.
///
/// A placeholder without delimiter fails, and the failure holds the
/// placeholder. One whose prefix nobody serves fails too, and the failure
/// lists the prefixes that are served. Any other is answered by the resolver
/// that is registered under its prefix, asked for what follows the first
/// delimiter: its reply is the reply of the chain.
pub open spec fn may_resolve<R: Resolver>(
    chain: Seq<(Seq<char>, R)>,
    placeholder: Seq<char>,
    reply: Result<Json, Failure>,
) -> bool {
    if delimiter_at(placeholder) is None {
        reply matches Err(Failure::MissingDelimiter { placeholder: held }) && held@ == placeholder
    } else if !serves(chain, prefix_of(placeholder)) {
        reply matches Err(failure) && reports_unknown(failure, chain, prefix_of(placeholder))
    } else {
        exists|i: int|
            0 <= i < chain.len() && (#[trigger] chain[i]).0 == prefix_of(placeholder) && may_answer(
                chain[i].1,
                payload_of(placeholder),
                reply,
            )
    }
}

/// Collection of resolvers for populating values in templates, at most one
/// for each prefix. A chain of one kind of resolver knows what that kind
/// states of itself; a chain of `Box<dyn Resolver>` holds resolvers of any
/// kind.
///
/// The view lists the resolvers in the order of their registration, each
/// with the prefix that it named when it came in.
pub struct ResolverChain<R: Resolver> {
    resolvers: Vec<(String, R)>,
}

impl<R: Resolver> View for ResolverChain<R> {
    type V = Seq<(Seq<char>, R)>;

    closed spec fn view(&self) -> Seq<(Seq<char>, R)> {
        Seq::new(self.resolvers@.len(), |i: int| (self.resolvers@[i].0@, self.resolvers@[i].1))
    }
}

impl<R: Resolver> ResolverChain<R> {
    #[verifier::type_invariant]
    spec fn well_formed(self) -> bool {
        forall|i: int, j: int|
            0 <= i < j < self.resolvers@.len() ==> self.resolvers@[i].0@ != self.resolvers@[j].0@
    }

    /// Create an empty resolver chain.
    pub fn new() -> (chain: Self)
        ensures
            chain@ == Seq::<(Seq<char>, R)>::empty(),
    {
        let chain = ResolverChain { resolvers: Vec::new() };
        assert(chain@ =~= Seq::<(Seq<char>, R)>::empty());
        chain
    }

    /// Where the resolver that is registered under `prefix` stands.
    fn position(&self, prefix: &str) -> (found: Option<usize>)
        ensures
            match found {
                Some(i) => i < self@.len() && self@[i as int].0 == prefix@,
                None => !serves(self@, prefix@),
            },
    {
        let mut i: usize = 0;
        while i < self.resolvers.len()
            invariant
                i <= self.resolvers@.len(),
                self@.len() == self.resolvers@.len(),
                forall|j: int| 0 <= j < i ==> (#[trigger] self@[j]).0 != prefix@,
            decreases self.resolvers@.len() - i,
        {
            if crate::json::same_text(self.resolvers[i].0.as_str(), prefix) {
                return Some(i);
            }
            i += 1;
        }
        None
    }

    /// Add a new resolver to the store, if it does not conflict in prefix.
    ///
    /// Returns whether the resolver was taken: a chain that already has a
    /// resolver under the prefix stays as it is.
    pub fn add(&mut self, resolver: R) -> (added: bool)
        ensures
            exists|prefix: Seq<char>| #[trigger]
                may_serve(resolver, prefix) && added == !serves(old(self)@, prefix) && (added
                    ==> final(self)@ == old(self)@.push((prefix, resolver))),
            !added ==> final(self)@ == old(self)@,
            distinct_prefixes(final(self)@),
    {
        proof {
            use_type_invariant(&*self);
            assert(distinct_prefixes(self@));
        }
        let prefix = resolver.prefix();
        assert(may_serve(resolver, prefix@));
        if self.position(prefix).is_some() {
            return false;
        }
        let mut resolvers: Vec<(String, R)> = Vec::new();
        core::mem::swap(&mut self.resolvers, &mut resolvers);
        let ghost before = resolvers@;
        resolvers.push((String::from_str(prefix), resolver));
        proof {
            assert forall|i: int, j: int| 0 <= i < j < resolvers@.len() implies resolvers@[i].0@
                != resolvers@[j].0@ by {
                if j == before.len() {
                    assert(old(self)@[i].0 != prefix@);
                } else {
                    assert(before[i].0@ != before[j].0@);
                }
            }
        }
        self.resolvers = resolvers;
        proof {
            assert(self@ =~= old(self)@.push((prefix@, resolver)));
        }
        true
    }

    /// The prefixes under which the chain has resolvers, in the order of
    /// registration.
    pub fn known_prefixes(&self) -> (known: Vec<String>)
        ensures
            known@.len() == self@.len(),
            forall|i: int| 0 <= i < known@.len() ==> (#[trigger] known@[i])@ == self@[i].0,
    {
        let mut known: Vec<String> = Vec::new();
        let mut i: usize = 0;
        while i < self.resolvers.len()
            invariant
                i <= self.resolvers@.len(),
                self@.len() == self.resolvers@.len(),
                known@.len() == i,
                forall|j: int| 0 <= j < i ==> (#[trigger] known@[j])@ == self@[j].0,
            decreases self.resolvers@.len() - i,
        {
            known.push(self.resolvers[i].0.clone());
            i += 1;
        }
        known
    }

    /// Resolve a templated value, including its prefix.
    ///
    /// The value is split once, at its first `:`. Without one the call
    /// fails; so it does where no resolver is registered under the prefix,
    /// and the failure then lists the prefixes that are. Otherwise the
    /// resolver of that prefix is asked for the rest, and its reply is the
    /// result.
    pub fn resolve(&self, value: &str) -> (reply: Result<Json, Failure>)
        ensures
            may_resolve(self@, value@, reply),
    {
        let Some((at, length)) = find_delimiter(value) else {
            return Err(Failure::MissingDelimiter { placeholder: String::from_str(value) });
        };
        let prefix = value.substring_char(0, at);
        let name = value.substring_char(at + 1, length);
        assert(prefix@ == prefix_of(value@));
        assert(name@ == payload_of(value@));
        match self.position(prefix) {
            Some(i) => {
                let reply = self.resolvers[i].1.resolve(name);
                assert(may_answer(self@[i as int].1, payload_of(value@), reply));
                reply
            },
            None => Err(
                Failure::UnknownPrefix {
                    prefix: String::from_str(prefix),
                    known: self.known_prefixes(),
                },
            ),
        }
    }
}

/// The place of the first delimiter of `text`, with the length of `text`.
fn find_delimiter(text: &str) -> (found: Option<(usize, usize)>)
    ensures
        match found {
            Some((at, length)) => delimiter_at(text@) == Some(at as int) && at < length && length
                == text@.len(),
            None => delimiter_at(text@) is None,
        },
{
    let length = text.unicode_len();
    let mut i: usize = 0;
    while i < length
        invariant
            length == text@.len(),
            i <= length,
            forall|j: int| 0 <= j < i ==> text@[j] != DELIMITER,
        decreases length - i,
    {
        if text.get_char(i) == DELIMITER {
            proof {
                lemma_delimiter_at(text@, i as int);
            }
            return Some((i, length));
        }
        i += 1;
    }
    None
}

/// A resolver in a box resolves as the resolver in it does, so that a chain
/// of boxes can hold resolvers of several kinds.
impl<T: Resolver + ?Sized> Resolver for Box<T> {
    fn prefix(&self) -> (prefix: &'static str)
        ensures
            call_ensures(T::prefix, (&**self,), prefix),
    {
        (**self).prefix()
    }

    fn resolve(&self, name: &str) -> (reply: Result<Json, Failure>)
        ensures
            call_ensures(T::resolve, (&**self, name), reply),
    {
        (**self).resolve(name)
    }
}

/// The echo resolver: it reads the name as JSON text and gives back the
/// document that the text holds, as it stands. A name that is no JSON is a
/// failure.
pub struct EchoName;

impl Resolver for EchoName {
    fn prefix(&self) -> (prefix: &'static str)
        ensures
            prefix@ == "echo"@,
    {
        "echo"
    }

    fn resolve(&self, name: &str) -> (reply: Result<Json, Failure>)
        ensures
            match reply {
                Ok(json) => parsed(name@) == Some(json@),
                Err(failure) => parsed(name@) is None && failure is InvalidJson,
            },
    {
        Json::parse(name)
    }
}

/// The echo resolver, under the name that says what it reads: it resolves
/// as [`EchoName`] does.
pub struct EchoJson;

impl Resolver for EchoJson {
    fn prefix(&self) -> (prefix: &'static str)
        ensures
            prefix@ == "echo"@,
    {
        EchoName.prefix()
    }

    fn resolve(&self, name: &str) -> (reply: Result<Json, Failure>)
        ensures
            match reply {
                Ok(json) => parsed(name@) == Some(json@),
                Err(failure) => parsed(name@) is None && failure is InvalidJson,
            },
    {
        EchoName.resolve(name)
    }
}

} // verus!
