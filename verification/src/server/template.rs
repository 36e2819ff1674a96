//! Engine for populating configuration templates.
//!
//! A template is a JSON document in which a key that begins with the
//! template mark holds a placeholder, `prefix:payload`. Merging lets a
//! template inherit from a default; population replaces each placeholder by
//! what a resolver makes of it.

use crate::failure::Failure;
use crate::json::{
    enumerates, has_key, lemma_has_key_all, lemma_has_key_step, Json, JsonValue, Object,
};
use crate::server::resolver::{may_resolve, Resolver, ResolverChain};
use vstd::prelude::*;
use vstd::string::StringExecFns;

verus! {

/// Marker character used for template strings.
pub const TEMPLATE_MARK: &'static str = "*";

/// The template mark, as a character.
pub open spec fn mark() -> char {
    '*'
}

/// [`TEMPLATE_MARK`] holds the template mark and nothing else.
pub proof fn lemma_template_mark()
    ensures
        TEMPLATE_MARK@ == seq![mark()],
{
    reveal_strlit("*");
    assert(TEMPLATE_MARK@ =~= seq![mark()]);
}

/// How deep resolved values may bring new placeholders when nobody sets a
/// bound: as deep as the machine can count. A placeholder in a template
/// counts one, a placeholder in what it resolved to counts two.
pub const MAX_RESOLVE_DEPTH: usize = usize::MAX;

/// What merging `src` into `dest` gives.
///
/// Between two objects, a key that only `src` has comes over with its
/// value, a key that both have is merged in turn, and a key that only `dest`
/// has stays. In every other case `dest` stays as it is.
pub open spec fn merged(dest: JsonValue, src: JsonValue) -> JsonValue
    decreases src,
{
    match (dest, src) {
        (JsonValue::Object(d), JsonValue::Object(s)) => JsonValue::Object(
            Map::new(
                |k: Seq<char>| d.contains_key(k) || s.contains_key(k),
                |k: Seq<char>|
                    if d.contains_key(k) {
                        if s.contains_key(k) {
                            merged(d[k], s[k])
                        } else {
                            d[k]
                        }
                    } else {
                        s[k]
                    },
            ),
        ),
        _ => dest,
    }
}

/// Merge two raw template objects, remaining aware of unpopulated values.
///
/// This does not overwrite data. If a property is present in both the
/// destination template and the source template, then the destination
/// template's value will be preserved. Keys are compared as they are
/// written: a marked key and the same key without its mark are two keys.
pub fn merge_templates(dest: &mut Json, src: &Json)
    ensures
        final(dest)@ == merged(old(dest)@, src@),
{
    let mut taken = Json::Null;
    core::mem::swap(dest, &mut taken);
    *dest = merge_into(taken, src);
}

/// `dest` with `src` merged into it.
fn merge_into(dest: Json, src: &Json) -> (result: Json)
    ensures
        result@ == merged(dest@, src@),
    decreases src@,
{
    match (dest, src) {
        (Json::Object(mut object), Json::Object(theirs)) => {
            let ghost d = object@;
            let ghost s = theirs@;
            let entries = theirs.entries();
            let mut i: usize = 0;
            while i < entries.len()
                invariant
                    i <= entries@.len(),
                    enumerates(entries@, s),
                    src@ is Object,
                    src@->Object_0 == s,
                    forall|k: Seq<char>|
                        object@.contains_key(k) <==> d.contains_key(k) || has_key(
                            entries@.take(i as int),
                            k,
                        ),
                    forall|k: Seq<char>| #[trigger]
                        object@.contains_key(k) ==> object@[k] == if d.contains_key(k) {
                            if has_key(entries@.take(i as int), k) {
                                merged(d[k], s[k])
                            } else {
                                d[k]
                            }
                        } else {
                            s[k]
                        },
                decreases entries@.len() - i,
            {
                let ghost before = object@;
                let ghost key = entries@[i as int].0@;
                let ghost seen = entries@.take(i as int);
                let ghost now = entries@.take(i + 1);
                proof {
                    lemma_has_key_step(entries@, i as int);
                    assert(s.contains_key(key));
                    if has_key(seen, key) {
                        let j = choose|j: int| 0 <= j < seen.len() && #[trigger] seen[j].0@ == key;
                        assert(entries@[j].0@ != entries@[i as int].0@);
                    }
                }
                let value = match object.insert(entries[i].0.clone(), Json::Null) {
                    Some(ours) => merge_into(ours, &entries[i].1),
                    None => entries[i].1.clone(),
                };
                object.insert(entries[i].0.clone(), value);
                proof {
                    assert(object@ =~= before.insert(key, value@));
                    assert forall|k: Seq<char>|
                        object@.contains_key(k) <==> d.contains_key(k) || has_key(now, k) by {
                        assert(has_key(now, k) <==> has_key(seen, k) || k == key);
                        assert(object@.contains_key(k) <==> before.contains_key(k) || k == key);
                    }
                }
                i += 1;
            }
            proof {
                assert(entries@.take(i as int) == entries@);
                lemma_has_key_all(entries@, s);
                assert(object@ =~= merged(JsonValue::Object(d), JsonValue::Object(s))->Object_0);
            }
            Json::Object(object)
        },
        (dest, _) => dest,
    }
}

/// Merging a key that only the source has brings its value over.
pub proof fn lemma_merge_brings_missing_keys(
    dest: Map<Seq<char>, JsonValue>,
    src: Map<Seq<char>, JsonValue>,
    key: Seq<char>,
)
    requires
        src.contains_key(key),
        !dest.contains_key(key),
    ensures
        merged(JsonValue::Object(dest), JsonValue::Object(src))->Object_0.contains_key(key),
        merged(JsonValue::Object(dest), JsonValue::Object(src))->Object_0[key] == src[key],
{
}

/// Merging objects without a common key gives the union of their entries,
/// whichever of the two is merged into the other.
pub proof fn lemma_merge_disjoint(a: Map<Seq<char>, JsonValue>, b: Map<Seq<char>, JsonValue>)
    requires
        forall|k: Seq<char>| !(a.contains_key(k) && b.contains_key(k)),
    ensures
        merged(JsonValue::Object(a), JsonValue::Object(b)) == JsonValue::Object(a.union_prefer_right(b)),
        merged(JsonValue::Object(a), JsonValue::Object(b)) == merged(
            JsonValue::Object(b),
            JsonValue::Object(a),
        ),
{
    let ab = merged(JsonValue::Object(a), JsonValue::Object(b))->Object_0;
    let ba = merged(JsonValue::Object(b), JsonValue::Object(a))->Object_0;
    assert(ab =~= a.union_prefer_right(b));
    assert(ab =~= ba);
}

/// Merging a document into itself changes nothing.
pub proof fn lemma_merge_self(a: JsonValue)
    ensures
        merged(a, a) == a,
    decreases a,
{
    match a {
        JsonValue::Object(m) => {
            let r = merged(a, a)->Object_0;
            assert forall|k: Seq<char>| m.contains_key(k) implies #[trigger] r[k] == m[k] by {
                lemma_merge_self(m[k]);
            }
            assert(r =~= m);
        },
        _ => {},
    }
}

/// Merging the same source a second time changes nothing.
pub proof fn lemma_merge_idempotent(dest: JsonValue, src: JsonValue)
    ensures
        merged(merged(dest, src), src) == merged(dest, src),
    decreases src,
{
    match (dest, src) {
        (JsonValue::Object(d), JsonValue::Object(s)) => {
            let once = merged(dest, src)->Object_0;
            let twice = merged(merged(dest, src), src)->Object_0;
            assert forall|k: Seq<char>| once.contains_key(k) implies #[trigger] twice[k] == once[k] by {
                if s.contains_key(k) {
                    if d.contains_key(k) {
                        lemma_merge_idempotent(d[k], s[k]);
                    } else {
                        lemma_merge_self(s[k]);
                    }
                }
            }
            assert(twice =~= once);
        },
        _ => {},
    }
}

/// The destination wins: where both objects have a key and the two values
/// are not both objects, merging keeps the value of the destination.
pub proof fn lemma_merge_destination_wins(
    dest: Map<Seq<char>, JsonValue>,
    src: Map<Seq<char>, JsonValue>,
    key: Seq<char>,
)
    requires
        dest.contains_key(key),
        src.contains_key(key),
        !(dest[key] is Object && src[key] is Object),
    ensures
        merged(JsonValue::Object(dest), JsonValue::Object(src))->Object_0.contains_key(key),
        merged(JsonValue::Object(dest), JsonValue::Object(src))->Object_0[key] == dest[key],
{
    assert(merged(dest[key], src[key]) == dest[key]);
}

/// Whether `key` begins with the template mark.
pub open spec fn is_marked(key: Seq<char>) -> bool {
    key.len() > 0 && key[0] == mark()
}

/// `key` behind one template mark.
pub open spec fn marked(key: Seq<char>) -> Seq<char> {
    seq![mark()] + key
}

/// The keys of an object after population: the unmarked keys of `m`, and
/// the marked ones without their mark.
pub open spec fn target_keys(m: Map<Seq<char>, JsonValue>) -> Set<Seq<char>> {
    Set::new(|k: Seq<char>| (m.contains_key(k) && !is_marked(k)) || m.contains_key(marked(k)))
}

/// Whether `output` may stand under the key `k` of the population of
/// `object`, an object with the entries `m`.
///
/// Where `m` has `k` with a mark, the value there is a placeholder, and
/// `output` is the population of what the chain may answer for it: a marked
/// key wins over the same key without mark. Otherwise `output` is the
/// population of what `m` has under `k`.
pub open spec fn populates_key<R: Resolver>(
    chain: Seq<(Seq<char>, R)>,
    object: JsonValue,
    k: Seq<char>,
    output: JsonValue,
    depth: nat,
) -> bool
    recommends
        object is Object,
    decreases depth, object, 0nat,
{
    let m = object->Object_0;
    if !(object is Object) {
        false
    } else if m.contains_key(marked(k)) {
        &&& depth > 0
        &&& m[marked(k)] is String
        &&& exists|answer: Json| #[trigger]
            may_resolve(chain, m[marked(k)]->String_0, Ok(answer)) && populates(
                chain,
                answer@,
                output,
                (depth - 1) as nat,
            )
    } else {
        m.contains_key(k) && populates(chain, m[k], output, depth)
    }
}

/// Whether `output` may be the population of `input` through `chain`, with
/// placeholders at most `depth` deep.
///
/// Only objects are populated, and only those that are reached through
/// objects: any other document stays as it is, arrays included. What a
/// placeholder resolves to is populated in turn, one level deeper.
pub open spec fn populates<R: Resolver>(
    chain: Seq<(Seq<char>, R)>,
    input: JsonValue,
    output: JsonValue,
    depth: nat,
) -> bool
    decreases depth, input, 1nat,
{
    match input {
        JsonValue::Object(m) => {
            &&& output is Object
            &&& output->Object_0.dom() =~= target_keys(m)
            &&& forall|k: Seq<char>| #[trigger]
                output->Object_0.contains_key(k) ==> populates_key(
                    chain,
                    input,
                    k,
                    output->Object_0[k],
                    depth,
                )
        },
        _ => output == input,
    }
}

/// Nothing is left to resolve: no object that is reached through objects
/// has a marked key.
pub open spec fn settled(value: JsonValue) -> bool
    decreases value,
{
    match value {
        JsonValue::Object(m) => forall|k: Seq<char>| #[trigger]
            m.contains_key(k) ==> !is_marked(k) && settled(m[k]),
        _ => true,
    }
}

/// Whether population may report `failure` on account of the entry of
/// `object` under `key`.
///
/// Under a marked key, a value that is no string is a failure that names the
/// key; a placeholder fails where no depth is left, where the chain fails
/// for it, and where the population of what the chain answers fails. Under
/// another key the population of the value may fail, unless the key also
/// stands there with a mark.
pub open spec fn fails_at<R: Resolver>(
    chain: Seq<(Seq<char>, R)>,
    object: JsonValue,
    key: Seq<char>,
    depth: nat,
    failure: Failure,
) -> bool
    recommends
        object is Object,
    decreases depth, object, 0nat,
{
    let m = object->Object_0;
    if !(object is Object) || !m.contains_key(key) {
        false
    } else if !is_marked(key) {
        !m.contains_key(marked(key)) && fails(chain, m[key], depth, failure)
    } else if !(m[key] is String) {
        failure matches Failure::NonStringValue { key: named } && named@ == key
    } else if depth == 0 {
        failure is ResolutionTooDeep
    } else {
        ||| may_resolve(chain, m[key]->String_0, Err(failure))
        ||| exists|answer: Json| #[trigger]
            may_resolve(chain, m[key]->String_0, Ok(answer)) && fails(
                chain,
                answer@,
                (depth - 1) as nat,
                failure,
            )
    }
}

/// Whether the population of `input` through `chain`, with placeholders at
/// most `depth` deep, may report `failure`: some entry of an object that is
/// reached through objects gives rise to it.
pub open spec fn fails<R: Resolver>(
    chain: Seq<(Seq<char>, R)>,
    input: JsonValue,
    depth: nat,
    failure: Failure,
) -> bool
    decreases depth, input, 1nat,
{
    &&& input is Object
    &&& exists|key: Seq<char>| #[trigger]
        input->Object_0.contains_key(key) && fails_at(chain, input, key, depth, failure)
}

/// Whether `key` begins with the template mark.
pub fn starts_with_mark(key: &str) -> (yes: bool)
    ensures
        yes == is_marked(key@),
{
    key.unicode_len() > 0 && key.get_char(0) == '*'
}

/// A marked key without its mark; `None` for a key that has no mark. One
/// mark is taken off, whatever follows it.
pub fn strip_mark(key: &str) -> (raw: Option<String>)
    ensures
        match raw {
            Some(rest) => is_marked(key@) && rest@ == key@.skip(1) && marked(rest@) == key@,
            None => !is_marked(key@),
        },
{
    if starts_with_mark(key) {
        let rest = key.substring_char(1, key.unicode_len());
        proof {
            assert(marked(key@.skip(1)) =~= key@);
        }
        Some(String::from_str(rest))
    } else {
        None
    }
}

/// The population of `value`, with placeholders at most `depth` deep.
fn populated<R: Resolver>(value: &Json, chain: &ResolverChain<R>, depth: usize) -> (outcome: Result<
    Json,
    Failure,
>)
    ensures
        match outcome {
            Ok(json) => populates(chain@, value@, json@, depth as nat),
            Err(failure) => fails(chain@, value@, depth as nat, failure),
        },
    decreases depth, value@,
{
    let Some(object) = value.as_object() else {
        return Ok(value.clone());
    };
    let ghost m = object@;
    let entries = object.entries();
    let mut result = Object::new();
    // The marked keys first: what they resolve to goes under the bare key.
    let mut i: usize = 0;
    while i < entries.len()
        invariant
            i <= entries@.len(),
            enumerates(entries@, m),
            value@ is Object,
            value@->Object_0 == m,
            forall|k: Seq<char>| #[trigger]
                result@.contains_key(k) <==> has_key(entries@.take(i as int), marked(k)),
            forall|k: Seq<char>| #[trigger]
                result@.contains_key(k) ==> populates_key(chain@, value@, k, result@[k], depth as nat),
        decreases entries@.len() - i,
    {
        let ghost key = entries@[i as int].0@;
        proof {
            lemma_has_key_step(entries@, i as int);
            assert(m.contains_key(key) && m[key] == entries@[i as int].1@);
        }
        if let Some(raw) = strip_mark(entries[i].0.as_str()) {
            let Some(placeholder) = entries[i].1.as_str() else {
                let failure = Failure::NonStringValue { key: entries[i].0.clone() };
                proof {
                    lemma_fails(chain@, value@, key, depth as nat, failure);
                }
                return Err(failure);
            };
            if depth == 0 {
                proof {
                    lemma_fails(chain@, value@, key, depth as nat, Failure::ResolutionTooDeep);
                }
                return Err(Failure::ResolutionTooDeep);
            }
            let answer = match chain.resolve(placeholder) {
                Ok(answer) => answer,
                Err(failure) => {
                    proof {
                        lemma_fails(chain@, value@, key, depth as nat, failure);
                    }
                    return Err(failure);
                },
            };
            let child = match populated(&answer, chain, depth - 1) {
                Ok(child) => child,
                Err(failure) => {
                    proof {
                        lemma_fails_resolved(chain@, value@, key, answer, depth as nat, failure);
                    }
                    return Err(failure);
                },
            };
            result.insert(raw, child);
            proof {
                lemma_key_resolved(chain@, value@, raw@, answer, child@, depth as nat);
                assert forall|k: Seq<char>| marked(k) == key implies k == raw@ by {
                    assert(k =~= marked(k).skip(1));
                }
            }
        }
        i += 1;
    }
    proof {
        assert(entries@.take(i as int) == entries@);
        lemma_has_key_all(entries@, m);
    }
    // Then the other keys, but for those that a marked key has taken.
    let mut i: usize = 0;
    while i < entries.len()
        invariant
            i <= entries@.len(),
            enumerates(entries@, m),
            value@ is Object,
            value@->Object_0 == m,
            forall|k: Seq<char>| has_key(entries@, k) <==> m.contains_key(k),
            forall|k: Seq<char>| #[trigger]
                result@.contains_key(k) <==> m.contains_key(marked(k)) || (!is_marked(k)
                    && has_key(entries@.take(i as int), k)),
            forall|k: Seq<char>| #[trigger]
                result@.contains_key(k) ==> populates_key(chain@, value@, k, result@[k], depth as nat),
        decreases entries@.len() - i,
    {
        let ghost key = entries@[i as int].0@;
        proof {
            lemma_has_key_step(entries@, i as int);
            assert(m.contains_key(key) && m[key] == entries@[i as int].1@);
        }
        if !starts_with_mark(entries[i].0.as_str()) && !result.contains_key(entries[i].0.as_str()) {
            let child = match populated(&entries[i].1, chain, depth) {
                Ok(child) => child,
                Err(failure) => {
                    proof {
                        lemma_fails(chain@, value@, key, depth as nat, failure);
                    }
                    return Err(failure);
                },
            };
            result.insert(entries[i].0.clone(), child);
        }
        i += 1;
    }
    proof {
        assert(entries@.take(i as int) == entries@);
    }
    Ok(Json::Object(result))
}

/// Populate a JSON value with the results of templated strings.
///
/// In every object that is reached through objects, a key that begins with
/// the template mark must hold a placeholder; the key loses its mark and
/// gets what the chain resolves the placeholder to, in place of anything
/// that stood under the unmarked key. What was resolved is populated in
/// turn, however deep the placeholders lead: the levels are counted, and
/// only a count beyond [`MAX_RESOLVE_DEPTH`] ends in
/// [`Failure::ResolutionTooDeep`]. Arrays stay as they are.
///
/// A document in which nothing is marked is left as it is, and no resolver
/// is asked. On failure the document is left as it was, and the failure is
/// one that [`fails`] admits.
pub fn populate_template<R: Resolver>(value: &mut Json, chain: &ResolverChain<R>) -> (outcome:
    Result<(), Failure>)
    ensures
        match outcome {
            Ok(_) => populates(chain@, old(value)@, final(value)@, MAX_RESOLVE_DEPTH as nat),
            Err(failure) => final(value)@ == old(value)@ && fails(
                chain@,
                old(value)@,
                MAX_RESOLVE_DEPTH as nat,
                failure,
            ),
        },
        settled(old(value)@) ==> outcome is Ok && final(value)@ == old(value)@,
{
    populate_within(value, chain, MAX_RESOLVE_DEPTH)
}

/// Populates as [`populate_template`] does, for a caller who guards against
/// resolvers that answer with placeholders without end: what would take
/// more than `depth` levels of resolution ends in
/// [`Failure::ResolutionTooDeep`].
pub fn populate_within<R: Resolver>(
    value: &mut Json,
    chain: &ResolverChain<R>,
    depth: usize,
) -> (outcome: Result<(), Failure>)
    ensures
        match outcome {
            Ok(_) => populates(chain@, old(value)@, final(value)@, depth as nat),
            Err(failure) => final(value)@ == old(value)@ && fails(
                chain@,
                old(value)@,
                depth as nat,
                failure,
            ),
        },
        settled(old(value)@) ==> outcome is Ok && final(value)@ == old(value)@,
{
    match populated(value, chain, depth) {
        Ok(json) => {
            proof {
                if settled(value@) {
                    lemma_settled_stays(chain@, value@, json@, depth as nat);
                }
            }
            *value = json;
            Ok(())
        },
        Err(failure) => {
            proof {
                lemma_settled_never_fails(chain@, value@, depth as nat, failure);
            }
            Err(failure)
        },
    }
}

/// What a placeholder resolved to, populated, may stand under its key.
proof fn lemma_key_resolved<R: Resolver>(
    chain: Seq<(Seq<char>, R)>,
    object: JsonValue,
    k: Seq<char>,
    answer: Json,
    output: JsonValue,
    depth: nat,
)
    requires
        object is Object,
        object->Object_0.contains_key(marked(k)),
        object->Object_0[marked(k)] is String,
        depth > 0,
        may_resolve(chain, object->Object_0[marked(k)]->String_0, Ok(answer)),
        populates(chain, answer@, output, (depth - 1) as nat),
    ensures
        populates_key(chain, object, k, output, depth),
{
    let m = object->Object_0;
    assert(exists|answer: Json| #[trigger]
        may_resolve(chain, m[marked(k)]->String_0, Ok(answer)) && populates(
            chain,
            answer@,
            output,
            (depth - 1) as nat,
        ));
}

/// A failure on account of one entry is a failure of the population.
proof fn lemma_fails<R: Resolver>(
    chain: Seq<(Seq<char>, R)>,
    object: JsonValue,
    key: Seq<char>,
    depth: nat,
    failure: Failure,
)
    requires
        object is Object,
        object->Object_0.contains_key(key),
        fails_at(chain, object, key, depth, failure),
    ensures
        fails(chain, object, depth, failure),
{
    assert(exists|key: Seq<char>| #[trigger]
        object->Object_0.contains_key(key) && fails_at(chain, object, key, depth, failure));
}

/// Where the population of what a placeholder resolved to fails, so does the
/// population of the object that holds the placeholder.
proof fn lemma_fails_resolved<R: Resolver>(
    chain: Seq<(Seq<char>, R)>,
    object: JsonValue,
    key: Seq<char>,
    answer: Json,
    depth: nat,
    failure: Failure,
)
    requires
        object is Object,
        object->Object_0.contains_key(key),
        is_marked(key),
        object->Object_0[key] is String,
        depth > 0,
        may_resolve(chain, object->Object_0[key]->String_0, Ok(answer)),
        fails(chain, answer@, (depth - 1) as nat, failure),
    ensures
        fails(chain, object, depth, failure),
{
    let m = object->Object_0;
    assert(exists|answer: Json| #[trigger]
        may_resolve(chain, m[key]->String_0, Ok(answer)) && fails(
            chain,
            answer@,
            (depth - 1) as nat,
            failure,
        ));
    assert(fails_at(chain, object, key, depth, failure));
    lemma_fails(chain, object, key, depth, failure);
}

/// Population of a document in which nothing is marked never fails.
pub proof fn lemma_settled_never_fails<R: Resolver>(
    chain: Seq<(Seq<char>, R)>,
    input: JsonValue,
    depth: nat,
    failure: Failure,
)
    requires
        fails(chain, input, depth, failure),
    ensures
        !settled(input),
    decreases input,
{
    let m = input->Object_0;
    let key = choose|key: Seq<char>| #[trigger]
        m.contains_key(key) && fails_at(chain, input, key, depth, failure);
    if !is_marked(key) {
        lemma_settled_never_fails(chain, m[key], depth, failure);
    }
}

/// A mark behind which a key stands is the first character of the whole.
proof fn lemma_marked(key: Seq<char>)
    ensures
        is_marked(marked(key)),
        marked(key).skip(1) == key,
{
    assert(marked(key).skip(1) =~= key);
}

/// Population leaves a document in which nothing is marked as it is.
pub proof fn lemma_settled_stays<R: Resolver>(
    chain: Seq<(Seq<char>, R)>,
    input: JsonValue,
    output: JsonValue,
    depth: nat,
)
    requires
        settled(input),
        populates(chain, input, output, depth),
    ensures
        output == input,
    decreases input,
{
    match input {
        JsonValue::Object(m) => {
            let out = output->Object_0;
            assert forall|k: Seq<char>| out.contains_key(k) <==> m.contains_key(k) by {
                lemma_marked(k);
                assert(target_keys(m).contains(k) <==> out.contains_key(k));
            }
            assert forall|k: Seq<char>| out.contains_key(k) implies #[trigger] out[k] == m[k] by {
                lemma_marked(k);
                assert(populates_key(chain, input, k, out[k], depth));
                lemma_settled_stays(chain, m[k], out[k], depth);
            }
            assert(out =~= m);
        },
        _ => {},
    }
}

/// No key begins with the template mark, in any object of the document,
/// those inside arrays included.
pub open spec fn mark_free(value: JsonValue) -> bool
    decreases value,
{
    match value {
        JsonValue::Object(m) => forall|k: Seq<char>| #[trigger]
            m.contains_key(k) ==> !is_marked(k) && mark_free(m[k]),
        JsonValue::Array(items) => forall|i: int|
            0 <= i < items.len() ==> mark_free(#[trigger] items[i]),
        _ => true,
    }
}

/// Population can take every mark out of the document: no key carries two
/// marks, and no array holds a marked key. What population never reads is
/// free: the value under a marked key, and the value under a key that also
/// stands there with a mark.
pub open spec fn resolvable(value: JsonValue) -> bool
    decreases value,
{
    match value {
        JsonValue::Object(m) => forall|k: Seq<char>| #[trigger]
            m.contains_key(k) ==> if is_marked(k) {
                !is_marked(k.skip(1))
            } else {
                m.contains_key(marked(k)) || resolvable(m[k])
            },
        JsonValue::Array(items) => forall|i: int|
            0 <= i < items.len() ==> mark_free(#[trigger] items[i]),
        _ => true,
    }
}

/// Population removes the marks: where the template and every document that
/// the chain may answer are [`resolvable`], no key of the populated document
/// begins with the template mark.
pub proof fn lemma_population_removes_marks<R: Resolver>(
    chain: Seq<(Seq<char>, R)>,
    input: JsonValue,
    output: JsonValue,
    depth: nat,
)
    requires
        populates(chain, input, output, depth),
        resolvable(input),
        forall|placeholder: Seq<char>, answer: Json| #[trigger]
            may_resolve(chain, placeholder, Ok(answer)) ==> resolvable(answer@),
    ensures
        mark_free(output),
    decreases depth, input,
{
    match input {
        JsonValue::Object(m) => {
            let out = output->Object_0;
            assert forall|k: Seq<char>| #[trigger] out.contains_key(k) implies !is_marked(k)
                && mark_free(out[k]) by {
                lemma_marked(k);
                assert(target_keys(m).contains(k));
                assert(populates_key(chain, input, k, out[k], depth));
                if m.contains_key(marked(k)) {
                    let answer = choose|answer: Json| #[trigger]
                        may_resolve(chain, m[marked(k)]->String_0, Ok(answer)) && populates(
                            chain,
                            answer@,
                            out[k],
                            (depth - 1) as nat,
                        );
                    lemma_population_removes_marks(chain, answer@, out[k], (depth - 1) as nat);
                } else {
                    lemma_population_removes_marks(chain, m[k], out[k], depth);
                }
            }
        },
        _ => {},
    }
}

/// The chain gives at most one document for each placeholder.
pub open spec fn single_valued<R: Resolver>(chain: Seq<(Seq<char>, R)>) -> bool {
    forall|placeholder: Seq<char>, first: Json, second: Json|
        #![trigger
            may_resolve(chain, placeholder, Ok(first)),
            may_resolve(chain, placeholder, Ok(second)),
        ]
        may_resolve(chain, placeholder, Ok(first)) && may_resolve(chain, placeholder, Ok(second))
            ==> first@ == second@
}

/// Population is determined by the answers: through a chain that gives at
/// most one document for each placeholder, a template has at most one
/// population, whatever the depth that was allowed.
pub proof fn lemma_population_is_determined<R: Resolver>(
    chain: Seq<(Seq<char>, R)>,
    input: JsonValue,
    first: JsonValue,
    second: JsonValue,
    depth: nat,
    other_depth: nat,
)
    requires
        single_valued(chain),
        populates(chain, input, first, depth),
        populates(chain, input, second, other_depth),
    ensures
        first == second,
    decreases depth, input,
{
    match input {
        JsonValue::Object(m) => {
            let a = first->Object_0;
            let b = second->Object_0;
            assert forall|k: Seq<char>| a.contains_key(k) implies #[trigger] a[k] == b[k] by {
                assert(target_keys(m).contains(k));
                assert(populates_key(chain, input, k, a[k], depth));
                assert(populates_key(chain, input, k, b[k], other_depth));
                if m.contains_key(marked(k)) {
                    let placeholder = m[marked(k)]->String_0;
                    let x = choose|answer: Json| #[trigger]
                        may_resolve(chain, placeholder, Ok(answer)) && populates(
                            chain,
                            answer@,
                            a[k],
                            (depth - 1) as nat,
                        );
                    let y = choose|answer: Json| #[trigger]
                        may_resolve(chain, placeholder, Ok(answer)) && populates(
                            chain,
                            answer@,
                            b[k],
                            (other_depth - 1) as nat,
                        );
                    assert(x@ == y@);
                    lemma_population_is_determined(
                        chain,
                        x@,
                        a[k],
                        b[k],
                        (depth - 1) as nat,
                        (other_depth - 1) as nat,
                    );
                } else {
                    lemma_population_is_determined(chain, m[k], a[k], b[k], depth, other_depth);
                }
            }
            assert(a =~= b);
        },
        _ => {},
    }
}

/// The bound takes nothing from a population: what populates a template
/// within some depth populates it within every greater depth.
pub proof fn lemma_population_keeps_with_depth<R: Resolver>(
    chain: Seq<(Seq<char>, R)>,
    input: JsonValue,
    output: JsonValue,
    depth: nat,
    greater: nat,
)
    requires
        populates(chain, input, output, depth),
        depth <= greater,
    ensures
        populates(chain, input, output, greater),
    decreases depth, input,
{
    match input {
        JsonValue::Object(m) => {
            let out = output->Object_0;
            assert forall|k: Seq<char>| #[trigger] out.contains_key(k) implies populates_key(
                chain,
                input,
                k,
                out[k],
                greater,
            ) by {
                assert(populates_key(chain, input, k, out[k], depth));
                if m.contains_key(marked(k)) {
                    let answer = choose|answer: Json| #[trigger]
                        may_resolve(chain, m[marked(k)]->String_0, Ok(answer)) && populates(
                            chain,
                            answer@,
                            out[k],
                            (depth - 1) as nat,
                        );
                    lemma_population_keeps_with_depth(
                        chain,
                        answer@,
                        out[k],
                        (depth - 1) as nat,
                        (greater - 1) as nat,
                    );
                    lemma_key_resolved(chain, input, k, answer, out[k], greater);
                } else {
                    lemma_population_keeps_with_depth(chain, m[k], out[k], depth, greater);
                }
            }
        },
        _ => {},
    }
}

} // verus!
