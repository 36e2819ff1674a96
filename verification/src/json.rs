//! JSON documents: the data that templates are made of.
//!
//! A document is modelled by [`JsonValue`], in which an object is a finite
//! map from keys to values. The executable type [`Json`] keeps the entries of
//! an object in a vector whose keys are pairwise distinct; every contract of
//! this crate speaks of the model only, so the order of the entries never
//! matters.

use crate::failure::Failure;
use vstd::prelude::*;
use vstd::set_lib::lemma_subset_equality;
use vstd::string::{StringExecFns, StringSliceAdditionalSpecFns};
use vstd::utf8::encode_utf8_decode_utf8;

verus! {

/// The mathematical value of a JSON document.
pub enum JsonValue {
    Null,
    Bool(bool),
    /// A number, by the characters in which `serde_json` writes it: a number
    /// that was read as `2.50` is `2.5` here.
    Number(Seq<char>),
    String(Seq<char>),
    Array(Seq<JsonValue>),
    Object(Map<Seq<char>, JsonValue>),
}

/// A JSON object: a set of entries with pairwise distinct keys.
#[derive(Debug)]
pub struct Object {
    entries: Vec<(String, Json)>,
}

/// A JSON document.
///
/// A number is carried as the text in which `serde_json` writes the number
/// that it read, which need not be the text that was read: nothing in this
/// crate computes with numbers.
#[derive(Debug)]
pub enum Json {
    Null,
    Bool(bool),
    Number(String),
    String(String),
    Array(Vec<Json>),
    Object(Object),
}

/// No two entries share a key.
pub open spec fn distinct_keys(entries: Seq<(String, Json)>) -> bool {
    forall|i: int, j: int| 0 <= i < j < entries.len() ==> entries[i].0@ != entries[j].0@
}

/// Some entry has the key `key`.
pub open spec fn has_key(entries: Seq<(String, Json)>, key: Seq<char>) -> bool {
    exists|i: int| 0 <= i < entries.len() && #[trigger] entries[i].0@ == key
}

/// The entries list exactly what the map `m` holds, each key once.
pub open spec fn enumerates(entries: Seq<(String, Json)>, m: Map<Seq<char>, JsonValue>) -> bool {
    &&& distinct_keys(entries)
    &&& forall|i: int|
        0 <= i < entries.len() ==> m.contains_key(#[trigger] entries[i].0@) && m[entries[i].0@]
            == entries[i].1@
    &&& forall|k: Seq<char>| m.contains_key(k) ==> has_key(entries, k)
}

/// One entry more has one key more: the keys of the first `i + 1` entries
/// are those of the first `i` and the key of the entry at `i`.
pub proof fn lemma_has_key_step(entries: Seq<(String, Json)>, i: int)
    requires
        0 <= i < entries.len(),
    ensures
        forall|k: Seq<char>|
            has_key(entries.take(i + 1), k) <==> has_key(entries.take(i), k) || k == entries[i].0@,
{
    let seen = entries.take(i);
    let now = entries.take(i + 1);
    assert forall|k: Seq<char>| has_key(now, k) <==> has_key(seen, k) || k == entries[i].0@ by {
        if has_key(now, k) {
            let j = choose|j: int| 0 <= j < now.len() && #[trigger] now[j].0@ == k;
            if j < i {
                assert(seen[j].0@ == k);
            }
        }
        if has_key(seen, k) {
            let j = choose|j: int| 0 <= j < seen.len() && #[trigger] seen[j].0@ == k;
            assert(now[j].0@ == k);
        }
        if k == entries[i].0@ {
            assert(now[i].0@ == k);
        }
    }
}

/// The keys of the entries that list a map are the keys of the map.
pub proof fn lemma_has_key_all(entries: Seq<(String, Json)>, m: Map<Seq<char>, JsonValue>)
    requires
        enumerates(entries, m),
    ensures
        forall|k: Seq<char>| has_key(entries, k) <==> m.contains_key(k),
{
    assert forall|k: Seq<char>| has_key(entries, k) implies m.contains_key(k) by {
        let j = choose|j: int| 0 <= j < entries.len() && #[trigger] entries[j].0@ == k;
        assert(m.contains_key(entries[j].0@));
    }
}

/// The map that a list of entries stands for; a later entry wins over an
/// earlier one with the same key.
pub closed spec fn entries_value(entries: Seq<(String, Json)>) -> Map<Seq<char>, JsonValue>
    decreases entries, 0nat,
{
    if entries.len() == 0 {
        Map::empty()
    } else {
        entries_value(entries.drop_last()).insert(entries.last().0@, json_value(entries.last().1))
    }
}

/// The values of the items of an array, in order.
pub open spec fn items_value(items: Seq<Json>) -> Seq<JsonValue>
    decreases items, 0nat,
{
    Seq::new(
        items.len(),
        |i: int|
            if 0 <= i < items.len() {
                json_value(items[i])
            } else {
                JsonValue::Null
            },
    )
}

/// The value of a document.
pub open spec fn json_value(j: Json) -> JsonValue
    decreases j, 1nat,
{
    match j {
        Json::Null => JsonValue::Null,
        Json::Bool(b) => JsonValue::Bool(b),
        Json::Number(n) => JsonValue::Number(n@),
        Json::String(s) => JsonValue::String(s@),
        Json::Array(a) => JsonValue::Array(items_value(a@)),
        Json::Object(o) => JsonValue::Object(o.view()),
    }
}

impl View for Json {
    type V = JsonValue;

    open spec fn view(&self) -> JsonValue {
        json_value(*self)
    }
}

impl View for Object {
    type V = Map<Seq<char>, JsonValue>;

    closed spec fn view(&self) -> Map<Seq<char>, JsonValue>
        decreases self,
    {
        entries_value(self.entries@)
    }
}

proof fn lemma_entries_keys(entries: Seq<(String, Json)>, key: Seq<char>)
    ensures
        entries_value(entries).contains_key(key) <==> has_key(entries, key),
    decreases entries.len(),
{
    if entries.len() > 0 {
        let front = entries.drop_last();
        lemma_entries_keys(front, key);
        if has_key(entries, key) {
            let i = choose|i: int| 0 <= i < entries.len() && #[trigger] entries[i].0@ == key;
            if i < front.len() {
                assert(front[i].0@ == key);
            }
        }
        if has_key(front, key) {
            let i = choose|i: int| 0 <= i < front.len() && #[trigger] front[i].0@ == key;
            assert(entries[i].0@ == key);
        }
        if entries.last().0@ == key {
            assert(entries[entries.len() - 1].0@ == key);
        }
    }
}

proof fn lemma_entries_lookup(entries: Seq<(String, Json)>, i: int)
    requires
        distinct_keys(entries),
        0 <= i < entries.len(),
    ensures
        entries_value(entries).contains_key(entries[i].0@),
        entries_value(entries)[entries[i].0@] == entries[i].1@,
    decreases entries.len(),
{
    let front = entries.drop_last();
    if i < entries.len() - 1 {
        assert(distinct_keys(front)) by {
            assert forall|a: int, b: int| 0 <= a < b < front.len() implies front[a].0@
                != front[b].0@ by {
                assert(entries[a].0@ != entries[b].0@);
            }
        }
        lemma_entries_lookup(front, i);
        assert(front[i] == entries[i]);
        assert(entries[i].0@ != entries[entries.len() - 1].0@);
    }
}

proof fn lemma_entries_enumerate(entries: Seq<(String, Json)>)
    requires
        distinct_keys(entries),
    ensures
        enumerates(entries, entries_value(entries)),
{
    assert forall|i: int| 0 <= i < entries.len() implies entries_value(entries).contains_key(
        #[trigger] entries[i].0@,
    ) && entries_value(entries)[entries[i].0@] == entries[i].1@ by {
        lemma_entries_lookup(entries, i);
    }
    assert forall|k: Seq<char>| entries_value(entries).contains_key(k) implies has_key(
        entries,
        k,
    ) by {
        lemma_entries_keys(entries, k);
    }
}

proof fn lemma_entries_push(entries: Seq<(String, Json)>, entry: (String, Json))
    ensures
        entries_value(entries.push(entry)) == entries_value(entries).insert(entry.0@, entry.1@),
{
    assert(entries.push(entry).drop_last() == entries);
}

proof fn lemma_entries_update(entries: Seq<(String, Json)>, i: int, value: Json)
    requires
        distinct_keys(entries),
        0 <= i < entries.len(),
    ensures
        distinct_keys(entries.update(i, (entries[i].0, value))),
        entries_value(entries.update(i, (entries[i].0, value))) == entries_value(entries).insert(
            entries[i].0@,
            value@,
        ),
{
    let after = entries.update(i, (entries[i].0, value));
    assert(distinct_keys(after)) by {
        assert forall|a: int, b: int| 0 <= a < b < after.len() implies after[a].0@ != after[b].0@ by {
            assert(entries[a].0@ != entries[b].0@);
        }
    }
    let left = entries_value(after);
    let right = entries_value(entries).insert(entries[i].0@, value@);
    assert forall|k: Seq<char>| left.contains_key(k) <==> right.contains_key(k) by {
        lemma_entries_keys(after, k);
        lemma_entries_keys(entries, k);
        if has_key(after, k) {
            let a = choose|a: int| 0 <= a < after.len() && #[trigger] after[a].0@ == k;
            assert(entries[a].0@ == k);
        }
        if has_key(entries, k) {
            let a = choose|a: int| 0 <= a < entries.len() && #[trigger] entries[a].0@ == k;
            assert(after[a].0@ == k);
        }
        if k == entries[i].0@ {
            assert(after[i].0@ == k);
        }
    }
    assert forall|k: Seq<char>| left.contains_key(k) implies left[k] == right[k] by {
        lemma_entries_keys(after, k);
        let a = choose|a: int| 0 <= a < after.len() && #[trigger] after[a].0@ == k;
        lemma_entries_lookup(after, a);
        if a != i {
            lemma_entries_lookup(entries, a);
        }
    }
    assert(left =~= right);
}

proof fn lemma_entries_remove(entries: Seq<(String, Json)>, i: int)
    requires
        distinct_keys(entries),
        0 <= i < entries.len(),
    ensures
        distinct_keys(entries.remove(i)),
        entries_value(entries.remove(i)) == entries_value(entries).remove(entries[i].0@),
{
    let after = entries.remove(i);
    assert(distinct_keys(after)) by {
        assert forall|a: int, b: int| 0 <= a < b < after.len() implies after[a].0@ != after[b].0@ by {
            let a0 = if a < i { a } else { a + 1 };
            let b0 = if b < i { b } else { b + 1 };
            assert(entries[a0].0@ != entries[b0].0@);
        }
    }
    let left = entries_value(after);
    let right = entries_value(entries).remove(entries[i].0@);
    assert forall|k: Seq<char>| left.contains_key(k) <==> right.contains_key(k) by {
        lemma_entries_keys(after, k);
        lemma_entries_keys(entries, k);
        if has_key(after, k) {
            let a = choose|a: int| 0 <= a < after.len() && #[trigger] after[a].0@ == k;
            let a0 = if a < i { a } else { a + 1 };
            assert(entries[a0].0@ == k);
            assert(a0 != i);
            if a0 < i {
                assert(entries[a0].0@ != entries[i].0@);
            } else {
                assert(entries[i].0@ != entries[a0].0@);
            }
        }
        if has_key(entries, k) && k != entries[i].0@ {
            let a = choose|a: int| 0 <= a < entries.len() && #[trigger] entries[a].0@ == k;
            let a1 = if a < i { a } else { a - 1 };
            assert(after[a1].0@ == k);
        }
    }
    assert forall|k: Seq<char>| left.contains_key(k) implies left[k] == right[k] by {
        lemma_entries_keys(after, k);
        let a = choose|a: int| 0 <= a < after.len() && #[trigger] after[a].0@ == k;
        let a0 = if a < i { a } else { a + 1 };
        lemma_entries_lookup(after, a);
        lemma_entries_lookup(entries, a0);
    }
    assert(left =~= right);
}

impl Object {
    #[verifier::type_invariant]
    spec fn well_formed(self) -> bool {
        distinct_keys(self.entries@)
    }

    /// The object without entries.
    pub fn new() -> (object: Object)
        ensures
            object@ == Map::<Seq<char>, JsonValue>::empty(),
    {
        Object { entries: Vec::new() }
    }

    /// Where the entry with the key `key` stands, if there is one.
    fn position(&self, key: &str) -> (found: Option<usize>)
        ensures
            match found {
                Some(i) => i < self.entries@.len() && self.entries@[i as int].0@ == key@,
                None => !has_key(self.entries@, key@),
            },
    {
        let mut i: usize = 0;
        while i < self.entries.len()
            invariant
                i <= self.entries@.len(),
                forall|j: int| 0 <= j < i ==> self.entries@[j].0@ != key@,
            decreases self.entries@.len() - i,
        {
            if same_text(self.entries[i].0.as_str(), key) {
                return Some(i);
            }
            i += 1;
        }
        None
    }

    /// The number of entries.
    pub fn len(&self) -> (n: usize)
        ensures
            n == self@.dom().len(),
            self@.dom().finite(),
    {
        proof {
            use_type_invariant(self);
            lemma_entries_count(self.entries@);
        }
        self.entries.len()
    }

    /// Whether the object has an entry with the key `key`.
    pub fn contains_key(&self, key: &str) -> (present: bool)
        ensures
            present == self@.contains_key(key@),
    {
        proof {
            lemma_entries_keys(self.entries@, key@);
        }
        self.position(key).is_some()
    }

    /// The value stored under `key`.
    pub fn get(&self, key: &str) -> (found: Option<&Json>)
        ensures
            match found {
                Some(value) => self@.contains_key(key@) && value@ == self@[key@],
                None => !self@.contains_key(key@),
            },
    {
        proof {
            use_type_invariant(self);
            lemma_entries_keys(self.entries@, key@);
        }
        match self.position(key) {
            Some(i) => {
                proof {
                    lemma_entries_lookup(self.entries@, i as int);
                }
                Some(&self.entries[i].1)
            },
            None => None,
        }
    }

    /// Stores `value` under `key`, and hands back the value that it
    /// replaces, if there was one.
    pub fn insert(&mut self, key: String, value: Json) -> (previous: Option<Json>)
        ensures
            final(self)@ == old(self)@.insert(key@, value@),
            match previous {
                Some(before) => old(self)@.contains_key(key@) && before@ == old(self)@[key@],
                None => !old(self)@.contains_key(key@),
            },
    {
        proof {
            use_type_invariant(&*self);
            lemma_entries_keys(self.entries@, key@);
        }
        let found = self.position(key.as_str());
        let mut entries: Vec<(String, Json)> = Vec::new();
        core::mem::swap(&mut self.entries, &mut entries);
        let ghost before = entries@;
        let previous = match found {
            Some(i) => {
                proof {
                    lemma_entries_lookup(before, i as int);
                    lemma_entries_update(before, i as int, value);
                }
                let mut slot = (key, value);
                entries.set_and_swap(i, &mut slot);
                proof {
                    lemma_entries_same(before.update(i as int, (before[i as int].0, value)), entries@);
                }
                Some(slot.1)
            },
            None => {
                proof {
                    lemma_entries_push(before, (key, value));
                    assert forall|a: int, b: int| 0 <= a < b < before.len() + 1 implies before.push(
                        (key, value),
                    )[a].0@ != before.push((key, value))[b].0@ by {
                        if b == before.len() {
                            assert(before[a].0@ != key@);
                        }
                    }
                }
                entries.push((key, value));
                None
            },
        };
        self.entries = entries;
        previous
    }

    /// Takes the entry with the key `key` out, and hands back its value.
    pub fn remove(&mut self, key: &str) -> (removed: Option<Json>)
        ensures
            final(self)@ == old(self)@.remove(key@),
            match removed {
                Some(before) => old(self)@.contains_key(key@) && before@ == old(self)@[key@],
                None => !old(self)@.contains_key(key@),
            },
    {
        proof {
            use_type_invariant(&*self);
            lemma_entries_keys(self.entries@, key@);
        }
        let found = self.position(key);
        match found {
            Some(i) => {
                let mut entries: Vec<(String, Json)> = Vec::new();
                core::mem::swap(&mut self.entries, &mut entries);
                proof {
                    lemma_entries_lookup(entries@, i as int);
                    lemma_entries_remove(entries@, i as int);
                }
                let entry = entries.remove(i);
                self.entries = entries;
                Some(entry.1)
            },
            None => {
                assert(self@ =~= self@.remove(key@));
                None
            },
        }
    }

    /// The entries of the object, each key once.
    pub fn entries(&self) -> (entries: &Vec<(String, Json)>)
        ensures
            enumerates(entries@, self@),
    {
        proof {
            use_type_invariant(self);
            lemma_entries_enumerate(self.entries@);
        }
        &self.entries
    }

    /// Gives the entries of the object up, each key once.
    pub fn into_entries(self) -> (entries: Vec<(String, Json)>)
        ensures
            enumerates(entries@, self@),
    {
        proof {
            use_type_invariant(&self);
            lemma_entries_enumerate(self.entries@);
        }
        self.entries
    }
}

proof fn lemma_entries_count(entries: Seq<(String, Json)>)
    requires
        distinct_keys(entries),
    ensures
        entries_value(entries).dom().finite(),
        entries_value(entries).dom().len() == entries.len(),
    decreases entries.len(),
{
    if entries.len() > 0 {
        let front = entries.drop_last();
        assert(distinct_keys(front)) by {
            assert forall|a: int, b: int| 0 <= a < b < front.len() implies front[a].0@
                != front[b].0@ by {
                assert(entries[a].0@ != entries[b].0@);
            }
        }
        lemma_entries_count(front);
        lemma_entries_keys(front, entries.last().0@);
        if has_key(front, entries.last().0@) {
            let a = choose|a: int| 0 <= a < front.len() && #[trigger] front[a].0@ == entries.last().0@;
            assert(entries[a].0@ != entries[entries.len() - 1].0@);
        }
    }
}

impl Clone for Object {
    fn clone(&self) -> (copy: Object)
        ensures
            copy@ == self@,
        decreases self,
    {
        proof {
            use_type_invariant(self);
        }
        let mut entries: Vec<(String, Json)> = Vec::new();
        let mut i: usize = 0;
        while i < self.entries.len()
            invariant
                i <= self.entries@.len(),
                entries@.len() == i,
                forall|j: int|
                    0 <= j < i ==> entries@[j].0@ == self.entries@[j].0@ && entries@[j].1@
                        == self.entries@[j].1@,
            decreases self.entries@.len() - i,
        {
            let key = self.entries[i].0.clone();
            let value = self.entries[i].1.clone();
            entries.push((key, value));
            i += 1;
        }
        proof {
            lemma_entries_same(self.entries@, entries@);
        }
        Object { entries }
    }
}

impl Clone for Json {
    fn clone(&self) -> (copy: Json)
        ensures
            copy@ == self@,
        decreases self,
    {
        match self {
            Json::Null => Json::Null,
            Json::Bool(b) => Json::Bool(*b),
            Json::Number(n) => Json::Number(n.clone()),
            Json::String(s) => Json::String(s.clone()),
            Json::Array(items) => {
                let mut copies: Vec<Json> = Vec::new();
                let mut i: usize = 0;
                while i < items.len()
                    invariant
                        i <= items@.len(),
                        copies@.len() == i,
                        forall|j: int| 0 <= j < i ==> copies@[j]@ == items@[j]@,
                        self is Array,
                        self->Array_0 == *items,
                    decreases items@.len() - i,
                {
                    let item = items[i].clone();
                    copies.push(item);
                    i += 1;
                }
                assert(items_value(copies@) =~= items_value(items@));
                Json::Array(copies)
            },
            Json::Object(object) => Json::Object(object.clone()),
        }
    }
}

/// Entries that agree key by key and value by value stand for the same map.
proof fn lemma_entries_same(a: Seq<(String, Json)>, b: Seq<(String, Json)>)
    requires
        a.len() == b.len(),
        forall|j: int| 0 <= j < a.len() ==> a[j].0@ == b[j].0@ && a[j].1@ == b[j].1@,
    ensures
        entries_value(a) == entries_value(b),
        distinct_keys(a) ==> distinct_keys(b),
    decreases a.len(),
{
    if a.len() > 0 {
        lemma_entries_same(a.drop_last(), b.drop_last());
    }
    if distinct_keys(a) {
        assert forall|i: int, j: int| 0 <= i < j < b.len() implies b[i].0@ != b[j].0@ by {
            assert(a[i].0@ != a[j].0@);
        }
    }
}

/// Whether two strings hold the same characters.
pub fn same_text(a: &str, b: &str) -> (same: bool)
    ensures
        same == (a@ == b@),
{
    let ours = a.as_bytes();
    let theirs = b.as_bytes();
    proof {
        // A string and its bytes determine each other.
        encode_utf8_decode_utf8(a@);
        encode_utf8_decode_utf8(b@);
    }
    if ours.len() != theirs.len() {
        return false;
    }
    let mut i: usize = 0;
    while i < ours.len()
        invariant
            i <= ours@.len(),
            ours@.len() == theirs@.len(),
            ours@ == a.spec_bytes(),
            theirs@ == b.spec_bytes(),
            forall|j: int| 0 <= j < i ==> ours@[j] == theirs@[j],
        decreases ours@.len() - i,
    {
        if ours[i] != theirs[i] {
            return false;
        }
        i += 1;
    }
    assert(ours@ =~= theirs@);
    true
}

impl Object {
    /// Whether the two objects hold the same entries.
    pub fn same_value(&self, other: &Object) -> (same: bool)
        ensures
            same == (self@ == other@),
        decreases self,
    {
        proof {
            use_type_invariant(self);
            use_type_invariant(other);
            lemma_entries_count(self.entries@);
            lemma_entries_count(other.entries@);
            lemma_entries_enumerate(self.entries@);
        }
        if self.entries.len() != other.entries.len() {
            return false;
        }
        let mut i: usize = 0;
        while i < self.entries.len()
            invariant
                i <= self.entries@.len(),
                enumerates(self.entries@, self@),
                forall|j: int|
                    0 <= j < i ==> other@.contains_key(#[trigger] self.entries@[j].0@)
                        && other@[self.entries@[j].0@] == self.entries@[j].1@,
            decreases self.entries@.len() - i,
        {
            match other.get(self.entries[i].0.as_str()) {
                Some(theirs) => {
                    if !self.entries[i].1.same_value(theirs) {
                        return false;
                    }
                },
                None => {
                    return false;
                },
            }
            i += 1;
        }
        proof {
            assert(self@.dom().subset_of(other@.dom())) by {
                assert forall|k: Seq<char>| self@.dom().contains(k) implies other@.dom().contains(
                    k,
                ) by {
                    assert(self@.contains_key(k));
                    assert(has_key(self.entries@, k));
                    let j = choose|j: int|
                        0 <= j < self.entries@.len() && #[trigger] self.entries@[j].0@ == k;
                }
            }
            lemma_subset_equality(self@.dom(), other@.dom());
            assert forall|k: Seq<char>| self@.contains_key(k) implies self@[k] == other@[k] by {
                assert(has_key(self.entries@, k));
                let j = choose|j: int|
                    0 <= j < self.entries@.len() && #[trigger] self.entries@[j].0@ == k;
            }
            assert(self@ =~= other@);
        }
        true
    }
}

impl Json {
    /// Whether the two documents have the same value: objects are compared
    /// as sets of entries, whatever the order in which their keys came in.
    pub fn same_value(&self, other: &Json) -> (same: bool)
        ensures
            same == (self@ == other@),
        decreases self,
    {
        match (self, other) {
            (Json::Null, Json::Null) => true,
            (Json::Bool(a), Json::Bool(b)) => *a == *b,
            (Json::Number(a), Json::Number(b)) => same_text(a.as_str(), b.as_str()),
            (Json::String(a), Json::String(b)) => same_text(a.as_str(), b.as_str()),
            (Json::Array(ours), Json::Array(theirs)) => {
                if ours.len() != theirs.len() {
                    assert(items_value(ours@).len() != items_value(theirs@).len());
                    return false;
                }
                let mut i: usize = 0;
                while i < ours.len()
                    invariant
                        i <= ours@.len(),
                        ours@.len() == theirs@.len(),
                        forall|j: int| 0 <= j < i ==> ours@[j]@ == theirs@[j]@,
                        self is Array,
                        self->Array_0 == *ours,
                        other is Array,
                        other->Array_0 == *theirs,
                    decreases ours@.len() - i,
                {
                    if !ours[i].same_value(&theirs[i]) {
                        assert(items_value(ours@)[i as int] != items_value(theirs@)[i as int]);
                        return false;
                    }
                    i += 1;
                }
                assert(items_value(ours@) =~= items_value(theirs@));
                true
            },
            (Json::Object(ours), Json::Object(theirs)) => ours.same_value(theirs),
            _ => false,
        }
    }

    /// The text of a string; `None` for any other document.
    pub fn as_str(&self) -> (text: Option<&str>)
        ensures
            match text {
                Some(t) => self@ == JsonValue::String(t@),
                None => !(self@ is String),
            },
    {
        match self {
            Json::String(s) => Some(s.as_str()),
            _ => None,
        }
    }

    /// The entries of an object; `None` for any other document.
    pub fn as_object(&self) -> (object: Option<&Object>)
        ensures
            match object {
                Some(o) => self@ == JsonValue::Object(o@),
                None => !(self@ is Object),
            },
    {
        match self {
            Json::Object(o) => Some(o),
            _ => None,
        }
    }
}

impl PartialEq for Object {
    fn eq(&self, other: &Object) -> (same: bool) {
        self.same_value(other)
    }
}

impl vstd::std_specs::cmp::PartialEqSpecImpl for Object {
    open spec fn obeys_eq_spec() -> bool {
        true
    }

    open spec fn eq_spec(&self, other: &Object) -> bool {
        self@ == other@
    }
}

impl PartialEq for Json {
    fn eq(&self, other: &Json) -> (same: bool) {
        self.same_value(other)
    }
}

impl vstd::std_specs::cmp::PartialEqSpecImpl for Json {
    open spec fn obeys_eq_spec() -> bool {
        true
    }

    open spec fn eq_spec(&self, other: &Json) -> bool {
        self@ == other@
    }
}

/// `serde_json::Value`, carried as it is: what it holds is told by
/// [`value_model`] alone.
#[verifier::external_type_specification]
#[verifier::external_body]
pub struct ExValue(serde_json::Value);

/// `serde_json::Error`, carried as it is.
#[verifier::external_type_specification]
#[verifier::external_body]
pub struct ExParseError(serde_json::Error);

/// What `serde_json::from_str` makes of a text: the document that it reads
/// from it, or `None` where it reports an error.
pub uninterp spec fn parsed(text: Seq<char>) -> Option<JsonValue>;

/// The document that a `serde_json::Value` holds, a number by the characters
/// that its `to_string` gives.
pub uninterp spec fn value_model(value: serde_json::Value) -> JsonValue;

/// The outermost layer of a `serde_json::Value`.
enum Shape<'a> {
    Null,
    Bool(bool),
    Number(String),
    String(&'a str),
    Array(&'a Vec<serde_json::Value>),
    Object(Vec<(&'a String, &'a serde_json::Value)>),
}

/// `shape` is the outermost layer of a value whose document is `model`.
spec fn shape_of(shape: Shape, model: JsonValue) -> bool {
    match shape {
        Shape::Null => model == JsonValue::Null,
        Shape::Bool(b) => model == JsonValue::Bool(b),
        Shape::Number(n) => model == JsonValue::Number(n@),
        Shape::String(s) => model == JsonValue::String(s@),
        Shape::Array(items) => {
            &&& model matches JsonValue::Array(values)
            &&& values.len() == items@.len()
            &&& forall|i: int| 0 <= i < items@.len() ==> values[i] == value_model(#[trigger] items@[i])
        },
        Shape::Object(members) => {
            &&& model matches JsonValue::Object(m)
            &&& forall|i: int, j: int|
                0 <= i < j < members@.len() ==> members@[i].0@ != members@[j].0@
            &&& forall|i: int|
                0 <= i < members@.len() ==> m.contains_key(#[trigger] members@[i].0@)
                    && m[members@[i].0@] == value_model(*members@[i].1)
            &&& forall|k: Seq<char>|
                m.contains_key(k) ==> exists|i: int|
                    0 <= i < members@.len() && #[trigger] members@[i].0@ == k
        },
    }
}

/// `serde_json::from_str`, read as a `serde_json::Value`. The contract names
/// the outcome: it is [`parsed`] of the text, an error where that is `None`.
#[verifier::external_body]
fn parse_value(text: &str) -> (outcome: Result<serde_json::Value, serde_json::Error>)
    ensures
        match outcome {
            Ok(value) => parsed(text@) == Some(value_model(value)),
            Err(_) => parsed(text@) is None,
        },
{
    serde_json::from_str::<serde_json::Value>(text)
}

/// Takes a `serde_json::Value` apart by its variant, with `Number::to_string`
/// for a number and `Map::iter` for the members of an object. The contract
/// says that the parts are those of the value: the text of a number or a
/// string, the items of an array in order, and the members of an object, each
/// key once (`serde_json::Map` keeps one entry per key).
#[verifier::external_body]
fn open_value<'a>(value: &'a serde_json::Value) -> (shape: Shape<'a>)
    ensures
        shape_of(shape, value_model(*value)),
{
    match value {
        serde_json::Value::Null => Shape::Null,
        serde_json::Value::Bool(b) => Shape::Bool(*b),
        serde_json::Value::Number(n) => Shape::Number(n.to_string()),
        serde_json::Value::String(s) => Shape::String(s.as_str()),
        serde_json::Value::Array(items) => Shape::Array(items),
        serde_json::Value::Object(members) => Shape::Object(members.iter().collect()),
    }
}

/// The `to_string` of a `serde_json::Error`: its message with line and
/// column. Nothing is claimed of the text.
#[verifier::external_body]
fn describe(error: &serde_json::Error) -> String {
    error.to_string()
}

impl Json {
    /// The document that a `serde_json::Value` holds.
    pub fn from_value(value: &serde_json::Value) -> (json: Json)
        ensures
            json@ == value_model(*value),
        decreases value_model(*value),
    {
        match open_value(value) {
            Shape::Null => Json::Null,
            Shape::Bool(b) => Json::Bool(b),
            Shape::Number(n) => Json::Number(n),
            Shape::String(s) => Json::String(String::from_str(s)),
            Shape::Array(items) => {
                let ghost values = value_model(*value)->Array_0;
                let mut converted: Vec<Json> = Vec::new();
                let mut i: usize = 0;
                while i < items.len()
                    invariant
                        i <= items@.len(),
                        converted@.len() == i,
                        value_model(*value) is Array,
                        value_model(*value)->Array_0 == values,
                        values.len() == items@.len(),
                        forall|j: int| 0 <= j < items@.len() ==> values[j] == value_model(#[trigger] items@[j]),
                        forall|j: int| 0 <= j < i ==> converted@[j]@ == values[j],
                    decreases items@.len() - i,
                {
                    assert(values[i as int] == value_model(items@[i as int]));
                    let item = Json::from_value(&items[i]);
                    converted.push(item);
                    i += 1;
                }
                assert(items_value(converted@) =~= values);
                Json::Array(converted)
            },
            Shape::Object(members) => {
                let ghost m = value_model(*value)->Object_0;
                let mut object = Object::new();
                let mut i: usize = 0;
                while i < members.len()
                    invariant
                        i <= members@.len(),
                        value_model(*value) is Object,
                        value_model(*value)->Object_0 == m,
                        shape_of(Shape::Object(members), value_model(*value)),
                        forall|k: Seq<char>|
                            object@.contains_key(k) <==> exists|j: int|
                                0 <= j < i && #[trigger] members@[j].0@ == k,
                        forall|k: Seq<char>| object@.contains_key(k) ==> object@[k] == m[k],
                    decreases members.len() - i,
                {
                    let ghost before = object@;
                    assert(m.contains_key(members@[i as int].0@));
                    let child = Json::from_value(members[i].1);
                    object.insert(members[i].0.clone(), child);
                    proof {
                        let key = members@[i as int].0@;
                        assert forall|k: Seq<char>| object@.contains_key(k) implies exists|j: int|
                            0 <= j < i + 1 && #[trigger] members@[j].0@ == k by {
                            if k != key {
                                assert(before.contains_key(k));
                                let j = choose|j: int| 0 <= j < i && #[trigger] members@[j].0@ == k;
                                assert(0 <= j < i + 1 && members@[j].0@ == k);
                            } else {
                                assert(members@[i as int].0@ == k);
                            }
                        }
                        assert forall|k: Seq<char>|
                            (exists|j: int|
                                0 <= j < i + 1 && #[trigger] members@[j].0@ == k) implies object@.contains_key(
                            k,
                        ) by {
                            let j = choose|j: int| 0 <= j < i + 1 && #[trigger] members@[j].0@ == k;
                            if j < i {
                                assert(before.contains_key(k));
                            }
                        }
                    }
                    i += 1;
                }
                proof {
                    assert forall|k: Seq<char>| m.contains_key(k) implies object@.contains_key(k) by {
                        let j = choose|j: int|
                            0 <= j < members@.len() && #[trigger] members@[j].0@ == k;
                    }
                    assert forall|k: Seq<char>| object@.contains_key(k) implies m.contains_key(k) by {
                        let j = choose|j: int| 0 <= j < i && #[trigger] members@[j].0@ == k;
                    }
                    assert(object@ =~= m);
                }
                Json::Object(object)
            },
        }
    }
}

impl Json {
    /// Reads a document from JSON text.
    ///
    /// The result is what `serde_json` reads from the text, named by
    /// [`parsed`]; a text that it refuses gives [`Failure::InvalidJson`].
    pub fn parse(text: &str) -> (outcome: Result<Json, Failure>)
        ensures
            match outcome {
                Ok(json) => parsed(text@) == Some(json@),
                Err(failure) => parsed(text@) is None && failure is InvalidJson,
            },
    {
        match parse_value(text) {
            Ok(value) => Ok(Json::from_value(&value)),
            Err(error) => Err(Failure::InvalidJson { detail: describe(&error) }),
        }
    }
}

} // verus!
