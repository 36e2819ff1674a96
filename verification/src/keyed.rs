//! A small table from names to values, for the places where the library
//! looks records up by a string.

use vstd::prelude::*;

verus! {

/// No two entries share a name.
pub open spec fn names_distinct<V>(entries: Seq<(String, V)>) -> bool {
    forall|i: int, j: int| 0 <= i < j < entries.len() ==> entries[i].0@ != entries[j].0@
}

/// Some entry has the name `name`.
pub open spec fn names<V>(entries: Seq<(String, V)>, name: Seq<char>) -> bool {
    exists|i: int| 0 <= i < entries.len() && #[trigger] entries[i].0@ == name
}

/// The map that a list of entries stands for; a later entry wins over an
/// earlier one with the same name.
pub closed spec fn table_of<V>(entries: Seq<(String, V)>) -> Map<Seq<char>, V>
    decreases entries.len(),
{
    if entries.len() == 0 {
        Map::empty()
    } else {
        table_of(entries.drop_last()).insert(entries.last().0@, entries.last().1)
    }
}

/// `list` holds the names of `table`, each once.
pub open spec fn lists_names<V>(list: Seq<String>, table: Map<Seq<char>, V>) -> bool {
    &&& forall|i: int| 0 <= i < list.len() ==> table.contains_key(#[trigger] list[i]@)
    &&& forall|i: int, j: int| 0 <= i < j < list.len() ==> list[i]@ != list[j]@
    &&& forall|name: Seq<char>|
        table.contains_key(name) ==> exists|i: int| 0 <= i < list.len() && #[trigger] list[i]@ == name
}

proof fn lemma_front_distinct<V>(entries: Seq<(String, V)>)
    requires
        names_distinct(entries),
        entries.len() > 0,
    ensures
        names_distinct(entries.drop_last()),
{
    let front = entries.drop_last();
    assert forall|a: int, b: int| 0 <= a < b < front.len() implies front[a].0@ != front[b].0@ by {
        assert(entries[a].0@ != entries[b].0@);
    }
}

proof fn lemma_table_names<V>(entries: Seq<(String, V)>, name: Seq<char>)
    ensures
        table_of(entries).contains_key(name) <==> names(entries, name),
    decreases entries.len(),
{
    if entries.len() > 0 {
        let front = entries.drop_last();
        lemma_table_names(front, name);
        if names(entries, name) {
            let i = choose|i: int| 0 <= i < entries.len() && #[trigger] entries[i].0@ == name;
            if i < front.len() {
                assert(front[i].0@ == name);
            }
        }
        if names(front, name) {
            let i = choose|i: int| 0 <= i < front.len() && #[trigger] front[i].0@ == name;
            assert(entries[i].0@ == name);
        }
        if entries.last().0@ == name {
            assert(entries[entries.len() - 1].0@ == name);
        }
    }
}

proof fn lemma_table_lookup<V>(entries: Seq<(String, V)>, i: int)
    requires
        names_distinct(entries),
        0 <= i < entries.len(),
    ensures
        table_of(entries).contains_key(entries[i].0@),
        table_of(entries)[entries[i].0@] == entries[i].1,
    decreases entries.len(),
{
    let front = entries.drop_last();
    if i < entries.len() - 1 {
        lemma_front_distinct(entries);
        lemma_table_lookup(front, i);
        assert(front[i] == entries[i]);
        assert(entries[i].0@ != entries[entries.len() - 1].0@);
    }
}

proof fn lemma_table_push<V>(entries: Seq<(String, V)>, entry: (String, V))
    requires
        names_distinct(entries),
        !names(entries, entry.0@),
    ensures
        names_distinct(entries.push(entry)),
        table_of(entries.push(entry)) == table_of(entries).insert(entry.0@, entry.1),
{
    let after = entries.push(entry);
    assert(after.drop_last() == entries);
    assert forall|a: int, b: int| 0 <= a < b < after.len() implies after[a].0@ != after[b].0@ by {
        if b == entries.len() {
            assert(entries[a].0@ != entry.0@);
        } else {
            assert(entries[a].0@ != entries[b].0@);
        }
    }
}

proof fn lemma_table_update<V>(entries: Seq<(String, V)>, i: int, entry: (String, V))
    requires
        names_distinct(entries),
        0 <= i < entries.len(),
        entry.0@ == entries[i].0@,
    ensures
        names_distinct(entries.update(i, entry)),
        table_of(entries.update(i, entry)) == table_of(entries).insert(entry.0@, entry.1),
{
    let after = entries.update(i, entry);
    assert(names_distinct(after)) by {
        assert forall|a: int, b: int| 0 <= a < b < after.len() implies after[a].0@ != after[b].0@ by {
            assert(entries[a].0@ != entries[b].0@);
        }
    }
    let left = table_of(after);
    let right = table_of(entries).insert(entry.0@, entry.1);
    assert forall|k: Seq<char>| left.contains_key(k) <==> right.contains_key(k) by {
        lemma_table_names(after, k);
        lemma_table_names(entries, k);
        if names(after, k) {
            let a = choose|a: int| 0 <= a < after.len() && #[trigger] after[a].0@ == k;
            assert(entries[a].0@ == k);
        }
        if names(entries, k) {
            let a = choose|a: int| 0 <= a < entries.len() && #[trigger] entries[a].0@ == k;
            assert(after[a].0@ == k);
        }
        if k == entry.0@ {
            assert(after[i].0@ == k);
        }
    }
    assert forall|k: Seq<char>| left.contains_key(k) implies left[k] == right[k] by {
        lemma_table_names(after, k);
        let a = choose|a: int| 0 <= a < after.len() && #[trigger] after[a].0@ == k;
        lemma_table_lookup(after, a);
        if a != i {
            lemma_table_lookup(entries, a);
        }
    }
    assert(left =~= right);
}

proof fn lemma_table_remove<V>(entries: Seq<(String, V)>, i: int)
    requires
        names_distinct(entries),
        0 <= i < entries.len(),
    ensures
        names_distinct(entries.remove(i)),
        table_of(entries.remove(i)) == table_of(entries).remove(entries[i].0@),
{
    let after = entries.remove(i);
    assert(names_distinct(after)) by {
        assert forall|a: int, b: int| 0 <= a < b < after.len() implies after[a].0@ != after[b].0@ by {
            let a0 = if a < i { a } else { a + 1 };
            let b0 = if b < i { b } else { b + 1 };
            assert(entries[a0].0@ != entries[b0].0@);
        }
    }
    let left = table_of(after);
    let right = table_of(entries).remove(entries[i].0@);
    assert forall|k: Seq<char>| left.contains_key(k) <==> right.contains_key(k) by {
        lemma_table_names(after, k);
        lemma_table_names(entries, k);
        if names(after, k) {
            let a = choose|a: int| 0 <= a < after.len() && #[trigger] after[a].0@ == k;
            let a0 = if a < i { a } else { a + 1 };
            assert(entries[a0].0@ == k);
            if a0 < i {
                assert(entries[a0].0@ != entries[i].0@);
            } else {
                assert(entries[i].0@ != entries[a0].0@);
            }
        }
        if names(entries, k) && k != entries[i].0@ {
            let a = choose|a: int| 0 <= a < entries.len() && #[trigger] entries[a].0@ == k;
            let a1 = if a < i { a } else { a - 1 };
            assert(after[a1].0@ == k);
        }
    }
    assert forall|k: Seq<char>| left.contains_key(k) implies left[k] == right[k] by {
        lemma_table_names(after, k);
        let a = choose|a: int| 0 <= a < after.len() && #[trigger] after[a].0@ == k;
        let a0 = if a < i { a } else { a + 1 };
        lemma_table_lookup(after, a);
        lemma_table_lookup(entries, a0);
    }
    assert(left =~= right);
}

/// A table from names to values, each name once.
pub struct Keyed<V> {
    entries: Vec<(String, V)>,
}

impl<V> View for Keyed<V> {
    type V = Map<Seq<char>, V>;

    closed spec fn view(&self) -> Map<Seq<char>, V> {
        table_of(self.entries@)
    }
}

impl<V> Keyed<V> {
    #[verifier::type_invariant]
    spec fn well_formed(self) -> bool {
        names_distinct(self.entries@)
    }

    /// The table without entries.
    pub fn new() -> (table: Self)
        ensures
            table@ == Map::<Seq<char>, V>::empty(),
    {
        Keyed { entries: Vec::new() }
    }

    /// Where the entry with the name `name` stands, if there is one.
    fn position(&self, name: &str) -> (found: Option<usize>)
        ensures
            match found {
                Some(i) => i < self.entries@.len() && self.entries@[i as int].0@ == name@,
                None => !names(self.entries@, name@),
            },
    {
        let mut i: usize = 0;
        while i < self.entries.len()
            invariant
                i <= self.entries@.len(),
                forall|j: int| 0 <= j < i ==> self.entries@[j].0@ != name@,
            decreases self.entries@.len() - i,
        {
            if crate::json::same_text(self.entries[i].0.as_str(), name) {
                return Some(i);
            }
            i += 1;
        }
        None
    }

    /// The value stored under `name`.
    pub fn get(&self, name: &str) -> (found: Option<&V>)
        ensures
            match found {
                Some(value) => self@.contains_key(name@) && *value == self@[name@],
                None => !self@.contains_key(name@),
            },
    {
        proof {
            use_type_invariant(self);
            lemma_table_names(self.entries@, name@);
        }
        match self.position(name) {
            Some(i) => {
                proof {
                    lemma_table_lookup(self.entries@, i as int);
                }
                Some(&self.entries[i].1)
            },
            None => None,
        }
    }

    /// Stores `value` under `name`, and hands back the value that it
    /// replaces, if there was one.
    pub fn insert(&mut self, name: String, value: V) -> (previous: Option<V>)
        ensures
            final(self)@ == old(self)@.insert(name@, value),
            match previous {
                Some(before) => old(self)@.contains_key(name@) && before == old(self)@[name@],
                None => !old(self)@.contains_key(name@),
            },
    {
        proof {
            use_type_invariant(&*self);
            lemma_table_names(self.entries@, name@);
        }
        let found = self.position(name.as_str());
        let mut entries: Vec<(String, V)> = Vec::new();
        core::mem::swap(&mut self.entries, &mut entries);
        let previous = match found {
            Some(i) => {
                proof {
                    lemma_table_lookup(entries@, i as int);
                    lemma_table_update(entries@, i as int, (name, value));
                }
                let mut slot = (name, value);
                entries.set_and_swap(i, &mut slot);
                Some(slot.1)
            },
            None => {
                proof {
                    lemma_table_push(entries@, (name, value));
                }
                entries.push((name, value));
                None
            },
        };
        self.entries = entries;
        previous
    }

    /// Takes the entry with the name `name` out, and hands back its value.
    pub fn remove(&mut self, name: &str) -> (removed: Option<V>)
        ensures
            final(self)@ == old(self)@.remove(name@),
            match removed {
                Some(before) => old(self)@.contains_key(name@) && before == old(self)@[name@],
                None => !old(self)@.contains_key(name@),
            },
    {
        proof {
            use_type_invariant(&*self);
            lemma_table_names(self.entries@, name@);
        }
        match self.position(name) {
            Some(i) => {
                let mut entries: Vec<(String, V)> = Vec::new();
                core::mem::swap(&mut self.entries, &mut entries);
                proof {
                    lemma_table_lookup(entries@, i as int);
                    lemma_table_remove(entries@, i as int);
                }
                let entry = entries.remove(i);
                self.entries = entries;
                Some(entry.1)
            },
            None => {
                assert(self@ =~= self@.remove(name@));
                None
            },
        }
    }

    /// The names of the table, each once.
    pub fn names(&self) -> (list: Vec<String>)
        ensures
            lists_names(list@, self@),
    {
        proof {
            use_type_invariant(self);
        }
        let mut list: Vec<String> = Vec::new();
        let mut i: usize = 0;
        while i < self.entries.len()
            invariant
                i <= self.entries@.len(),
                list@.len() == i,
                forall|j: int| 0 <= j < i ==> (#[trigger] list@[j])@ == self.entries@[j].0@,
            decreases self.entries@.len() - i,
        {
            list.push(self.entries[i].0.clone());
            i += 1;
        }
        proof {
            assert forall|j: int| 0 <= j < list@.len() implies self@.contains_key(
                #[trigger] list@[j]@,
            ) by {
                lemma_table_lookup(self.entries@, j);
            }
            assert forall|a: int, b: int| 0 <= a < b < list@.len() implies list@[a]@
                != list@[b]@ by {
                assert(self.entries@[a].0@ != self.entries@[b].0@);
            }
            assert forall|name: Seq<char>| self@.contains_key(name) implies exists|j: int|
                0 <= j < list@.len() && #[trigger] list@[j]@ == name by {
                lemma_table_names(self.entries@, name);
                let j = choose|j: int|
                    0 <= j < self.entries@.len() && #[trigger] self.entries@[j].0@ == name;
                assert(list@[j]@ == name);
            }
        }
        list
    }
}

} // verus!
