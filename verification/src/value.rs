//! Typed attribute values and the structured map that holds them by name.

use vstd::prelude::*;
use crate::text::{bool_text, bool_to_text, i64_to_text, signed_decimal, u64_to_text};

verus! {

/// A typed value stored under an attribute name.
#[derive(Debug)]
pub enum FieldValue {
    Int(i64),
    UInt(u64),
    Bool(bool),
    Str(String),
}

/// What a stored value means: a number, a boolean or a text.
pub enum JsonValue {
    Number(int),
    Bool(bool),
    Text(Seq<char>),
}

impl View for FieldValue {
    type V = JsonValue;

    open spec fn view(&self) -> JsonValue {
        match self {
            FieldValue::Int(n) => JsonValue::Number(*n as int),
            FieldValue::UInt(n) => JsonValue::Number(*n as int),
            FieldValue::Bool(b) => JsonValue::Bool(*b),
            FieldValue::Str(s) => JsonValue::Text(s@),
        }
    }
}

/// Display form of a value: decimal digits, `true` or `false`, or the text
/// itself.
pub open spec fn display_text(value: JsonValue) -> Seq<char> {
    match value {
        JsonValue::Number(n) => signed_decimal(n),
        JsonValue::Bool(b) => bool_text(b),
        JsonValue::Text(s) => s,
    }
}

impl FieldValue {
    /// Writes the value in its display form.
    pub fn to_text(&self) -> (s: String)
        ensures
            s@ == display_text(self@),
    {
        match self {
            FieldValue::Int(n) => i64_to_text(*n),
            FieldValue::UInt(n) => u64_to_text(*n),
            FieldValue::Bool(b) => bool_to_text(*b),
            FieldValue::Str(s) => s.clone(),
        }
    }

    /// A copy of the value.
    pub fn duplicate(&self) -> (copy: FieldValue)
        ensures
            copy@ == self@,
    {
        match self {
            FieldValue::Int(n) => FieldValue::Int(*n),
            FieldValue::UInt(n) => FieldValue::UInt(*n),
            FieldValue::Bool(b) => FieldValue::Bool(*b),
            FieldValue::Str(s) => FieldValue::Str(s.clone()),
        }
    }
}

/// One name with its value.
#[derive(Debug)]
pub struct FieldEntry {
    pub name: String,
    pub value: FieldValue,
}

/// Some entry of `entries` carries the name `key`.
pub open spec fn has_name(entries: Seq<FieldEntry>, key: Seq<char>) -> bool {
    exists|i: int| 0 <= i < entries.len() && (#[trigger] entries[i]).name@ == key
}

/// The position of an entry named `key`.
pub open spec fn index_of(entries: Seq<FieldEntry>, key: Seq<char>) -> int {
    choose|i: int| 0 <= i < entries.len() && (#[trigger] entries[i]).name@ == key
}

/// No two entries share a name.
pub open spec fn distinct_names(entries: Seq<FieldEntry>) -> bool {
    forall|i: int, j: int|
        0 <= i < j < entries.len() ==> (#[trigger] entries[i]).name@ != (
        #[trigger] entries[j]).name@
}

/// The mapping from name to value that a list of entries stands for.
pub open spec fn entries_map(entries: Seq<FieldEntry>) -> Map<Seq<char>, JsonValue> {
    Map::new(
        |key: Seq<char>| has_name(entries, key),
        |key: Seq<char>| entries[index_of(entries, key)].value@,
    )
}

proof fn lemma_entry_value(entries: Seq<FieldEntry>, i: int)
    requires
        distinct_names(entries),
        0 <= i < entries.len(),
    ensures
        has_name(entries, entries[i].name@),
        entries_map(entries)[entries[i].name@] == entries[i].value@,
{
    let key = entries[i].name@;
    let j = index_of(entries, key);
    assert(0 <= j < entries.len() && entries[j].name@ == key);
    assert(i == j);
}

proof fn lemma_push_entry(entries: Seq<FieldEntry>, entry: FieldEntry)
    requires
        distinct_names(entries),
        !has_name(entries, entry.name@),
    ensures
        distinct_names(entries.push(entry)),
        entries_map(entries.push(entry)) == entries_map(entries).insert(entry.name@, entry.value@),
{
    let after = entries.push(entry);
    assert(distinct_names(after)) by {
        assert forall|i: int, j: int| 0 <= i < j < after.len() implies (#[trigger] after[i]).name@
            != (#[trigger] after[j]).name@ by {
            if j < entries.len() {
                assert(entries[i].name@ != entries[j].name@);
            } else {
                assert(entries[i].name@ != entry.name@);
            }
        }
    }
    let want = entries_map(entries).insert(entry.name@, entry.value@);
    assert forall|key: Seq<char>| has_name(after, key) <==> want.contains_key(key) by {
        if has_name(after, key) {
            let i = index_of(after, key);
            if i < entries.len() {
                assert(entries[i].name@ == key);
            }
        }
        if want.contains_key(key) {
            if key == entry.name@ {
                assert(after[entries.len() as int].name@ == key);
            } else {
                let i = index_of(entries, key);
                assert(after[i].name@ == key);
            }
        }
    }
    assert forall|key: Seq<char>| has_name(after, key) implies entries_map(after)[key]
        == want[key] by {
        let i = index_of(after, key);
        lemma_entry_value(after, i);
        if i < entries.len() {
            lemma_entry_value(entries, i);
        }
    }
    assert(entries_map(after) =~= want);
}

proof fn lemma_replace_entry(entries: Seq<FieldEntry>, at: int, entry: FieldEntry)
    requires
        distinct_names(entries),
        0 <= at < entries.len(),
        entries[at].name@ == entry.name@,
    ensures
        distinct_names(entries.update(at, entry)),
        entries_map(entries.update(at, entry)) == entries_map(entries).insert(
            entry.name@,
            entry.value@,
        ),
{
    let after = entries.update(at, entry);
    assert(distinct_names(after)) by {
        assert forall|i: int, j: int| 0 <= i < j < after.len() implies (#[trigger] after[i]).name@
            != (#[trigger] after[j]).name@ by {
            assert(entries[i].name@ != entries[j].name@);
        }
    }
    let want = entries_map(entries).insert(entry.name@, entry.value@);
    assert forall|key: Seq<char>| has_name(after, key) <==> want.contains_key(key) by {
        if has_name(after, key) {
            let i = index_of(after, key);
            assert(entries[i].name@ == key);
        }
        if want.contains_key(key) {
            if key == entry.name@ {
                assert(after[at].name@ == key);
            } else {
                let i = index_of(entries, key);
                assert(after[i].name@ == key);
            }
        }
    }
    assert forall|key: Seq<char>| has_name(after, key) implies entries_map(after)[key]
        == want[key] by {
        let i = index_of(after, key);
        lemma_entry_value(after, i);
        if i != at {
            lemma_entry_value(entries, i);
        }
    }
    assert(entries_map(after) =~= want);
}

proof fn lemma_entries_count(entries: Seq<FieldEntry>)
    requires
        distinct_names(entries),
    ensures
        entries_map(entries).dom().finite(),
        entries_map(entries).len() == entries.len(),
    decreases entries.len(),
{
    if entries.len() == 0 {
        assert(entries_map(entries).dom() =~= Set::empty());
    } else {
        let front = entries.drop_last();
        let last = entries.last();
        assert(distinct_names(front)) by {
            assert forall|i: int, j: int| 0 <= i < j < front.len() implies (
            #[trigger] front[i]).name@ != (#[trigger] front[j]).name@ by {
                assert(entries[i].name@ != entries[j].name@);
            }
        }
        assert(!has_name(front, last.name@)) by {
            if has_name(front, last.name@) {
                let i = index_of(front, last.name@);
                assert(entries[i].name@ != entries[entries.len() - 1].name@);
            }
        }
        lemma_entries_count(front);
        lemma_push_entry(front, last);
        assert(front.push(last) =~= entries);
        assert(entries_map(entries).dom() =~= entries_map(front).dom().insert(last.name@));
    }
}

/// A mapping from attribute name to typed value. Names are unique: a later
/// write under a name replaces the earlier value.
#[derive(Debug)]
pub struct FieldMap {
    entries: Vec<FieldEntry>,
}

impl View for FieldMap {
    type V = Map<Seq<char>, JsonValue>;

    closed spec fn view(&self) -> Map<Seq<char>, JsonValue> {
        entries_map(self.entries@)
    }
}

impl FieldMap {
    #[verifier::type_invariant]
    spec fn well_formed(&self) -> bool {
        distinct_names(self.entries@)
    }

    /// The entries in the order in which their names were first written.
    pub closed spec fn listing(&self) -> Seq<FieldEntry> {
        self.entries@
    }

    /// An empty map.
    pub fn new() -> (map: FieldMap)
        ensures
            map@ == Map::<Seq<char>, JsonValue>::empty(),
            map.listing().len() == 0,
    {
        let map = FieldMap { entries: Vec::new() };
        assert(map@ =~= Map::<Seq<char>, JsonValue>::empty());
        map
    }

    fn position(&self, name: &String) -> (found: Option<usize>)
        ensures
            match found {
                Some(i) => i < self.entries@.len() && self.entries@[i as int].name@ == name@,
                None => !has_name(self.entries@, name@),
            },
    {
        let mut i: usize = 0;
        while i < self.entries.len()
            invariant
                i <= self.entries@.len(),
                forall|j: int| 0 <= j < i ==> (#[trigger] self.entries@[j]).name@ != name@,
            decreases self.entries@.len() - i,
        {
            if self.entries[i].name == *name {
                return Some(i);
            }
            i = i + 1;
        }
        None
    }

    /// The number of names in the map.
    pub fn len(&self) -> (n: usize)
        ensures
            n == self@.len(),
            n == self.listing().len(),
            self@.dom().finite(),
    {
        proof {
            use_type_invariant(self);
            lemma_entries_count(self.entries@);
        }
        self.entries.len()
    }

    /// The entries as a list that holds each name once and stands for the
    /// map.
    pub fn entries(&self) -> (list: &Vec<FieldEntry>)
        ensures
            list@ == self.listing(),
            distinct_names(list@),
            entries_map(list@) == self@,
    {
        proof {
            use_type_invariant(self);
        }
        &self.entries
    }

    /// The entry at a position of the listing.
    pub fn entry(&self, i: usize) -> (entry: &FieldEntry)
        requires
            i < self.listing().len(),
        ensures
            *entry == self.listing()[i as int],
    {
        &self.entries[i]
    }

    /// Whether a value is stored under `name`.
    pub fn contains_key(&self, name: &str) -> (found: bool)
        ensures
            found == self@.contains_key(name@),
    {
        let key = name.to_owned();
        self.position(&key).is_some()
    }

    /// The value stored under `name`.
    pub fn get(&self, name: &str) -> (value: Option<&FieldValue>)
        ensures
            match value {
                Some(v) => self@.contains_key(name@) && self@[name@] == v@,
                None => !self@.contains_key(name@),
            },
    {
        let key = name.to_owned();
        match self.position(&key) {
            Some(i) => {
                proof {
                    use_type_invariant(self);
                    lemma_entry_value(self.entries@, i as int);
                }
                Some(&self.entries[i].value)
            },
            None => None,
        }
    }

    /// A copy of the map.
    pub fn duplicate(&self) -> (copy: FieldMap)
        ensures
            copy@ == self@,
    {
        proof {
            use_type_invariant(self);
        }
        let mut copy = FieldMap::new();
        let mut i: usize = 0;
        while i < self.entries.len()
            invariant
                i <= self.entries@.len(),
                distinct_names(self.entries@),
                copy@ == entries_map(self.entries@.take(i as int)),
            decreases self.entries@.len() - i,
        {
            let ghost done = self.entries@.take(i as int);
            let ghost entry = self.entries@[i as int];
            proof {
                assert(distinct_names(done)) by {
                    assert forall|a: int, b: int| 0 <= a < b < done.len() implies (
                    #[trigger] done[a]).name@ != (#[trigger] done[b]).name@ by {
                        assert(self.entries@[a].name@ != self.entries@[b].name@);
                    }
                }
                assert(!has_name(done, entry.name@)) by {
                    if has_name(done, entry.name@) {
                        let j = index_of(done, entry.name@);
                        assert(self.entries@[j].name@ != self.entries@[i as int].name@);
                    }
                }
                lemma_push_entry(done, entry);
                assert(self.entries@.take(i + 1) =~= done.push(entry));
            }
            copy.insert(self.entries[i].name.clone(), self.entries[i].value.duplicate());
            i = i + 1;
        }
        proof {
            assert(self.entries@.take(self.entries@.len() as int) =~= self.entries@);
        }
        copy
    }

    /// Stores `value` under `name`, in place of any value stored there
    /// before. A name that is written again keeps its place in the listing;
    /// a new name goes to the end.
    pub fn insert(&mut self, name: String, value: FieldValue)
        ensures
            final(self)@ == old(self)@.insert(name@, value@),
            final(self).listing() == (if has_name(old(self).listing(), name@) {
                old(self).listing().update(
                    index_of(old(self).listing(), name@),
                    FieldEntry { name, value },
                )
            } else {
                old(self).listing().push(FieldEntry { name, value })
            }),
    {
        proof {
            use_type_invariant(&*self);
        }
        let found = self.position(&name);
        proof {
            if let Some(i) = found {
                lemma_entry_value(self.entries@, i as int);
                let j = index_of(self.entries@, name@);
                assert(0 <= j < self.entries@.len() && self.entries@[j].name@ == name@);
                assert(j == i);
            }
        }
        let entry = FieldEntry { name, value };
        let mut entries: Vec<FieldEntry> = Vec::new();
        std::mem::swap(&mut self.entries, &mut entries);
        match found {
            Some(i) => {
                proof {
                    lemma_replace_entry(entries@, i as int, entry);
                }
                entries.set(i, entry);
            },
            None => {
                proof {
                    lemma_push_entry(entries@, entry);
                }
                entries.push(entry);
            },
        }
        std::mem::swap(&mut self.entries, &mut entries);
    }
}

} // verus!
