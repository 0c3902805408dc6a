//! The context document: a mapping from keys to values, nested as the data
//! directory is nested.

use vstd::prelude::*;
use vstd::string::*;
use crate::json::{json_from_map, json_from_string, json_map_entries, json_map_insert, json_map_new, json_object, json_string};

verus! {

/// One value of a context document.
#[derive(Debug)]
pub enum ContextValue {
    /// A nested document: what a subdirectory holds.
    Object(Document),
    /// The text of a text file, as it was read.
    String(String),
    /// What a JSON file was parsed to.
    Json(serde_json::Value),
}

/// A key of a document with the value that stands under it.
#[derive(Debug)]
struct Entry {
    key: String,
    value: ContextValue,
}

/// A context document. No key occurs twice: a value that is inserted under a
/// key that is present takes the place of the one that was there.
#[derive(Debug)]
pub struct Document {
    entries: Vec<Entry>,
}

/// What a value is, apart from how it is stored.
pub enum ValueView {
    Object(Map<Seq<char>, ValueView>),
    String(Seq<char>),
    Json(serde_json::Value),
}

/// What a document is: the mapping from its keys to its values.
pub type DocumentView = Map<Seq<char>, ValueView>;

/// The mapping that the first `n` of `entries` make, where a later entry
/// prevails over an earlier one of the same key.
spec fn entries_map(entries: Seq<Entry>, n: nat) -> DocumentView
    decreases entries, n,
{
    if n == 0 || n > entries.len() {
        Map::empty()
    } else {
        entries_map(entries, (n - 1) as nat).insert(
            entries[n - 1].key@,
            entries[n - 1].value.view(),
        )
    }
}

impl View for ContextValue {
    type V = ValueView;

    open spec fn view(&self) -> ValueView
        decreases self, 0nat,
    {
        match self {
            ContextValue::Object(document) => ValueView::Object(document.view()),
            ContextValue::String(text) => ValueView::String(text@),
            ContextValue::Json(json) => ValueView::Json(*json),
        }
    }
}

impl View for Document {
    type V = DocumentView;

    closed spec fn view(&self) -> DocumentView
        decreases self, 0nat,
    {
        entries_map(self.entries@, self.entries@.len())
    }
}

/// Whether `json` stands for `value` where a template reads it: a text is a
/// JSON string, a nested document a JSON object with the same keys, and a
/// JSON value is itself.
pub open spec fn stands_for(json: serde_json::Value, value: ValueView) -> bool
    decreases value,
{
    match value {
        ValueView::Object(document) => exists|entries: Map<Seq<char>, serde_json::Value>|
            json == json_object(entries) && entries.dom() == document.dom() && forall|
                key: Seq<char>,
            |
                document.contains_key(key) ==> stands_for(entries[key], #[trigger] document[key]),
        ValueView::String(text) => json == json_string(text),
        ValueView::Json(inner) => json == inner,
    }
}

/// Whether `entries` are the entries of the JSON object that stands for
/// `document`: the same keys, each with the JSON value that stands for its
/// value.
pub open spec fn entries_stand_for(
    entries: Map<Seq<char>, serde_json::Value>,
    document: DocumentView,
) -> bool {
    &&& entries.dom() == document.dom()
    &&& forall|key: Seq<char>|
        document.contains_key(key) ==> stands_for(entries[key], #[trigger] document[key])
}

/// Only one JSON value stands for a value.
pub proof fn lemma_stands_for_one(first: serde_json::Value, second: serde_json::Value, value: ValueView)
    requires
        stands_for(first, value),
        stands_for(second, value),
    ensures
        first == second,
    decreases value,
{
    match value {
        ValueView::Object(document) => {
            let a = choose|entries: Map<Seq<char>, serde_json::Value>|
                first == json_object(entries) && entries.dom() == document.dom() && forall|
                    key: Seq<char>,
                |
                    document.contains_key(key) ==> stands_for(
                        entries[key],
                        #[trigger] document[key],
                    );
            let b = choose|entries: Map<Seq<char>, serde_json::Value>|
                second == json_object(entries) && entries.dom() == document.dom() && forall|
                    key: Seq<char>,
                |
                    document.contains_key(key) ==> stands_for(
                        entries[key],
                        #[trigger] document[key],
                    );
            assert forall|key: Seq<char>| a.contains_key(key) implies a[key] == b[key] by {
                assert(stands_for(a[key], document[key]));
                assert(stands_for(b[key], document[key]));
                lemma_stands_for_one(a[key], b[key], document[key]);
            }
            assert(a =~= b);
        },
        _ => {},
    }
}

/// No two of `entries` have the same key.
spec fn distinct_keys(entries: Seq<Entry>) -> bool {
    forall|i: int, j: int|
        0 <= i < j < entries.len() ==> entries[i].key@ != entries[j].key@
}

/// One more entry is one more insertion.
proof fn lemma_entries_map_step(entries: Seq<Entry>, n: nat)
    requires
        0 < n <= entries.len(),
    ensures
        entries_map(entries, n) == entries_map(entries, (n - 1) as nat).insert(
            entries[n - 1].key@,
            entries[n - 1].value@,
        ),
{
}

/// The keys of `entries_map(entries, n)` are the keys of the first `n` entries,
/// and there are finitely many.
proof fn lemma_entries_map_keys(entries: Seq<Entry>, n: nat)
    requires
        n <= entries.len(),
    ensures
        entries_map(entries, n).dom().finite(),
        forall|key: Seq<char>| #[trigger]
            entries_map(entries, n).contains_key(key) <==> exists|i: int|
                0 <= i < n && entries[i].key@ == key,
    decreases n,
{
    if n > 0 {
        lemma_entries_map_keys(entries, (n - 1) as nat);
        let before = entries_map(entries, (n - 1) as nat);
        lemma_entries_map_step(entries, n);
        assert forall|key: Seq<char>| #[trigger]
            entries_map(entries, n).contains_key(key) implies exists|i: int|
            0 <= i < n && entries[i].key@ == key by {
            if key == entries[n - 1].key@ {
            } else {
                assert(before.contains_key(key));
                let i = choose|i: int| 0 <= i < n - 1 && entries[i].key@ == key;
                assert(0 <= i < n && entries[i].key@ == key);
            }
        }
        assert forall|key: Seq<char>|
            (exists|i: int| 0 <= i < n && entries[i].key@ == key) implies #[trigger] entries_map(
            entries,
            n,
        ).contains_key(key) by {
            let i = choose|i: int| 0 <= i < n && entries[i].key@ == key;
            if i < n - 1 {
                assert(before.contains_key(key));
            }
        }
    }
}

/// Where no key occurs twice, each of the first `n` entries stands in
/// `entries_map(entries, n)` with its own value, and the mapping has `n` keys.
proof fn lemma_entries_map_values(entries: Seq<Entry>, n: nat)
    requires
        n <= entries.len(),
        distinct_keys(entries),
    ensures
        entries_map(entries, n).len() == n,
        forall|i: int|
            0 <= i < n ==> entries_map(entries, n).contains_key(#[trigger] entries[i].key@)
                && entries_map(entries, n)[entries[i].key@] == entries[i].value@,
    decreases n,
{
    if n > 0 {
        lemma_entries_map_values(entries, (n - 1) as nat);
        lemma_entries_map_keys(entries, (n - 1) as nat);
        lemma_entries_map_step(entries, n);
        let before = entries_map(entries, (n - 1) as nat);
        let key = entries[n - 1].key@;
        if before.contains_key(key) {
            let i = choose|i: int| 0 <= i < n - 1 && entries[i].key@ == key;
            assert(entries[i].key@ != entries[n - 1].key@);
        }
    }
}

/// An entry behind the first `n` does not change what the first `n` make.
proof fn lemma_entries_map_prefix(entries: Seq<Entry>, longer: Seq<Entry>, n: nat)
    requires
        n <= entries.len() <= longer.len(),
        forall|i: int| 0 <= i < n ==> entries[i] == longer[i],
    ensures
        entries_map(longer, n) == entries_map(entries, n),
    decreases n,
{
    if n > 0 {
        lemma_entries_map_prefix(entries, longer, (n - 1) as nat);
        lemma_entries_map_step(entries, n);
        lemma_entries_map_step(longer, n);
    }
}

/// Where no key occurs twice, putting another value in the place of entry
/// `at` changes the mapping as an insertion under that entry's key does.
proof fn lemma_entries_map_replace(entries: Seq<Entry>, at: int, entry: Entry, n: nat)
    requires
        0 <= at < entries.len(),
        n <= entries.len(),
        distinct_keys(entries),
        entry.key@ == entries[at].key@,
    ensures
        entries_map(entries.update(at, entry), n) == if at < n {
            entries_map(entries, n).insert(entry.key@, entry.value@)
        } else {
            entries_map(entries, n)
        },
    decreases n,
{
    let changed = entries.update(at, entry);
    if n > 0 {
        lemma_entries_map_replace(entries, at, entry, (n - 1) as nat);
        lemma_entries_map_step(entries, n);
        lemma_entries_map_step(changed, n);
        if at == n - 1 {
            assert(entries_map(changed, n) =~= entries_map(entries, n).insert(
                entry.key@,
                entry.value@,
            ));
        } else if at < n - 1 {
            assert(entries[at].key@ != entries[n - 1].key@);
            assert(entries_map(changed, n) =~= entries_map(entries, n).insert(
                entry.key@,
                entry.value@,
            ));
        }
    }
}

/// The keys of the entries from place `from` on.
spec fn keys_from(entries: Seq<Entry>, from: int) -> Set<Seq<char>> {
    Set::new(|key: Seq<char>| exists|i: int| from <= i < entries.len() && entries[i].key@ == key)
}

impl ContextValue {
    /// The JSON value that stands for this value where a template reads it.
    pub fn into_json(self) -> (json: serde_json::Value)
        ensures
            stands_for(json, self@),
        decreases self,
    {
        match self {
            ContextValue::Object(document) => {
                json_from_map(document.into_json())
            },
            ContextValue::String(text) => json_from_string(text),
            ContextValue::Json(json) => json,
        }
    }
}

impl Document {
    #[verifier::type_invariant]
    spec fn keys_are_distinct(&self) -> bool {
        distinct_keys(self.entries@)
    }

    /// A document without entries.
    pub fn new() -> (document: Document)
        ensures
            document@ == Map::<Seq<char>, ValueView>::empty(),
    {
        Document { entries: Vec::new() }
    }

    /// The place of `key` among the entries, if it is present.
    fn position(&self, key: &String) -> (found: Option<usize>)
        ensures
            found is Some <==> self@.contains_key(key@),
            found matches Some(i) ==> i < self.entries.len() && self.entries[i as int].key@
                == key@,
    {
        let mut i: usize = 0;
        while i < self.entries.len()
            invariant
                i <= self.entries.len(),
                forall|j: int| 0 <= j < i ==> self.entries[j].key@ != key@,
            decreases self.entries.len() - i,
        {
            if self.entries[i].key == *key {
                proof {
                    lemma_entries_map_keys(self.entries@, self.entries@.len());
                }
                return Some(i);
            }
            i += 1;
        }
        proof {
            lemma_entries_map_keys(self.entries@, self.entries@.len());
        }
        None
    }

    /// Puts `value` under `key`. A value that stood under `key` is replaced;
    /// every other entry stays as it is.
    pub fn insert(&mut self, key: String, value: ContextValue)
        ensures
            final(self)@ == old(self)@.insert(key@, value@),
    {
        proof {
            use_type_invariant(&*self);
        }
        let found = self.position(&key);
        let entry = Entry { key, value };
        let mut entries: Vec<Entry> = Vec::new();
        std::mem::swap(&mut self.entries, &mut entries);
        match found {
            Some(at) => {
                proof {
                    lemma_entries_map_replace(entries@, at as int, entry, entries@.len());
                }
                entries.set(at, entry);
            },
            None => {
                proof {
                    lemma_entries_map_keys(entries@, entries@.len());
                    lemma_entries_map_prefix(entries@, entries@.push(entry), entries@.len());
                    lemma_entries_map_step(entries@.push(entry), entries@.len() + 1);
                }
                entries.push(entry);
            },
        }
        std::mem::swap(&mut self.entries, &mut entries);
    }

    /// The value under `key`, if the document has that key.
    pub fn get(&self, key: &str) -> (found: Option<&ContextValue>)
        ensures
            found is Some <==> self@.contains_key(key@),
            found matches Some(value) ==> value@ == self@[key@],
    {
        proof {
            use_type_invariant(self);
        }
        let wanted = String::from_str(key);
        match self.position(&wanted) {
            Some(at) => {
                proof {
                    lemma_entries_map_values(self.entries@, self.entries@.len());
                }
                Some(&self.entries[at].value)
            },
            None => None,
        }
    }

    /// The JSON object that stands for this document where a template reads
    /// it: it has the same keys, each with the JSON value that stands for its
    /// value.
    pub fn into_json(self) -> (object: serde_json::Map<String, serde_json::Value>)
        ensures
            entries_stand_for(json_map_entries(object), self@),
        decreases self,
    {
        proof {
            use_type_invariant(&self);
        }
        let ghost all = self.entries@;
        let Document { entries } = self;
        let mut entries = entries;
        let mut object = json_map_new();
        proof {
            assert(json_map_entries(object).dom() =~= keys_from(all, all.len() as int));
        }
        while entries.len() > 0
            invariant
                all == self.entries@,
                distinct_keys(all),
                entries@.len() <= all.len(),
                entries@ == all.take(entries@.len() as int),
                json_map_entries(object).dom() == keys_from(all, entries@.len() as int),
                forall|i: int|
                    entries@.len() <= i < all.len() ==> stands_for(
                        json_map_entries(object)[all[i].key@],
                        (#[trigger] all[i]).value@,
                    ),
            decreases entries.len(),
        {
            let ghost left = entries@.len() - 1;
            let ghost before = json_map_entries(object);
            let entry = entries.pop().unwrap();
            assert(entry == all[left]);
            let Entry { key, value } = entry;
            proof {
                assert(decreases_to!(self => value));
            }
            let json = value.into_json();
            json_map_insert(&mut object, key, json);
            proof {
                assert(entries@ =~= all.take(left));
                assert(json_map_entries(object).dom() =~= keys_from(all, left));
                assert forall|i: int| left <= i < all.len() implies stands_for(
                    json_map_entries(object)[all[i].key@],
                    (#[trigger] all[i]).value@,
                ) by {
                    if i > left {
                        assert(all[left].key@ != all[i].key@);
                        assert(stands_for(before[all[i].key@], all[i].value@));
                    }
                }
            }
        }
        proof {
            lemma_entries_map_keys(all, all.len());
            lemma_entries_map_values(all, all.len());
            assert(json_map_entries(object).dom() =~= self@.dom());
            assert forall|key: Seq<char>| self@.contains_key(key) implies stands_for(
                json_map_entries(object)[key],
                #[trigger] self@[key],
            ) by {
                let i = choose|i: int| 0 <= i < all.len() && all[i].key@ == key;
                assert(stands_for(json_map_entries(object)[all[i].key@], all[i].value@));
            }
        }
        object
    }

    /// Whether the document has the key `key`.
    pub fn contains_key(&self, key: &str) -> (present: bool)
        ensures
            present == self@.contains_key(key@),
    {
        let wanted = String::from_str(key);
        self.position(&wanted).is_some()
    }

    /// The number of keys.
    pub fn len(&self) -> (count: usize)
        ensures
            self@.dom().finite(),
            count == self@.len(),
    {
        proof {
            use_type_invariant(self);
            lemma_entries_map_keys(self.entries@, self.entries@.len());
            lemma_entries_map_values(self.entries@, self.entries@.len());
        }
        self.entries.len()
    }

    /// Whether the document has no key at all.
    pub fn is_empty(&self) -> (empty: bool)
        ensures
            empty == (self@ == Map::<Seq<char>, ValueView>::empty()),
    {
        proof {
            lemma_entries_map_keys(self.entries@, self.entries@.len());
            if self.entries@.len() == 0 {
                assert(self@ =~= Map::<Seq<char>, ValueView>::empty());
            } else {
                assert(self@.contains_key(self.entries@[0].key@));
            }
        }
        self.entries.len() == 0
    }
}

} // verus!
