//! What else is known of a thing, by key. Each key has one value.

use crate::keyed::{key_place, lemma_key_place, lemma_key_place_is};
use crate::text::same_text;
use vstd::prelude::*;
use vstd::string::*;

verus! {

/// A key and its value.
pub struct EntryModel {
    pub key: Seq<char>,
    pub value: Seq<char>,
}

/// A key and its value.
#[derive(Debug)]
struct Entry {
    key: String,
    value: String,
}

/// Values by key.
#[derive(Debug)]
pub struct Metadata {
    entries: Vec<Entry>,
}

spec fn entry_models(v: Seq<Entry>) -> Seq<EntryModel> {
    v.map_values(|e: Entry| EntryModel { key: e.key@, value: e.value@ })
}

/// The keys of entries.
pub open spec fn entry_keys(v: Seq<EntryModel>) -> Seq<Seq<char>> {
    v.map_values(|e: EntryModel| e.key)
}

impl View for Metadata {
    type V = Seq<EntryModel>;

    closed spec fn view(&self) -> Seq<EntryModel> {
        entry_models(self.entries@)
    }
}

/// The entries once `key` has a value: in place of the one it had, or behind the
/// others.
pub open spec fn with_entry(v: Seq<EntryModel>, key: Seq<char>, value: Seq<char>) -> Seq<EntryModel> {
    let at = key_place(entry_keys(v), key);
    if at < v.len() {
        v.update(at, EntryModel { key, value })
    } else {
        v.push(EntryModel { key, value })
    }
}

/// Giving a key a value leaves every key with one value: that one, or the one it
/// had.
pub proof fn law_keys_have_one_value(v: Seq<EntryModel>, key: Seq<char>, value: Seq<char>)
    requires
        entry_keys(v).no_duplicates(),
    ensures
        entry_keys(with_entry(v, key, value)).no_duplicates(),
        ({
            let after = with_entry(v, key, value);
            let at = key_place(entry_keys(after), key);
            at < after.len() && after[at].value == value
        }),
{
    let keys = entry_keys(v);
    lemma_key_place(keys, key);
    let at = key_place(keys, key);
    let after = entry_keys(with_entry(v, key, value));
    if at < v.len() {
        assert(after =~= keys);
    } else {
        assert(after =~= keys.push(key));
    }
    assert forall|i: int| 0 <= i < at implies #[trigger] after[i] != key by {
        assert(keys[i] != key);
    }
    lemma_key_place_is(after, key, at);
}

impl Metadata {
    /// No key is there twice.
    #[verifier::type_invariant]
    closed spec fn keys_differ(&self) -> bool {
        entry_keys(entry_models(self.entries@)).no_duplicates()
    }

    /// Nothing is known.
    pub fn new() -> (r: Metadata)
        ensures
            r@ == Seq::<EntryModel>::empty(),
    {
        let r = Metadata { entries: Vec::new() };
        assert(r@ =~= Seq::<EntryModel>::empty());
        r
    }

    fn place(&self, key: &str) -> (r: usize)
        ensures
            r == key_place(entry_keys(self@), key@),
            r <= self.entries@.len() == self@.len(),
    {
        let ghost keys = entry_keys(self@);
        let n: usize = self.entries.len();
        let mut i: usize = 0;
        while i < n
            invariant
                n == self.entries@.len() == self@.len(),
                keys == entry_keys(entry_models(self.entries@)),
                i <= n,
                forall|k: int| 0 <= k < i ==> #[trigger] keys[k] != key@,
            decreases n - i,
        {
            assert(keys[i as int] == self.entries@[i as int].key@);
            if same_text(self.entries[i].key.as_str(), key) {
                proof {
                    lemma_key_place_is(keys, key@, i as int);
                }
                return i;
            }
            i += 1;
        }
        proof {
            lemma_key_place_is(keys, key@, n as int);
        }
        n
    }

    /// Gives a key a value.
    pub fn insert(&mut self, key: &str, value: &str)
        ensures
            final(self)@ == with_entry(old(self)@, key@, value@),
    {
        proof {
            use_type_invariant(&*self);
            law_keys_have_one_value(self@, key@, value@);
        }
        let ghost before = self@;
        let i: usize = self.place(key);
        let entry = Entry { key: key.to_owned(), value: value.to_owned() };
        let mut entries: Vec<Entry> = Vec::new();
        assert(entry_keys(entry_models(entries@)) =~= Seq::<Seq<char>>::empty());
        std::mem::swap(&mut entries, &mut self.entries);
        if i < entries.len() {
            entries.set(i, entry);
        } else {
            entries.push(entry);
        }
        assert(entry_models(entries@) =~= with_entry(before, key@, value@));
        self.entries = entries;
    }

    /// The value of a key.
    pub fn get(&self, key: &str) -> (r: Option<&str>)
        ensures
            ({
                let at = key_place(entry_keys(self@), key@);
                match r {
                    Some(v) => at < self@.len() && v@ == self@[at].value,
                    None => at == self@.len(),
                }
            }),
    {
        let i: usize = self.place(key);
        if i < self.entries.len() {
            assert(self@[i as int].value == self.entries@[i as int].value@);
            Some(self.entries[i].value.as_str())
        } else {
            None
        }
    }

    /// How many keys have a value; each is there once.
    pub fn len(&self) -> (r: usize)
        ensures
            r == self@.len(),
            entry_keys(self@).no_duplicates(),
    {
        proof {
            use_type_invariant(self);
        }
        self.entries.len()
    }
}

impl Clone for Metadata {
    fn clone(&self) -> (r: Metadata)
        ensures
            r@ == self@,
    {
        proof {
            use_type_invariant(self);
        }
        let mut entries: Vec<Entry> = Vec::new();
        let ghost all = self@;
        let mut i: usize = 0;
        assert(entry_models(entries@) =~= all.take(0));
        while i < self.entries.len()
            invariant
                i <= self.entries@.len(),
                all == entry_models(self.entries@),
                entry_models(entries@) == all.take(i as int),
            decreases self.entries@.len() - i,
        {
            let e = Entry {
                key: self.entries[i].key.clone(),
                value: self.entries[i].value.clone(),
            };
            let ghost before = entries@;
            entries.push(e);
            assert(entry_models(entries@) =~= entry_models(before).push(all[i as int]));
            assert(entry_models(entries@) =~= all.take(i + 1));
            i += 1;
        }
        assert(entry_models(entries@) =~= all);
        Metadata { entries }
    }
}

impl Default for Metadata {
    fn default() -> (r: Metadata)
        ensures
            r@ == Seq::<EntryModel>::empty(),
    {
        Metadata::new()
    }
}

} // verus!
