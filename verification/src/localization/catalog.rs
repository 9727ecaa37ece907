use vstd::prelude::*;
use crate::parser::ast::str_eq;

verus! {

/// One message of a catalog.
#[derive(Debug, PartialEq)]
pub struct Entry {
    /// The key that the message is found by.
    pub key: String,
    /// A note on where the message comes from.
    pub context: Option<String>,
    /// The text of the message, where it has one.
    pub body: Option<String>,
}

/// Mathematical value of an [`Entry`].
pub struct EntryModel {
    pub key: Seq<char>,
    pub context: Option<Seq<char>>,
    pub body: Option<Seq<char>>,
}

/// The characters of a text that may be missing.
pub open spec fn text_view(text: Option<String>) -> Option<Seq<char>> {
    match text {
        Some(t) => Some(t@),
        None => None,
    }
}

impl View for Entry {
    type V = EntryModel;

    open spec fn view(&self) -> EntryModel {
        EntryModel { key: self.key@, context: text_view(self.context), body: text_view(self.body) }
    }
}

/// The messages of a catalog, in the order in which their keys first came.
pub open spec fn entries_model(v: Seq<Entry>) -> Seq<EntryModel> {
    Seq::new(v.len(), |i: int| v[i]@)
}

/// The place of the last message of `entries` with the key `key`; `-1` where
/// there is none.
pub open spec fn position(entries: Seq<EntryModel>, key: Seq<char>) -> int
    decreases entries.len(),
{
    if entries.len() == 0 {
        -1
    } else if entries.last().key == key {
        entries.len() - 1
    } else {
        position(entries.drop_last(), key)
    }
}

/// The message that `entries` holds under `key`: the last one, should there
/// be several.
pub open spec fn spec_find(entries: Seq<EntryModel>, key: Seq<char>) -> Option<EntryModel> {
    if position(entries, key) >= 0 {
        Some(entries[position(entries, key)])
    } else {
        None
    }
}

/// `entries` with `entry` in the place of the message that `spec_find` gives
/// for its key, or at the end where there is none.
pub open spec fn spec_put(entries: Seq<EntryModel>, entry: EntryModel) -> Seq<EntryModel> {
    if position(entries, entry.key) >= 0 {
        entries.update(position(entries, entry.key), entry)
    } else {
        entries.push(entry)
    }
}

/// `position` gives the last place with the key, and `-1` only where no
/// place has it.
pub proof fn lemma_position(entries: Seq<EntryModel>, key: Seq<char>)
    ensures
        -1 <= position(entries, key) < entries.len(),
        position(entries, key) >= 0 ==> entries[position(entries, key)].key == key,
        forall|j: int|
            position(entries, key) < j < entries.len() ==> (#[trigger] entries[j]).key != key,
    decreases entries.len(),
{
    if entries.len() > 0 && entries.last().key != key {
        lemma_position(entries.drop_last(), key);
        assert forall|j: int| position(entries, key) < j < entries.len() implies (
        #[trigger] entries[j]).key != key by {
            if j < entries.len() - 1 {
                assert(entries.drop_last()[j].key != key);
            }
        }
    }
}

/// A place with the key behind which no place has it is the `position`.
pub proof fn lemma_position_is(entries: Seq<EntryModel>, key: Seq<char>, i: int)
    requires
        -1 <= i < entries.len(),
        i >= 0 ==> entries[i].key == key,
        forall|j: int| i < j < entries.len() ==> (#[trigger] entries[j]).key != key,
    ensures
        position(entries, key) == i,
    decreases entries.len(),
{
    if entries.len() > 0 && i < entries.len() - 1 {
        assert(entries.last() == entries[entries.len() - 1]);
        lemma_position_is(entries.drop_last(), key, i);
    }
}

/// After `spec_put`, the key of the new message finds it, and every other
/// key finds what it found before.
pub proof fn lemma_find_after_put(entries: Seq<EntryModel>, entry: EntryModel, key: Seq<char>)
    ensures
        spec_find(spec_put(entries, entry), key) == (if key == entry.key {
            Some(entry)
        } else {
            spec_find(entries, key)
        }),
{
    let after = spec_put(entries, entry);
    lemma_position(entries, entry.key);
    lemma_position(entries, key);
    let at = position(entries, entry.key);
    if key == entry.key {
        if at >= 0 {
            lemma_position_is(after, key, at);
        } else {
            lemma_position_is(after, key, entries.len() as int);
        }
    } else {
        let i = position(entries, key);
        assert forall|j: int| i < j < after.len() implies (#[trigger] after[j]).key != key by {
            if j < entries.len() {
                assert(entries[j].key != key);
            }
        }
        lemma_position_is(after, key, i);
    }
}

/// A store of messages, each found by its key.
#[derive(Debug, PartialEq)]
pub struct Catalog {
    entries: Vec<Entry>,
}

impl View for Catalog {
    type V = Seq<EntryModel>;

    closed spec fn view(&self) -> Seq<EntryModel> {
        entries_model(self.entries@)
    }
}

impl Catalog {
    /// A catalog without messages.
    pub fn new() -> (r: Catalog)
        ensures
            r@ == Seq::<EntryModel>::empty(),
    {
        let r = Catalog { entries: Vec::new() };
        assert(r@ =~= Seq::<EntryModel>::empty());
        r
    }

    /// The number of messages.
    pub fn len(&self) -> (r: usize)
        ensures
            r == self@.len(),
    {
        self.entries.len()
    }

    /// The message at place `i`, counted from zero in the order in which
    /// the keys first came.
    pub fn entry(&self, i: usize) -> (r: &Entry)
        requires
            i < self@.len(),
        ensures
            r@ == self@[i as int],
    {
        &self.entries[i]
    }

    /// The message under `key`, if there is one.
    pub fn find_by_key(&self, key: &str) -> (r: Option<&Entry>)
        ensures
            match r {
                Some(entry) => spec_find(self@, key@) == Some(entry@),
                None => spec_find(self@, key@) is None,
            },
    {
        let mut i: usize = self.entries.len();
        while i > 0
            invariant
                i <= self.entries.len(),
                forall|j: int| i <= j < self@.len() ==> (#[trigger] self@[j]).key != key@,
            decreases i,
        {
            i -= 1;
            if str_eq(self.entries[i].key.as_str(), key) {
                proof {
                    lemma_position_is(self@, key@, i as int);
                }
                return Some(&self.entries[i]);
            }
        }
        proof {
            lemma_position_is(self@, key@, -1);
        }
        None
    }

    /// Puts a message under `key`: in the place of the one that is there, or
    /// else behind all the others.
    pub fn insert_or_update(&mut self, key: String, context: Option<String>, body: Option<String>)
        ensures
            final(self)@ == spec_put(
                old(self)@,
                EntryModel { key: key@, context: text_view(context), body: text_view(body) },
            ),
    {
        let entry = Entry { key, context, body };
        let mut i: usize = self.entries.len();
        while i > 0
            invariant
                i <= self.entries.len(),
                self.entries == old(self).entries,
                entry@ == (EntryModel {
                    key: key@,
                    context: text_view(context),
                    body: text_view(body),
                }),
                forall|j: int| i <= j < self@.len() ==> (#[trigger] self@[j]).key != entry@.key,
            decreases i,
        {
            i -= 1;
            if self.entries[i].key == entry.key {
                proof {
                    lemma_position_is(self@, entry@.key, i as int);
                    assert(entries_model(self.entries@.update(i as int, entry)) =~= self@.update(
                        i as int,
                        entry@,
                    ));
                }
                self.entries.set(i, entry);
                return ;
            }
        }
        proof {
            lemma_position_is(self@, entry@.key, -1);
            assert(entries_model(self.entries@.push(entry)) =~= self@.push(entry@));
        }
        self.entries.push(entry);
    }
}

} // verus!
