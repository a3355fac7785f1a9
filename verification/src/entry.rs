//! Journal entries, drafts of entries and the object in which entries are exported.
use vstd::prelude::*;

use crate::text::{split_terminator, split_terminator_spec, views};

verus! {

/// The version of the export format that `EntriesDTO::new` writes.
pub const TRANSFER_DATA_VERSION: u16 = 100;

/// A point in time in UTC: seconds since 1970-01-01 00:00:00 and nanoseconds within that
/// second (the nanoseconds exceed 999,999,999 only within a leap second).
#[derive(PartialEq, Eq, Structural, Clone, Copy, Debug)]
pub struct Timestamp {
    pub secs: i64,
    pub nanos: u32,
}

impl Timestamp {
    /// Chronological order of two timestamps.
    pub open spec fn before(self, other: Timestamp) -> bool {
        self.secs < other.secs || (self.secs == other.secs && self.nanos < other.nanos)
    }

    /// Whether `self` is strictly earlier than `other`.
    pub fn is_before(&self, other: &Timestamp) -> (r: bool)
        ensures
            r == self.before(*other),
    {
        self.secs < other.secs || (self.secs == other.secs && self.nanos < other.nanos)
    }

    /// 1970-01-01 00:00:00 UTC, the default date.
    pub fn epoch() -> (t: Timestamp)
        ensures
            t.secs == 0 && t.nanos == 0,
    {
        Timestamp { secs: 0, nanos: 0 }
    }
}

/// A copy of a list of strings.
pub fn copy_strings(v: &Vec<String>) -> (r: Vec<String>)
    ensures
        r@ == v@,
{
    let mut r: Vec<String> = Vec::new();
    let mut i: usize = 0;
    while i < v.len()
        invariant
            i <= v.len(),
            r@ == v@.subrange(0, i as int),
        decreases v.len() - i,
    {
        r.push(v[i].clone());
        i = i + 1;
    }
    assert(r@ =~= v@);
    r
}

/// The mathematical value of an entry.
pub struct EntryView {
    pub id: u32,
    pub date: Timestamp,
    pub title: Seq<char>,
    pub content: Seq<char>,
    pub tags: Seq<Seq<char>>,
    pub priority: Option<u32>,
    pub folder: Seq<char>,
}

/// The mathematical value of a draft.
pub struct EntryDraftView {
    pub date: Timestamp,
    pub title: Seq<char>,
    pub content: Seq<char>,
    pub tags: Seq<Seq<char>>,
    pub priority: Option<u32>,
    pub folder: Seq<char>,
}

impl View for Entry {
    type V = EntryView;

    open spec fn view(&self) -> EntryView {
        EntryView {
            id: self.id,
            date: self.date,
            title: self.title@,
            content: self.content@,
            tags: views(self.tags@),
            priority: self.priority,
            folder: self.folder@,
        }
    }
}

impl View for EntryDraft {
    type V = EntryDraftView;

    open spec fn view(&self) -> EntryDraftView {
        EntryDraftView {
            date: self.date,
            title: self.title@,
            content: self.content@,
            tags: views(self.tags@),
            priority: self.priority,
            folder: self.folder@,
        }
    }
}

/// The views of a sequence of entries.
pub open spec fn entry_views(v: Seq<Entry>) -> Seq<EntryView> {
    v.map_values(|e: Entry| e@)
}

/// `i` is the first position in `s` of an entry with the id `id`.
pub open spec fn is_first_with_id(s: Seq<EntryView>, id: u32, i: int) -> bool {
    &&& 0 <= i < s.len()
    &&& s[i].id == id
    &&& forall|k: int| 0 <= k < i ==> s[k].id != id
}

/// Whether some entry in `s` has the id `id`.
pub open spec fn has_id(s: Seq<EntryView>, id: u32) -> bool {
    exists|i: int| 0 <= i < s.len() && s[i].id == id
}

/// The first position in `s` of an entry with the id `id`, or -1 when there is none.
pub open spec fn first_pos(s: Seq<EntryView>, id: u32) -> int {
    if exists|i: int| is_first_with_id(s, id, i) {
        choose|i: int| is_first_with_id(s, id, i)
    } else {
        -1
    }
}

/// The first position is unique.
pub proof fn lemma_first_pos(s: Seq<EntryView>, id: u32, i: int)
    requires
        is_first_with_id(s, id, i),
    ensures
        first_pos(s, id) == i,
{
    let j = choose|j: int| is_first_with_id(s, id, j);
    assert(is_first_with_id(s, id, j));
    if j < i {
        assert(s[j].id != id);
    } else if i < j {
        assert(s[i].id != id);
    }
}

/// When no entry has the id, there is no first position.
pub proof fn lemma_first_pos_none(s: Seq<EntryView>, id: u32)
    requires
        !has_id(s, id),
    ensures
        first_pos(s, id) == -1,
{
    if exists|i: int| is_first_with_id(s, id, i) {
        let j = choose|j: int| is_first_with_id(s, id, j);
        assert(0 <= j < s.len() && s[j].id == id);
    }
}

/// The position of the first entry with the id `id`.
pub fn position_of_id(entries: &Vec<Entry>, id: u32) -> (r: Option<usize>)
    ensures
        r is None <==> !has_id(entry_views(entries@), id),
        r is None ==> first_pos(entry_views(entries@), id) == -1,
        r matches Some(i) ==> is_first_with_id(entry_views(entries@), id, i as int) && first_pos(
            entry_views(entries@),
            id,
        ) == i,
{
    let mut i: usize = 0;
    while i < entries.len()
        invariant
            i <= entries.len(),
            forall|k: int| 0 <= k < i ==> entries@[k].id != id,
        decreases entries.len() - i,
    {
        if entries[i].id == id {
            proof {
                lemma_first_pos(entry_views(entries@), id, i as int);
            }
            return Some(i);
        }
        i = i + 1;
    }
    proof {
        assert(!has_id(entry_views(entries@), id)) by {
            if has_id(entry_views(entries@), id) {
                let j = choose|j: int| 0 <= j < entries@.len() && entry_views(entries@)[j].id == id;
                assert(entries@[j].id != id);
            }
        }
        lemma_first_pos_none(entry_views(entries@), id);
    }
    None
}

/// A journal entry.
#[derive(Debug, PartialEq, Eq)]
pub struct Entry {
    pub id: u32,
    pub date: Timestamp,
    pub title: String,
    pub content: String,
    pub tags: Vec<String>,
    pub priority: Option<u32>,
    /// Folder path, its segments separated by `/`; empty for the root.
    pub folder: String,
}

impl Clone for Entry {
    fn clone(&self) -> (r: Self)
        ensures
            r@ == self@,
    {
        Entry {
            id: self.id,
            date: self.date,
            title: self.title.clone(),
            content: self.content.clone(),
            tags: copy_strings(&self.tags),
            priority: self.priority,
            folder: self.folder.clone(),
        }
    }
}

impl Entry {
    /// Creates an entry from its id and the values of its fields.
    pub fn new(
        id: u32,
        date: Timestamp,
        title: String,
        content: String,
        tags: Vec<String>,
        priority: Option<u32>,
        folder: String,
    ) -> (e: Self)
        ensures
            e == (Entry { id, date, title, content, tags, priority, folder }),
    {
        Entry { id, date, title, content, tags, priority, folder }
    }

    /// Creates an entry with the given id from all the fields of a draft.
    pub fn from_draft(id: u32, draft: EntryDraft) -> (e: Self)
        ensures
            e.id == id,
            e.date == draft.date,
            e.title == draft.title,
            e.content == draft.content,
            e.tags == draft.tags,
            e.priority == draft.priority,
            e.folder == draft.folder,
    {
        Entry {
            id,
            date: draft.date,
            title: draft.title,
            content: draft.content,
            tags: draft.tags,
            priority: draft.priority,
            folder: draft.folder,
        }
    }

    /// The tags of a stored row: its comma-separated tag text split at the commas, none when
    /// there is no text.
    pub open spec fn tags_of_row(tags: Option<Seq<char>>) -> Seq<Seq<char>> {
        match tags {
            Some(t) => split_terminator_spec(t, ','),
            None => Seq::empty(),
        }
    }

    /// Creates an entry from a stored row, splitting the row's tag text at its commas.
    pub fn from_intermediate(value: EntryIntermediate) -> (e: Self)
        ensures
            e.id == value.id,
            e.date == value.date,
            e.title == value.title,
            e.content == value.content,
            e.priority == value.priority,
            e.folder == value.folder,
            views(e.tags@) == Entry::tags_of_row(
                match value.tags {
                    Some(t) => Some(t@),
                    None => None,
                },
            ),
    {
        let tags = match &value.tags {
            Some(t) => split_terminator(t.as_str(), ','),
            None => Vec::new(),
        };
        proof {
            if value.tags is None {
                assert(views(tags@) =~= Seq::<Seq<char>>::empty());
            }
        }
        Entry {
            id: value.id,
            date: value.date,
            title: value.title,
            content: value.content,
            tags,
            priority: value.priority,
            folder: value.folder,
        }
    }
}

/// The values of an entry before the store has given it an id.
#[derive(Debug, PartialEq, Eq)]
pub struct EntryDraft {
    pub date: Timestamp,
    pub title: String,
    pub content: String,
    pub tags: Vec<String>,
    pub priority: Option<u32>,
    pub folder: String,
}

impl Clone for EntryDraft {
    fn clone(&self) -> (r: Self)
        ensures
            r@ == self@,
    {
        EntryDraft {
            date: self.date,
            title: self.title.clone(),
            content: self.content.clone(),
            tags: copy_strings(&self.tags),
            priority: self.priority,
            folder: self.folder.clone(),
        }
    }
}

impl EntryDraft {
    /// Creates a draft with the given values and an empty content.
    pub fn new(
        date: Timestamp,
        title: String,
        tags: Vec<String>,
        priority: Option<u32>,
        folder: String,
    ) -> (d: Self)
        ensures
            d.date == date,
            d.title == title,
            d.content@ == Seq::<char>::empty(),
            d.tags == tags,
            d.priority == priority,
            d.folder == folder,
    {
        let content = String::new();
        EntryDraft { date, title, content, tags, priority, folder }
    }

    /// The draft with its content replaced by `content`.
    pub fn with_content(self, content: String) -> (d: Self)
        ensures
            d == (EntryDraft { content, ..self }),
    {
        let mut d = self;
        d.content = content;
        d
    }

    /// The draft with its folder replaced by `folder`.
    pub fn with_folder(self, folder: String) -> (d: Self)
        ensures
            d == (EntryDraft { folder, ..self }),
    {
        let mut d = self;
        d.folder = folder;
        d
    }

    /// The draft of an entry: all its fields but the id.
    pub fn from_entry(entry: Entry) -> (d: Self)
        ensures
            d.date == entry.date,
            d.title == entry.title,
            d.content == entry.content,
            d.tags == entry.tags,
            d.priority == entry.priority,
            d.folder == entry.folder,
    {
        EntryDraft {
            date: entry.date,
            title: entry.title,
            content: entry.content,
            tags: entry.tags,
            priority: entry.priority,
            folder: entry.folder,
        }
    }
}

/// Entries as they are exported and imported, with the version of the format.
#[derive(Debug, PartialEq, Eq)]
pub struct EntriesDTO {
    pub version: u16,
    pub entries: Vec<EntryDraft>,
}

impl EntriesDTO {
    /// An export object of the current format version holding `entries`.
    pub fn new(entries: Vec<EntryDraft>) -> (dto: Self)
        ensures
            dto.version == TRANSFER_DATA_VERSION,
            dto.entries == entries,
    {
        EntriesDTO { version: TRANSFER_DATA_VERSION, entries }
    }
}

/// A row of the entries table: its tags are one text, the tags separated by commas.
pub struct EntryIntermediate {
    pub id: u32,
    pub date: Timestamp,
    pub title: String,
    pub content: String,
    pub priority: Option<u32>,
    pub tags: Option<String>,
    pub folder: String,
}

#[verifier::external_type_specification]
#[verifier::external_body]
pub struct ExAnyhowError(anyhow::Error);

/// Why adding or updating an entry failed.
#[derive(Debug)]
pub enum ModifyEntryError {
    /// The entry's values are not accepted, with the reason.
    ValidationError(String),
    /// Reading or writing the data failed.
    DataError(anyhow::Error),
}

} // verus!
