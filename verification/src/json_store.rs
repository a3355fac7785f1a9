//! The entries store kept in one JSON file: what it does to the list of entries that it holds.
//! Reading and writing the file is left to the caller.
use vstd::prelude::*;

use crate::entry::{
    entry_views, first_pos, has_id, position_of_id, Entry, EntriesDTO, EntryDraft, EntryDraftView,
    EntryView, ModifyEntryError, TRANSFER_DATA_VERSION,
};
use crate::folder_path::{in_folder, in_folder_spec, renamed_folder, renamed_folder_spec};

verus! {

#[verifier::external_type_specification]
#[verifier::external_body]
pub struct ExPathBuf(std::path::PathBuf);

/// A store of entries in a JSON file.
pub struct JsonDataProvide {
    file_path: std::path::PathBuf,
}

impl JsonDataProvide {
    /// A store kept in the file at `file_path`.
    pub fn new(file_path: std::path::PathBuf) -> (p: Self)
        ensures
            p.path() == file_path,
    {
        JsonDataProvide { file_path }
    }

    /// The path of the store's file.
    pub closed spec fn path(&self) -> std::path::PathBuf {
        self.file_path
    }

    /// The path of the store's file.
    pub fn file_path(&self) -> (p: &std::path::PathBuf)
        ensures
            *p == self.path(),
    {
        &self.file_path
    }
}

/// The message of the error that refuses an entry without a title.
pub open spec fn empty_title_msg() -> Seq<char> {
    "Entry title can't be empty"@
}

/// The id that the store gives to a new entry: one more than the largest id, 0 for none.
pub open spec fn next_id_spec(s: Seq<EntryView>) -> int
    decreases s.len(),
{
    if s.len() == 0 {
        0
    } else {
        let prev = next_id_spec(s.drop_last());
        let cand = s.last().id + 1;
        if cand > prev {
            cand
        } else {
            prev
        }
    }
}

/// The next id exceeds every id of the store.
pub proof fn lemma_next_id_above(s: Seq<EntryView>)
    ensures
        forall|k: int| 0 <= k < s.len() ==> s[k].id < next_id_spec(s),
        next_id_spec(s) >= 0,
    decreases s.len(),
{
    if s.len() > 0 {
        lemma_next_id_above(s.drop_last());
        assert forall|k: int| 0 <= k < s.len() implies s[k].id < next_id_spec(s) by {
            if k < s.len() - 1 {
                assert(s.drop_last()[k] == s[k]);
            }
        }
    }
}

/// The next id is one of the ids plus one, or 0.
pub proof fn lemma_next_id_attained(s: Seq<EntryView>)
    ensures
        next_id_spec(s) == 0 || exists|k: int| 0 <= k < s.len() && next_id_spec(s) == s[k].id + 1,
    decreases s.len(),
{
    if s.len() > 0 {
        lemma_next_id_attained(s.drop_last());
        if next_id_spec(s) != s.last().id + 1 && next_id_spec(s) != 0 {
            let k = choose|k: int|
                0 <= k < s.drop_last().len() && next_id_spec(s.drop_last()) == s.drop_last()[k].id
                    + 1;
            assert(s[k] == s.drop_last()[k]);
        }
    }
}

/// No two entries share an id.
pub open spec fn ids_distinct(s: Seq<EntryView>) -> bool {
    forall|i: int, j: int| 0 <= i < s.len() && 0 <= j < s.len() && i != j ==> s[i].id != s[j].id
}

/// No entry has the largest id, so that one more than any id fits in a `u32`.
pub open spec fn ids_below_max(s: Seq<EntryView>) -> bool {
    forall|i: int| 0 <= i < s.len() ==> s[i].id < u32::MAX
}

/// Whether no entry has the largest id, so that the store can give a new entry an id.
pub fn ids_below_max_of(entries: &Vec<Entry>) -> (b: bool)
    ensures
        b == ids_below_max(entry_views(entries@)),
{
    let mut i: usize = 0;
    while i < entries.len()
        invariant
            i <= entries.len(),
            forall|k: int| 0 <= k < i ==> entry_views(entries@)[k].id < u32::MAX,
        decreases entries.len() - i,
    {
        assert(entry_views(entries@)[i as int] == entries@[i as int]@);
        if entries[i].id == u32::MAX {
            return false;
        }
        i = i + 1;
    }
    true
}

/// The id that the store gives to a new entry.
pub fn next_entry_id(entries: &Vec<Entry>) -> (id: u32)
    requires
        ids_below_max(entry_views(entries@)),
    ensures
        id == next_id_spec(entry_views(entries@)),
{
    let mut best: u32 = 0;
    let mut i: usize = 0;
    while i < entries.len()
        invariant
            i <= entries.len(),
            ids_below_max(entry_views(entries@)),
            best == next_id_spec(entry_views(entries@).take(i as int)),
        decreases entries.len() - i,
    {
        assert(entry_views(entries@).take(i + 1).drop_last() =~= entry_views(entries@).take(
            i as int,
        ));
        assert(entry_views(entries@)[i as int].id < u32::MAX);
        let cand = entries[i].id + 1;
        if cand > best {
            best = cand;
        }
        i = i + 1;
    }
    assert(entry_views(entries@).take(entries.len() as int) =~= entry_views(entries@));
    best
}

/// Adds a draft to the entries with the next id. A draft without a title is refused and the
/// entries stay as they are.
pub fn add_entry_to(entries: &mut Vec<Entry>, draft: EntryDraft) -> (r: Result<
    Entry,
    ModifyEntryError,
>)
    requires
        ids_below_max(entry_views(old(entries)@)),
    ensures
        draft.title@.len() == 0 ==> {
            &&& r matches Err(ModifyEntryError::ValidationError(m)) && m@ == empty_title_msg()
            &&& final(entries)@ == old(entries)@
        },
        draft.title@.len() > 0 ==> {
            &&& r matches Ok(e) && e@ == (EntryView {
                id: next_id_spec(entry_views(old(entries)@)) as u32,
                date: draft.date,
                title: draft.title@,
                content: draft.content@,
                tags: draft@.tags,
                priority: draft.priority,
                folder: draft.folder@,
            }) && entry_views(final(entries)@) == entry_views(old(entries)@).push(e@)
        },
{
    if draft.title.as_str().is_empty() {
        return Err(ModifyEntryError::ValidationError("Entry title can't be empty".to_owned()));
    }
    let id = next_entry_id(entries);
    let new_entry = Entry::from_draft(id, draft);
    let copy = new_entry.clone();
    entries.push(new_entry);
    assert(entry_views(entries@) =~= entry_views(old(entries)@).push(copy@));
    Ok(copy)
}

/// Removes the first entry with the id `id`; whether there was one.
pub fn remove_entry_from(entries: &mut Vec<Entry>, id: u32) -> (removed: bool)
    ensures
        removed == has_id(entry_views(old(entries)@), id),
        removed ==> entry_views(final(entries)@) == entry_views(old(entries)@).remove(
            first_pos(entry_views(old(entries)@), id),
        ),
        !removed ==> final(entries)@ == old(entries)@,
{
    match position_of_id(entries, id) {
        Some(pos) => {
            entries.remove(pos);
            assert(entry_views(entries@) =~= entry_views(old(entries)@).remove(pos as int));
            true
        },
        None => false,
    }
}

/// Replaces the first entry with the id of `entry` by `entry`. An entry without a title,
/// or whose id no stored entry has, is refused (with the same message) and the entries stay
/// as they are.
pub fn update_entry_in(entries: &mut Vec<Entry>, entry: Entry) -> (r: Result<
    Entry,
    ModifyEntryError,
>)
    ensures
        (entry.title@.len() == 0 || !has_id(entry_views(old(entries)@), entry.id)) ==> {
            &&& r matches Err(ModifyEntryError::ValidationError(m)) && m@ == empty_title_msg()
            &&& final(entries)@ == old(entries)@
        },
        (entry.title@.len() > 0 && has_id(entry_views(old(entries)@), entry.id)) ==> {
            &&& r matches Ok(e) && e@ == entry@
            &&& entry_views(final(entries)@) == entry_views(old(entries)@).update(
                first_pos(entry_views(old(entries)@), entry.id),
                entry@,
            )
        },
{
    if entry.title.as_str().is_empty() {
        return Err(ModifyEntryError::ValidationError("Entry title can't be empty".to_owned()));
    }
    match position_of_id(entries, entry.id) {
        Some(pos) => {
            let copy = entry.clone();
            entries.set(pos, copy);
            assert(entry_views(entries@) =~= entry_views(old(entries)@).update(
                pos as int,
                entry@,
            ));
            Ok(entry)
        },
        None => Err(ModifyEntryError::ValidationError("Entry title can't be empty".to_owned())),
    }
}

/// Whether `ids` holds `id`.
pub fn contains_id(ids: &[u32], id: u32) -> (b: bool)
    ensures
        b == ids@.contains(id),
{
    let mut i: usize = 0;
    while i < ids.len()
        invariant
            i <= ids.len(),
            forall|k: int| 0 <= k < i ==> ids@[k] != id,
        decreases ids.len() - i,
    {
        if ids[i] == id {
            return true;
        }
        i = i + 1;
    }
    false
}

/// The draft view of an entry view: all but the id.
pub open spec fn draft_of(e: EntryView) -> EntryDraftView {
    EntryDraftView {
        date: e.date,
        title: e.title,
        content: e.content,
        tags: e.tags,
        priority: e.priority,
        folder: e.folder,
    }
}

/// The views of a sequence of drafts.
pub open spec fn draft_views(v: Seq<EntryDraft>) -> Seq<EntryDraftView> {
    v.map_values(|d: EntryDraft| d@)
}

/// The export object of the entries whose ids are in `ids`, in the order of the store.
pub fn export_object(entries: Vec<Entry>, ids: &[u32]) -> (dto: EntriesDTO)
    ensures
        dto.version == TRANSFER_DATA_VERSION,
        draft_views(dto.entries@) == entry_views(entries@).filter(
            |e: EntryView| ids@.contains(e.id),
        ).map_values(|e: EntryView| draft_of(e)),
{
    let mut drafts: Vec<EntryDraft> = Vec::new();
    let mut i: usize = 0;
    let ghost pred = |e: EntryView| ids@.contains(e.id);
    while i < entries.len()
        invariant
            i <= entries.len(),
            pred == (|e: EntryView| ids@.contains(e.id)),
            draft_views(drafts@) == entry_views(entries@).take(i as int).filter(pred).map_values(
                |e: EntryView| draft_of(e),
            ),
        decreases entries.len() - i,
    {
        proof {
            reveal(Seq::filter);
            assert(entry_views(entries@).take(i + 1).drop_last() =~= entry_views(entries@).take(
                i as int,
            ));
        }
        if contains_id(ids, entries[i].id) {
            let e = entries[i].clone();
            let ghost before = drafts@;
            drafts.push(EntryDraft::from_entry(e));
            assert(draft_views(drafts@) =~= draft_views(before).push(draft_of(entries@[i as int]@)));
        }
        i = i + 1;
    }
    assert(entry_views(entries@).take(entries.len() as int) =~= entry_views(entries@));
    EntriesDTO::new(drafts)
}

/// The entry view with the priority `priority` when it has none.
pub open spec fn with_default_priority(e: EntryView, priority: u32) -> EntryView {
    if e.priority is None {
        EntryView { priority: Some(priority), ..e }
    } else {
        e
    }
}

/// Gives the priority `priority` to every entry that has none; whether any entry changed.
pub fn assign_priority(entries: &mut Vec<Entry>, priority: u32) -> (modified: bool)
    ensures
        entry_views(final(entries)@) == entry_views(old(entries)@).map_values(
            |e: EntryView| with_default_priority(e, priority),
        ),
        modified == exists|k: int| 0 <= k < old(entries)@.len() && old(entries)@[k].priority is None,
{
    let mut modified = false;
    let mut i: usize = 0;
    while i < entries.len()
        invariant
            i <= entries.len(),
            entries@.len() == old(entries)@.len(),
            forall|k: int|
                0 <= k < i ==> entries@[k]@ == with_default_priority(old(entries)@[k]@, priority),
            forall|k: int| i <= k < entries@.len() ==> entries@[k] == old(entries)@[k],
            modified == exists|k: int| 0 <= k < i && old(entries)@[k].priority is None,
        decreases entries.len() - i,
    {
        if entries[i].priority.is_none() {
            let mut e = entries[i].clone();
            e.priority = Some(priority);
            entries.set(i, e);
            modified = true;
        }
        i = i + 1;
    }
    assert(entry_views(entries@) =~= entry_views(old(entries)@).map_values(
        |e: EntryView| with_default_priority(e, priority),
    ));
    modified
}

/// The entry view moved to the folder it has after the folder `old` is renamed to `new`.
pub open spec fn with_renamed_folder(e: EntryView, old: Seq<char>, new: Seq<char>) -> EntryView {
    EntryView { folder: renamed_folder_spec(e.folder, old, new), ..e }
}

/// The entry view moved by renaming the folder `old` to `new`.
pub open spec fn folder_renamed(old: Seq<char>, new: Seq<char>) -> spec_fn(EntryView) -> EntryView {
    |e: EntryView| with_renamed_folder(e, old, new)
}

/// Renames the folder `old_path` to `new_path` in every entry of it or of its sub-folders;
/// whether any entry changed.
pub fn rename_folder_in(entries: &mut Vec<Entry>, old_path: &str, new_path: &str) -> (modified:
    bool)
    ensures
        entry_views(final(entries)@) == entry_views(old(entries)@).map_values(
            folder_renamed(old_path@, new_path@),
        ),
        modified == exists|k: int|
            0 <= k < old(entries)@.len() && in_folder_spec(old(entries)@[k].folder@, old_path@),
{
    let mut modified = false;
    let mut i: usize = 0;
    while i < entries.len()
        invariant
            i <= entries.len(),
            entries@.len() == old(entries)@.len(),
            forall|k: int|
                0 <= k < i ==> entries@[k]@ == with_renamed_folder(
                    old(entries)@[k]@,
                    old_path@,
                    new_path@,
                ),
            forall|k: int| i <= k < entries@.len() ==> entries@[k] == old(entries)@[k],
            modified == exists|k: int|
                0 <= k < i && in_folder_spec(old(entries)@[k].folder@, old_path@),
        decreases entries.len() - i,
    {
        match renamed_folder(entries[i].folder.as_str(), old_path, new_path) {
            Some(f) => {
                let mut e = entries[i].clone();
                e.folder = f;
                entries.set(i, e);
                modified = true;
            },
            None => {},
        }
        i = i + 1;
    }
    assert(entry_views(entries@) =~= entry_views(old(entries)@).map_values(
        folder_renamed(old_path@, new_path@),
    ));
    modified
}

/// Removes every entry of the folder `path` or of its sub-folders; whether any was removed.
pub fn delete_folder_in(entries: &mut Vec<Entry>, path: &str) -> (modified: bool)
    ensures
        entry_views(final(entries)@) == entry_views(old(entries)@).filter(
            |e: EntryView| !in_folder_spec(e.folder, path@),
        ),
        modified == exists|k: int|
            0 <= k < old(entries)@.len() && in_folder_spec(old(entries)@[k].folder@, path@),
{
    let ghost pred = |e: EntryView| !in_folder_spec(e.folder, path@);
    let mut kept: Vec<Entry> = Vec::new();
    let mut modified = false;
    let mut i: usize = 0;
    while i < entries.len()
        invariant
            i <= entries.len(),
            pred == (|e: EntryView| !in_folder_spec(e.folder, path@)),
            entry_views(kept@) == entry_views(entries@).take(i as int).filter(pred),
            modified == exists|k: int|
                0 <= k < i && in_folder_spec(entries@[k].folder@, path@),
        decreases entries.len() - i,
    {
        proof {
            reveal(Seq::filter);
            assert(entry_views(entries@).take(i + 1).drop_last() =~= entry_views(entries@).take(
                i as int,
            ));
        }
        if in_folder(entries[i].folder.as_str(), path) {
            modified = true;
        } else {
            let ghost before = kept@;
            kept.push(entries[i].clone());
            assert(entry_views(kept@) =~= entry_views(before).push(entries@[i as int]@));
        }
        i = i + 1;
    }
    assert(entry_views(entries@).take(entries.len() as int) =~= entry_views(entries@));
    *entries = kept;
    modified
}

} // verus!
