//! The history of the changes on entries: two stacks of changes, one to undo and one to redo,
//! each holding at most a set number of changes.
use vstd::prelude::*;

use crate::entry::{copy_strings, Entry, EntryDraft, EntryDraftView, EntryView, Timestamp};
use crate::text::views;

verus! {

/// Which of the two stacks a change goes to.
#[derive(Debug, PartialEq, Eq, Structural, Clone, Copy)]
pub enum HistoryStack {
    Undo,
    Redo,
}

/// The attributes of an entry (all but its content) as they were before a change.
#[derive(Debug)]
pub struct EntryAttributes {
    pub id: u32,
    pub title: String,
    pub date: Timestamp,
    pub tags: Vec<String>,
    pub priority: Option<u32>,
    pub folder: String,
}

/// A change on the entries, holding what is needed to revert it.
#[derive(Debug)]
pub enum Change {
    /// The entry with this id was added.
    AddEntry { id: u32 },
    /// This entry was removed.
    RemoveEntry(Entry),
    /// The attributes of an entry were changed; these are the former ones.
    EntryAttribute(EntryAttributes),
    /// The content of the entry with this id was changed; this is the former one.
    EntryContent { id: u32, content: String },
}

/// The mathematical value of entry attributes.
pub struct AttributesView {
    pub id: u32,
    pub title: Seq<char>,
    pub date: Timestamp,
    pub tags: Seq<Seq<char>>,
    pub priority: Option<u32>,
    pub folder: Seq<char>,
}

/// The mathematical value of a change.
pub enum ChangeView {
    AddEntry { id: u32 },
    RemoveEntry(EntryView),
    EntryAttribute(AttributesView),
    EntryContent { id: u32, content: Seq<char> },
}

impl View for EntryAttributes {
    type V = AttributesView;

    open spec fn view(&self) -> AttributesView {
        AttributesView {
            id: self.id,
            title: self.title@,
            date: self.date,
            tags: views(self.tags@),
            priority: self.priority,
            folder: self.folder@,
        }
    }
}

impl View for Change {
    type V = ChangeView;

    open spec fn view(&self) -> ChangeView {
        match self {
            Change::AddEntry { id } => ChangeView::AddEntry { id: *id },
            Change::RemoveEntry(e) => ChangeView::RemoveEntry(e@),
            Change::EntryAttribute(a) => ChangeView::EntryAttribute(a@),
            Change::EntryContent { id, content } => ChangeView::EntryContent {
                id: *id,
                content: content@,
            },
        }
    }
}

/// What reverts a change taken from the history.
#[derive(Debug)]
pub enum HistoryAction {
    /// Remove the entry with this id (it had been added); nothing to show afterwards.
    Remove(u32),
    /// Add this entry back (it had been removed); show the id the store gives it.
    Add(EntryDraft),
    /// Set these attributes back; show the entry with their id.
    SetAttributes(EntryAttributes),
    /// Set this content back on the entry with this id; show that entry.
    SetContent(u32, String),
}

/// The mathematical value of a history action.
pub enum HistoryActionView {
    Remove(u32),
    Add(EntryDraftView),
    SetAttributes(AttributesView),
    SetContent(u32, Seq<char>),
}

impl View for HistoryAction {
    type V = HistoryActionView;

    open spec fn view(&self) -> HistoryActionView {
        match self {
            HistoryAction::Remove(id) => HistoryActionView::Remove(*id),
            HistoryAction::Add(d) => HistoryActionView::Add(d@),
            HistoryAction::SetAttributes(a) => HistoryActionView::SetAttributes(a@),
            HistoryAction::SetContent(id, content) => HistoryActionView::SetContent(
                *id,
                content@,
            ),
        }
    }
}

/// The action that reverts the change `c`: an added entry is removed, a removed entry is
/// added back with all its values but its id, former attributes or content are set back.
pub open spec fn history_action_spec(c: ChangeView) -> HistoryActionView {
    match c {
        ChangeView::AddEntry { id } => HistoryActionView::Remove(id),
        ChangeView::RemoveEntry(e) => HistoryActionView::Add(
            EntryDraftView {
                date: e.date,
                title: e.title,
                content: e.content,
                tags: e.tags,
                priority: e.priority,
                folder: e.folder,
            },
        ),
        ChangeView::EntryAttribute(a) => HistoryActionView::SetAttributes(a),
        ChangeView::EntryContent { id, content } => HistoryActionView::SetContent(id, content),
    }
}

/// The id of the entry to show once the action `a` is carried out, where an added entry got
/// the id `added_id`: none after a removal, else the entry the action touched.
pub open spec fn shown_after_spec(a: HistoryActionView, added_id: u32) -> Option<u32> {
    match a {
        HistoryActionView::Remove(_) => None,
        HistoryActionView::Add(_) => Some(added_id),
        HistoryActionView::SetAttributes(attr) => Some(attr.id),
        HistoryActionView::SetContent(id, _) => Some(id),
    }
}

impl HistoryAction {
    /// The id of the entry to show once this action is carried out, where an added entry got
    /// the id `added_id`.
    pub fn shown_after(&self, added_id: u32) -> (r: Option<u32>)
        ensures
            r == shown_after_spec(self@, added_id),
    {
        match self {
            HistoryAction::Remove(_) => None,
            HistoryAction::Add(_) => Some(added_id),
            HistoryAction::SetAttributes(attr) => Some(attr.id),
            HistoryAction::SetContent(id, _) => Some(*id),
        }
    }
}

impl Change {
    /// The action that reverts this change.
    pub fn into_action(self) -> (a: HistoryAction)
        ensures
            a@ == history_action_spec(self@),
    {
        match self {
            Change::AddEntry { id } => HistoryAction::Remove(id),
            Change::RemoveEntry(e) => HistoryAction::Add(
                EntryDraft {
                    date: e.date,
                    title: e.title,
                    content: e.content,
                    tags: e.tags,
                    priority: e.priority,
                    folder: e.folder,
                },
            ),
            Change::EntryAttribute(attr) => HistoryAction::SetAttributes(attr),
            Change::EntryContent { id, content } => HistoryAction::SetContent(id, content),
        }
    }
}

/// The views of a sequence of changes.
pub open spec fn change_views(v: Seq<Change>) -> Seq<ChangeView> {
    v.map_values(|c: Change| c@)
}

/// The attributes of an entry view.
pub open spec fn attributes_of(e: EntryView) -> AttributesView {
    AttributesView {
        id: e.id,
        title: e.title,
        date: e.date,
        tags: e.tags,
        priority: e.priority,
        folder: e.folder,
    }
}

/// The mathematical value of a history.
pub struct HistoryView {
    pub undo: Seq<ChangeView>,
    pub redo: Seq<ChangeView>,
    pub limit: nat,
}

/// `s` with `c` on top, the oldest change dropped when there are more than `limit`.
pub open spec fn bounded_push(s: Seq<ChangeView>, c: ChangeView, limit: nat) -> Seq<ChangeView> {
    let t = s.push(c);
    if t.len() > limit {
        t.drop_first()
    } else {
        t
    }
}

/// The history with `c` on top of the stack `target`.
pub open spec fn pushed(h: HistoryView, target: HistoryStack, c: ChangeView) -> HistoryView {
    match target {
        HistoryStack::Undo => HistoryView { undo: bounded_push(h.undo, c, h.limit), ..h },
        HistoryStack::Redo => HistoryView { redo: bounded_push(h.redo, c, h.limit), ..h },
    }
}

/// Keeps the changes on entries to undo and to redo.
#[derive(Debug)]
pub struct HistoryManager {
    undo_stack: Vec<Change>,
    redo_stack: Vec<Change>,
    limit: usize,
}

impl View for HistoryManager {
    type V = HistoryView;

    closed spec fn view(&self) -> HistoryView {
        HistoryView {
            undo: change_views(self.undo_stack@),
            redo: change_views(self.redo_stack@),
            limit: self.limit as nat,
        }
    }
}

impl HistoryManager {
    /// Each stack holds at most the limit.
    pub closed spec fn wf(&self) -> bool {
        &&& self.undo_stack@.len() <= self.limit
        &&& self.redo_stack@.len() <= self.limit
    }

    /// Empty stacks that hold at most `limit` changes each.
    pub fn new(limit: usize) -> (h: Self)
        ensures
            h.wf(),
            h@.undo.len() == 0,
            h@.redo.len() == 0,
            h@.limit == limit,
    {
        let h = HistoryManager { undo_stack: Vec::new(), redo_stack: Vec::new(), limit };
        assert(change_views(h.undo_stack@) =~= Seq::<ChangeView>::empty());
        assert(change_views(h.redo_stack@) =~= Seq::<ChangeView>::empty());
        h
    }

    /// Stacks never hold more than the limit.
    pub proof fn law_stacks_within_limit(&self)
        requires
            self.wf(),
        ensures
            self@.undo.len() <= self@.limit,
            self@.redo.len() <= self@.limit,
    {
    }

    fn push_change(&mut self, target: HistoryStack, change: Change)
        requires
            old(self).wf(),
        ensures
            final(self).wf(),
            final(self)@ == pushed(old(self)@, target, change@),
    {
        let ghost c = change@;
        match target {
            HistoryStack::Undo => {
                let ghost before = self.undo_stack@;
                self.undo_stack.push(change);
                assert(change_views(self.undo_stack@) =~= change_views(before).push(c));
                if self.undo_stack.len() > self.limit {
                    let ghost full = self.undo_stack@;
                    self.undo_stack.remove(0);
                    assert(change_views(self.undo_stack@) =~= change_views(full).drop_first());
                }
            },
            HistoryStack::Redo => {
                let ghost before = self.redo_stack@;
                self.redo_stack.push(change);
                assert(change_views(self.redo_stack@) =~= change_views(before).push(c));
                if self.redo_stack.len() > self.limit {
                    let ghost full = self.redo_stack@;
                    self.redo_stack.remove(0);
                    assert(change_views(self.redo_stack@) =~= change_views(full).drop_first());
                }
            },
        }
    }

    /// Records that `entry` was added.
    pub fn register_add(&mut self, target: HistoryStack, entry: &Entry)
        requires
            old(self).wf(),
        ensures
            final(self).wf(),
            final(self)@ == pushed(old(self)@, target, ChangeView::AddEntry { id: entry.id }),
    {
        self.push_change(target, Change::AddEntry { id: entry.id });
    }

    /// Records that `entry` was removed.
    pub fn register_remove(&mut self, target: HistoryStack, entry: Entry)
        requires
            old(self).wf(),
        ensures
            final(self).wf(),
            final(self)@ == pushed(old(self)@, target, ChangeView::RemoveEntry(entry@)),
    {
        self.push_change(target, Change::RemoveEntry(entry));
    }

    /// Records the attributes of `entry` before they change.
    pub fn register_change_attributes(&mut self, target: HistoryStack, entry: &Entry)
        requires
            old(self).wf(),
        ensures
            final(self).wf(),
            final(self)@ == pushed(
                old(self)@,
                target,
                ChangeView::EntryAttribute(attributes_of(entry@)),
            ),
    {
        let attr = EntryAttributes {
            id: entry.id,
            title: entry.title.clone(),
            date: entry.date,
            tags: copy_strings(&entry.tags),
            priority: entry.priority,
            folder: entry.folder.clone(),
        };
        self.push_change(target, Change::EntryAttribute(attr));
    }

    /// Records the content of `entry` before it changes.
    pub fn register_change_content(&mut self, target: HistoryStack, entry: &Entry)
        requires
            old(self).wf(),
        ensures
            final(self).wf(),
            final(self)@ == pushed(
                old(self)@,
                target,
                ChangeView::EntryContent { id: entry.id, content: entry.content@ },
            ),
    {
        self.push_change(target, Change::EntryContent { id: entry.id, content: entry.content.clone() });
    }

    /// Takes the latest change to undo.
    pub fn pop_undo(&mut self) -> (c: Option<Change>)
        requires
            old(self).wf(),
        ensures
            final(self).wf(),
            old(self)@.undo.len() == 0 ==> c is None && final(self)@ == old(self)@,
            old(self)@.undo.len() > 0 ==> (c matches Some(ch) && ch@ == old(self)@.undo.last()
                && final(self)@ == (HistoryView { undo: old(self)@.undo.drop_last(), ..old(self)@ })),
    {
        let ghost before = self.undo_stack@;
        let c = self.undo_stack.pop();
        proof {
            if before.len() > 0 {
                assert(change_views(self.undo_stack@) =~= change_views(before).drop_last());
            }
        }
        c
    }

    /// Takes the latest change to redo.
    pub fn pop_redo(&mut self) -> (c: Option<Change>)
        requires
            old(self).wf(),
        ensures
            final(self).wf(),
            old(self)@.redo.len() == 0 ==> c is None && final(self)@ == old(self)@,
            old(self)@.redo.len() > 0 ==> (c matches Some(ch) && ch@ == old(self)@.redo.last()
                && final(self)@ == (HistoryView { redo: old(self)@.redo.drop_last(), ..old(self)@ })),
    {
        let ghost before = self.redo_stack@;
        let c = self.redo_stack.pop();
        proof {
            if before.len() > 0 {
                assert(change_views(self.redo_stack@) =~= change_views(before).drop_last());
            }
        }
        c
    }
}

} // verus!
