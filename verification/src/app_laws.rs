//! What undo does to the changes on entries: each change, undone, gives back the entries as
//! they were, and leaves on the redo stack the change that re-applies it.
use vstd::prelude::*;

use crate::app::{
    added_spec, attributes_set_spec, attributes_stored_spec, content_set_spec, loaded_spec,
    refreshed, removed_spec, undo_popped, with_attributes, AppView,
};
use crate::entry::{first_pos, has_id, is_first_with_id, lemma_first_pos, EntryView};
use crate::history::{
    attributes_of, bounded_push, history_action_spec, shown_after_spec, AttributesView, ChangeView,
    HistoryActionView, HistoryStack,
};
use crate::json_store::{draft_of, ids_distinct};
use crate::sorter::{
    in_order, law_sorted_in_order, lemma_insert_multiset, lemma_sort_multiset, sort_spec,
};

verus! {

broadcast use vstd::seq_lib::group_to_multiset_ensures;

/// Every element of `t` is an element of `s` when they hold the same multiset.
pub proof fn lemma_same_multiset_member<A>(s: Seq<A>, t: Seq<A>, k: int)
    requires
        s.to_multiset() == t.to_multiset(),
        0 <= k < t.len(),
    ensures
        s.contains(t[k]),
{
    assert(t.contains(t[k]));
    assert(t.to_multiset().count(t[k]) > 0);
    assert(s.to_multiset().count(t[k]) > 0);
}

/// Replacing an element replaces it in the multiset.
pub proof fn lemma_update_multiset<A>(s: Seq<A>, i: int, x: A)
    requires
        0 <= i < s.len(),
    ensures
        s.update(i, x).to_multiset() == s.to_multiset().remove(s[i]).insert(x),
{
    let r = s.remove(i);
    assert(s.update(i, x) =~= r.insert(i, x));
    lemma_insert_multiset(r, i, x);
}

/// An entry is the first with its id when it is the only one with that id.
pub proof fn lemma_only_with_id(t: Seq<EntryView>, e: EntryView)
    requires
        t.contains(e),
        forall|k: int| 0 <= k < t.len() && #[trigger] t[k].id == e.id ==> t[k] == e,
    ensures
        has_id(t, e.id),
        0 <= first_pos(t, e.id) < t.len(),
        t[first_pos(t, e.id)] == e,
{
    let k = choose|k: int| 0 <= k < t.len() && t[k] == e;
    assert(exists|j: int| is_first_with_id(t, e.id, j)) by {
        lemma_first_index_exists(t, e.id, k);
    }
    let j = choose|j: int| is_first_with_id(t, e.id, j);
    lemma_first_pos(t, e.id, j);
    assert(t[j].id == e.id);
}

/// When some entry has the id, a first one does.
pub proof fn lemma_first_index_exists(t: Seq<EntryView>, id: u32, k: int)
    requires
        0 <= k < t.len(),
        t[k].id == id,
    ensures
        exists|j: int| is_first_with_id(t, id, j),
    decreases k,
{
    if exists|k2: int| 0 <= k2 < k && t[k2].id == id {
        let k2 = choose|k2: int| 0 <= k2 < k && t[k2].id == id;
        lemma_first_index_exists(t, id, k2);
    } else {
        assert(is_first_with_id(t, id, k));
    }
}

/// When some entry has the id, the first position is the first entry with it.
pub proof fn lemma_has_id_first(t: Seq<EntryView>, id: u32)
    requires
        has_id(t, id),
    ensures
        is_first_with_id(t, id, first_pos(t, id)),
        0 <= first_pos(t, id) < t.len(),
        t[first_pos(t, id)].id == id,
{
    let k = choose|k: int| 0 <= k < t.len() && t[k].id == id;
    lemma_first_index_exists(t, id, k);
    let j = choose|j: int| is_first_with_id(t, id, j);
    lemma_first_pos(t, id, j);
}

/// The last element of a bounded push is the pushed change, when the bound is positive.
pub proof fn lemma_bounded_push_last(s: Seq<ChangeView>, c: ChangeView, limit: nat)
    requires
        limit > 0,
        s.len() <= limit,
    ensures
        bounded_push(s, c, limit).last() == c,
        bounded_push(s, c, limit).len() > 0,
{
}

/// Undoing the addition of an entry: the undo stack holds the addition, the undo step asks to
/// remove that entry (showing none afterwards), and removing it gives back the entries as they
/// were, while the redo stack gets the removed entry, ready to be added back.
pub proof fn law_undo_add(s: AppView, e: EntryView)
    requires
        !has_id(s.entries, e.id),
        s.history.limit > 0,
        s.history.undo.len() <= s.history.limit,
        s.history.redo.len() <= s.history.limit,
    ensures
        ({
            let s1 = added_spec(s, e, HistoryStack::Undo);
            let s2 = removed_spec(undo_popped(s1), e.id, HistoryStack::Redo);
            &&& s1.history.undo.last() == ChangeView::AddEntry { id: e.id }
            &&& history_action_spec(s1.history.undo.last()) == HistoryActionView::Remove(e.id)
            &&& shown_after_spec(history_action_spec(s1.history.undo.last()), e.id) is None
            &&& history_action_spec(s2.history.redo.last()) == HistoryActionView::Add(draft_of(e))
            &&& has_id(undo_popped(s1).entries, e.id)
            &&& s2.entries.to_multiset() == s.entries.to_multiset()
            &&& s2.history.redo.last() == ChangeView::RemoveEntry(e)
        }),
{
    let s1 = added_spec(s, e, HistoryStack::Undo);
    let p = s.entries.push(e);
    let t = s1.entries;
    lemma_sort_multiset(s.sorter, p);
    assert(t == sort_spec(s.sorter, p));
    lemma_bounded_push_last(s.history.undo, ChangeView::AddEntry { id: e.id }, s.history.limit);
    assert forall|k: int| 0 <= k < t.len() && #[trigger] t[k].id == e.id implies t[k] == e by {
        lemma_same_multiset_member(p, t, k);
        let q = choose|q: int| 0 <= q < p.len() && p[q] == t[k];
        if q < s.entries.len() {
            assert(s.entries[q].id == e.id);
        }
    }
    assert(p.contains(e)) by {
        assert(p[s.entries.len() as int] == e);
    }
    assert(t.contains(e)) by {
        assert(p.to_multiset().count(e) > 0);
        assert(t.to_multiset().count(e) > 0);
    }
    lemma_only_with_id(t, e);
    let j = first_pos(t, e.id);
    assert(t.remove(j).to_multiset() == t.to_multiset().remove(e));
    assert(p.to_multiset() == s.entries.to_multiset().insert(e));
    assert(s.entries.to_multiset().insert(e).remove(e) =~= s.entries.to_multiset());
    let s2 = removed_spec(undo_popped(s1), e.id, HistoryStack::Redo);
    lemma_bounded_push_last(s.history.redo, ChangeView::RemoveEntry(e), s.history.limit);
}


/// Entries with distinct ids keep them distinct in any reordering.
pub proof fn lemma_ids_distinct_perm(s: Seq<EntryView>, t: Seq<EntryView>)
    requires
        ids_distinct(s),
        s.to_multiset() == t.to_multiset(),
    ensures
        ids_distinct(t),
{
    assert(s.no_duplicates());
    s.lemma_multiset_has_no_duplicates();
    t.lemma_multiset_has_no_duplicates_conv();
    assert forall|i: int, j: int| 0 <= i < t.len() && 0 <= j < t.len() && i != j implies t[i].id
        != t[j].id by {
        if t[i].id == t[j].id {
            assert(t[i] != t[j]);
            lemma_same_multiset_member(s, t, i);
            lemma_same_multiset_member(s, t, j);
            let p = choose|p: int| 0 <= p < s.len() && s[p] == t[i];
            let q = choose|q: int| 0 <= q < s.len() && s[q] == t[j];
            assert(p != q);
        }
    }
}

/// Undoing the removal of an entry: the undo stack holds the removed entry, the undo step asks
/// to add its values back (showing the new entry), and the store adding it back (as `e2`, the
/// same values under a new id) gives back the entries as they were but for that id, while the
/// redo stack gets the addition, ready to be undone again.
pub proof fn law_undo_remove(s: AppView, id: u32, e2: EntryView)
    requires
        has_id(s.entries, id),
        draft_of(e2) == draft_of(s.entries[first_pos(s.entries, id)]),
        s.history.limit > 0,
        s.history.undo.len() <= s.history.limit,
        s.history.redo.len() <= s.history.limit,
    ensures
        ({
            let i = first_pos(s.entries, id);
            let s1 = removed_spec(s, id, HistoryStack::Undo);
            let s2 = added_spec(undo_popped(s1), e2, HistoryStack::Redo);
            &&& s1.history.undo.last() == ChangeView::RemoveEntry(s.entries[i])
            &&& history_action_spec(s1.history.undo.last()) == HistoryActionView::Add(
                draft_of(s.entries[i]),
            )
            &&& shown_after_spec(history_action_spec(s1.history.undo.last()), e2.id) == Some(
                e2.id,
            )
            &&& history_action_spec(s2.history.redo.last()) == HistoryActionView::Remove(e2.id)
            &&& s2.entries.to_multiset() == s.entries.update(i, e2).to_multiset()
            &&& s2.history.redo.last() == ChangeView::AddEntry { id: e2.id }
        }),
{
    lemma_has_id_first(s.entries, id);
    let i = first_pos(s.entries, id);
    let s1 = removed_spec(s, id, HistoryStack::Undo);
    lemma_bounded_push_last(
        s.history.undo,
        ChangeView::RemoveEntry(s.entries[i]),
        s.history.limit,
    );
    let p = s1.entries.push(e2);
    lemma_sort_multiset(s.sorter, p);
    assert(s1.entries == s.entries.remove(i));
    lemma_update_multiset(s.entries, i, e2);
    assert(p.to_multiset() == s1.entries.to_multiset().insert(e2));
    lemma_bounded_push_last(s.history.redo, ChangeView::AddEntry { id: e2.id }, s.history.limit);
}

/// Undoing a change of the attributes of an entry: the undo stack holds the former attributes,
/// the undo step asks to set them back (showing that entry), and setting them back gives back
/// the entries as they were, while the redo stack gets the changed attributes, ready to be set
/// again.
pub proof fn law_undo_attributes(s: AppView, a: AttributesView)
    requires
        has_id(s.entries, a.id),
        ids_distinct(s.entries),
        s.history.limit > 0,
        s.history.undo.len() <= s.history.limit,
        s.history.redo.len() <= s.history.limit,
    ensures
        ({
            let orig = s.entries[first_pos(s.entries, a.id)];
            let s1 = attributes_stored_spec(attributes_set_spec(s, a, HistoryStack::Undo));
            let s2 = attributes_stored_spec(
                attributes_set_spec(undo_popped(s1), attributes_of(orig), HistoryStack::Redo),
            );
            &&& s1.history.undo.last() == ChangeView::EntryAttribute(attributes_of(orig))
            &&& history_action_spec(s1.history.undo.last()) == HistoryActionView::SetAttributes(
                attributes_of(orig),
            )
            &&& shown_after_spec(history_action_spec(s1.history.undo.last()), 0) == Some(a.id)
            &&& history_action_spec(s2.history.redo.last()) == HistoryActionView::SetAttributes(
                attributes_of(with_attributes(orig, a)),
            )
            &&& has_id(undo_popped(s1).entries, a.id)
            &&& s2.entries.to_multiset() == s.entries.to_multiset()
            &&& s2.history.redo.last() == ChangeView::EntryAttribute(
                attributes_of(with_attributes(orig, a)),
            )
        }),
{
    lemma_has_id_first(s.entries, a.id);
    let i = first_pos(s.entries, a.id);
    let orig = s.entries[i];
    let changed = with_attributes(orig, a);
    let u = s.entries.update(i, changed);
    let s1 = attributes_stored_spec(attributes_set_spec(s, a, HistoryStack::Undo));
    lemma_bounded_push_last(
        s.history.undo,
        ChangeView::EntryAttribute(attributes_of(orig)),
        s.history.limit,
    );
    assert(ids_distinct(u)) by {
        assert forall|x: int, y: int| 0 <= x < u.len() && 0 <= y < u.len() && x != y implies u[x].id
            != u[y].id by {
            assert(u[x].id == s.entries[x].id && u[y].id == s.entries[y].id);
        }
    }
    let t = s1.entries;
    assert(t == sort_spec(s.sorter, u));
    lemma_sort_multiset(s.sorter, u);
    lemma_ids_distinct_perm(u, t);
    assert(u[i] == changed);
    assert(u.contains(changed));
    assert(t.contains(changed)) by {
        assert(u.to_multiset().count(changed) > 0);
    }
    assert forall|k: int| 0 <= k < t.len() && #[trigger] t[k].id == changed.id implies t[k]
        == changed by {
        let q = choose|q: int| 0 <= q < t.len() && t[q] == changed;
        assert(t[q].id == changed.id);
    }
    lemma_only_with_id(t, changed);
    let j = first_pos(t, a.id);
    let back = with_attributes(changed, attributes_of(orig));
    assert(back == orig);
    lemma_update_multiset(t, j, orig);
    lemma_update_multiset(s.entries, i, changed);
    let v = t.update(j, orig);
    lemma_sort_multiset(s.sorter, v);
    assert(s.entries.contains(orig));
    assert(s.entries.to_multiset().count(orig) > 0);
    assert(s.entries.to_multiset().remove(orig).insert(changed).remove(changed).insert(orig)
        =~= s.entries.to_multiset());
    lemma_bounded_push_last(
        s.history.redo,
        ChangeView::EntryAttribute(attributes_of(changed)),
        s.history.limit,
    );
}

/// Undoing a change of the content of an entry: the undo stack holds the former content, the
/// undo step asks to set it back (showing that entry), and setting it back gives back exactly
/// the entries as they were, while the redo stack gets the changed content, ready to be set
/// again.
pub proof fn law_undo_content(s: AppView, id: u32, content: Seq<char>)
    requires
        has_id(s.entries, id),
        s.history.limit > 0,
        s.history.undo.len() <= s.history.limit,
        s.history.redo.len() <= s.history.limit,
    ensures
        ({
            let orig = s.entries[first_pos(s.entries, id)];
            let s1 = refreshed(content_set_spec(s, id, content, HistoryStack::Undo));
            let s2 = refreshed(
                content_set_spec(undo_popped(s1), id, orig.content, HistoryStack::Redo),
            );
            &&& s1.history.undo.last() == ChangeView::EntryContent { id, content: orig.content }
            &&& history_action_spec(s1.history.undo.last()) == HistoryActionView::SetContent(
                id,
                orig.content,
            )
            &&& shown_after_spec(history_action_spec(s1.history.undo.last()), 0) == Some(id)
            &&& history_action_spec(s2.history.redo.last()) == HistoryActionView::SetContent(
                id,
                content,
            )
            &&& has_id(undo_popped(s1).entries, id)
            &&& s2.entries == s.entries
            &&& s2.history.redo.last() == ChangeView::EntryContent { id, content }
        }),
{
    lemma_has_id_first(s.entries, id);
    let i = first_pos(s.entries, id);
    let orig = s.entries[i];
    let s1 = refreshed(content_set_spec(s, id, content, HistoryStack::Undo));
    lemma_bounded_push_last(
        s.history.undo,
        ChangeView::EntryContent { id, content: orig.content },
        s.history.limit,
    );
    assert(is_first_with_id(s1.entries, id, i));
    crate::entry::lemma_first_pos(s1.entries, id, i);
    assert(s1.entries[i] == EntryView { content, ..orig });
    assert(s1.entries.update(i, EntryView { content: orig.content, ..s1.entries[i] }) =~= s.entries);
    lemma_bounded_push_last(
        s.history.redo,
        ChangeView::EntryContent { id, content },
        s.history.limit,
    );
}

/// After entries are loaded, after an entry is added and after changed attributes are
/// stored, the entries are in the sorter's order.
pub proof fn law_entries_stay_sorted(s: AppView, loaded: Seq<EntryView>, e: EntryView, target: HistoryStack)
    ensures
        in_order(s.sorter, loaded_spec(s, loaded).entries),
        in_order(s.sorter, added_spec(s, e, target).entries),
        in_order(s.sorter, attributes_stored_spec(s).entries),
{
    law_sorted_in_order(s.sorter, loaded);
    law_sorted_in_order(s.sorter, s.entries.push(e));
    law_sorted_in_order(s.sorter, s.entries);
}

} // verus!
