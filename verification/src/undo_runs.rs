//! Runs of several deletions, undos and redos: each undo of a deletion brings one entry back
//! and each redo deletes it again.
use vstd::prelude::*;

use crate::app::{added_spec, redone, removed_spec, undone, AppView};
use crate::app_laws::{lemma_has_id_first, lemma_same_multiset_member};
use crate::entry::{first_pos, has_id, EntryView};
use crate::history::{history_action_spec, ChangeView, HistoryActionView, HistoryStack};
use crate::sorter::lemma_sort_multiset;

verus! {

broadcast use vstd::seq_lib::group_to_multiset_ensures;

/// The state after the first entry was deleted `n` times.
pub open spec fn first_deleted(s: AppView, n: nat) -> AppView
    decreases n,
{
    if n == 0 {
        s
    } else {
        let t = first_deleted(s, (n - 1) as nat);
        removed_spec(t, t.entries[0].id, HistoryStack::Undo)
    }
}

/// The state after one undo for each of `added`, the store giving back `added[j]` where the
/// `j`-th undo adds an entry back.
pub open spec fn undone_run(s: AppView, added: Seq<EntryView>) -> AppView
    decreases added.len(),
{
    if added.len() == 0 {
        s
    } else {
        undone(undone_run(s, added.drop_last()), added.last())
    }
}

/// The state after one redo for each of `added`, the store giving back `added[j]` where the
/// `j`-th redo adds an entry back.
pub open spec fn redone_run(s: AppView, added: Seq<EntryView>) -> AppView
    decreases added.len(),
{
    if added.len() == 0 {
        s
    } else {
        redone(redone_run(s, added.drop_last()), added.last())
    }
}

/// `e` is in `entries`, and every entry there with its id is `e`.
pub open spec fn sole_with_id(entries: Seq<EntryView>, e: EntryView) -> bool {
    &&& entries.contains(e)
    &&& forall|i: int| 0 <= i < entries.len() && #[trigger] entries[i].id == e.id ==> entries[i] == e
}

/// Each undo that adds an entry back gets from the store an id that no entry has then.
pub open spec fn fresh_ids(d: AppView, added: Seq<EntryView>) -> bool {
    forall|j: int|
        0 <= j < added.len() ==> !has_id(#[trigger] undone_run(d, added.take(j)).entries, added[j].id)
}

/// What an added entry does to the entries: one more, the old ones kept, the new one there,
/// nothing else.
proof fn lemma_added_entries(s: AppView, e: EntryView, target: HistoryStack)
    ensures
        added_spec(s, e, target).entries.len() == s.entries.len() + 1,
        added_spec(s, e, target).entries.contains(e),
        forall|i: int|
            0 <= i < s.entries.len() ==> added_spec(s, e, target).entries.contains(
                #[trigger] s.entries[i],
            ),
        forall|i: int|
            0 <= i < added_spec(s, e, target).entries.len() ==> #[trigger] added_spec(
                s,
                e,
                target,
            ).entries[i] == e || s.entries.contains(added_spec(s, e, target).entries[i]),
{
    let p = s.entries.push(e);
    let t = added_spec(s, e, target).entries;
    lemma_sort_multiset(s.sorter, p);
    assert(p[s.entries.len() as int] == e);
    assert(p.to_multiset().count(e) > 0);
    assert forall|i: int| 0 <= i < s.entries.len() implies t.contains(#[trigger] s.entries[i]) by {
        assert(p[i] == s.entries[i]);
        assert(p.to_multiset().count(s.entries[i]) > 0);
    }
    assert forall|i: int| 0 <= i < t.len() implies #[trigger] t[i] == e || s.entries.contains(
        t[i],
    ) by {
        lemma_same_multiset_member(p, t, i);
        let q = choose|q: int| 0 <= q < p.len() && p[q] == t[i];
        if q < s.entries.len() {
            assert(s.entries[q] == t[i]);
        }
    }
}

/// What removing the first entry with a present id does to the entries.
proof fn lemma_removed_entries(s: AppView, id: u32, target: HistoryStack)
    requires
        has_id(s.entries, id),
    ensures
        0 <= first_pos(s.entries, id) < s.entries.len(),
        s.entries[first_pos(s.entries, id)].id == id,
        removed_spec(s, id, target).entries == s.entries.remove(first_pos(s.entries, id)),
{
    lemma_has_id_first(s.entries, id);
}

/// Deleting the first entry `n` times leaves `n` fewer entries and `n` removals to undo.
proof fn lemma_deletions(s: AppView, n: nat)
    requires
        s.history.undo.len() == 0,
        n <= s.history.limit,
        n <= s.entries.len(),
    ensures
        first_deleted(s, n).entries.len() == s.entries.len() - n,
        first_deleted(s, n).history.undo.len() == n,
        forall|i: int|
            0 <= i < n ==> #[trigger] first_deleted(s, n).history.undo[i] is RemoveEntry,
        first_deleted(s, n).history.redo == s.history.redo,
        first_deleted(s, n).history.limit == s.history.limit,
    decreases n,
{
    if n > 0 {
        let t = first_deleted(s, (n - 1) as nat);
        lemma_deletions(s, (n - 1) as nat);
        let id = t.entries[0].id;
        assert(has_id(t.entries, id)) by {
            assert(t.entries[0].id == id);
        }
        lemma_removed_entries(t, id, HistoryStack::Undo);
        let d = first_deleted(s, n);
        assert(d == removed_spec(t, id, HistoryStack::Undo));
        let c = ChangeView::RemoveEntry(t.entries[first_pos(t.entries, id)]);
        assert(d.history.undo == t.history.undo.push(c));
        assert forall|i: int| 0 <= i < n implies #[trigger] d.history.undo[i] is RemoveEntry by {
            if i < n - 1 {
                assert(d.history.undo[i] == t.history.undo[i]);
            }
        }
    }
}

/// Undoing removals once for each of `added`: one more entry each time, each added entry the
/// only one with its id, and on the redo stack the additions, in order.
proof fn lemma_undo_run(d: AppView, added: Seq<EntryView>)
    requires
        forall|i: int| 0 <= i < d.history.undo.len() ==> #[trigger] d.history.undo[i] is RemoveEntry,
        added.len() <= d.history.undo.len(),
        d.history.redo.len() == 0,
        added.len() <= d.history.limit,
        fresh_ids(d, added),
    ensures
        ({
            let u = undone_run(d, added);
            &&& u.entries.len() == d.entries.len() + added.len()
            &&& u.history.undo.len() == d.history.undo.len() - added.len()
            &&& forall|i: int| 0 <= i < u.history.undo.len() ==> #[trigger] u.history.undo[i] is RemoveEntry
            &&& u.history.redo.len() == added.len()
            &&& forall|m: int| 0 <= m < added.len() ==> #[trigger] u.history.redo[m] == (ChangeView::AddEntry { id: added[m].id })
            &&& u.history.limit == d.history.limit
            &&& forall|m: int| 0 <= m < added.len() ==> sole_with_id(u.entries, #[trigger] added[m])
            &&& forall|a: int, b: int|
                0 <= a < added.len() && 0 <= b < added.len() && a != b ==> #[trigger] added[a].id
                    != #[trigger] added[b].id
        }),
    decreases added.len(),
{
    if added.len() > 0 {
        let f = added.drop_last();
        let e = added.last();
        let jl = added.len() - 1;
        assert forall|j: int| 0 <= j < f.len() implies !has_id(
            #[trigger] undone_run(d, f.take(j)).entries,
            f[j].id,
        ) by {
            assert(f.take(j) =~= added.take(j));
            assert(!has_id(undone_run(d, added.take(j)).entries, added[j].id));
        }
        lemma_undo_run(d, f);
        let t = undone_run(d, f);
        assert(added.take(jl) =~= f);
        assert(!has_id(undone_run(d, added.take(jl)).entries, added[jl].id));
        assert(!has_id(t.entries, e.id));
        let top = t.history.undo.last();
        assert(top is RemoveEntry) by {
            assert(t.history.undo[t.history.undo.len() - 1] is RemoveEntry);
        }
        assert(history_action_spec(top) is Add);
        let popped = crate::app::undo_popped(t);
        let u = undone_run(d, added);
        assert(u == added_spec(popped, e, HistoryStack::Redo));
        lemma_added_entries(popped, e, HistoryStack::Redo);
        assert(popped.entries == t.entries);
        assert(u.history.redo == t.history.redo.push(ChangeView::AddEntry { id: e.id }));
        assert(u.history.undo == t.history.undo.drop_last());
        assert forall|i: int| 0 <= i < u.history.undo.len() implies #[trigger] u.history.undo[i] is RemoveEntry by {
            assert(u.history.undo[i] == t.history.undo[i]);
        }
        assert forall|m: int| 0 <= m < added.len() implies #[trigger] u.history.redo[m]
            == (ChangeView::AddEntry { id: added[m].id }) by {
            if m < jl {
                assert(u.history.redo[m] == t.history.redo[m]);
                assert(f[m] == added[m]);
            }
        }
        assert forall|m: int| 0 <= m < added.len() implies sole_with_id(u.entries, #[trigger] added[m]) by {
            if m < jl {
                assert(f[m] == added[m]);
                assert(sole_with_id(t.entries, f[m]));
                let q = choose|q: int| 0 <= q < t.entries.len() && t.entries[q] == added[m];
                assert(u.entries.contains(t.entries[q]));
                assert forall|i: int| 0 <= i < u.entries.len() && #[trigger] u.entries[i].id == added[m].id implies u.entries[i]
                    == added[m] by {
                    if u.entries[i] == e {
                        assert(t.entries[q].id == e.id);
                    } else {
                        let r = choose|r: int| 0 <= r < t.entries.len() && t.entries[r] == u.entries[i];
                        assert(t.entries[r].id == added[m].id);
                    }
                }
            } else {
                assert forall|i: int| 0 <= i < u.entries.len() && #[trigger] u.entries[i].id == e.id implies u.entries[i]
                    == e by {
                    if u.entries[i] != e {
                        let r = choose|r: int| 0 <= r < t.entries.len() && t.entries[r] == u.entries[i];
                        assert(t.entries[r].id == e.id);
                    }
                }
            }
        }
        assert forall|a: int, b: int|
            0 <= a < added.len() && 0 <= b < added.len() && a != b implies #[trigger] added[a].id
            != #[trigger] added[b].id by {
            if a < jl && b < jl {
                assert(f[a] == added[a] && f[b] == added[b]);
            } else if a < jl {
                assert(f[a] == added[a]);
                assert(sole_with_id(t.entries, f[a]));
                let q = choose|q: int| 0 <= q < t.entries.len() && t.entries[q] == added[a];
                assert(t.entries[q].id == added[a].id);
            } else if b < jl {
                assert(f[b] == added[b]);
                assert(sole_with_id(t.entries, f[b]));
                let q = choose|q: int| 0 <= q < t.entries.len() && t.entries[q] == added[b];
                assert(t.entries[q].id == added[b].id);
            }
        }
    }
}

/// Redoing additions once for each of `again`: one entry fewer each time, and the additions
/// not yet redone still on the redo stack, their entries still there.
proof fn lemma_redo_run(u: AppView, added: Seq<EntryView>, again: Seq<EntryView>)
    requires
        again.len() <= added.len(),
        u.history.redo.len() == added.len(),
        forall|m: int| 0 <= m < added.len() ==> #[trigger] u.history.redo[m] == (ChangeView::AddEntry { id: added[m].id }),
        forall|m: int| 0 <= m < added.len() ==> sole_with_id(u.entries, #[trigger] added[m]),
        forall|a: int, b: int|
            0 <= a < added.len() && 0 <= b < added.len() && a != b ==> #[trigger] added[a].id
                != #[trigger] added[b].id,
    ensures
        ({
            let r = redone_run(u, again);
            let left = added.len() - again.len();
            &&& r.entries.len() == u.entries.len() - again.len()
            &&& r.history.redo.len() == left
            &&& forall|m: int| 0 <= m < left ==> #[trigger] r.history.redo[m] == (ChangeView::AddEntry { id: added[m].id })
            &&& forall|m: int| 0 <= m < left ==> sole_with_id(r.entries, #[trigger] added[m])
        }),
    decreases again.len(),
{
    if again.len() > 0 {
        let g = again.drop_last();
        lemma_redo_run(u, added, g);
        let t = redone_run(u, g);
        let left = added.len() - again.len();
        let gone = added[left];
        let top = t.history.redo.last();
        assert(top == ChangeView::AddEntry { id: gone.id }) by {
            assert(t.history.redo[t.history.redo.len() - 1] == ChangeView::AddEntry {
                id: added[left].id,
            });
        }
        assert(history_action_spec(top) == HistoryActionView::Remove(gone.id));
        let popped = crate::app::redo_popped(t);
        let r = redone_run(u, again);
        assert(r == removed_spec(popped, gone.id, HistoryStack::Undo));
        assert(popped.entries == t.entries);
        assert(sole_with_id(t.entries, gone));
        assert(has_id(t.entries, gone.id)) by {
            let q = choose|q: int| 0 <= q < t.entries.len() && t.entries[q] == gone;
            assert(t.entries[q].id == gone.id);
        }
        lemma_removed_entries(popped, gone.id, HistoryStack::Undo);
        let i = first_pos(t.entries, gone.id);
        assert(t.entries[i] == gone);
        assert(r.entries == t.entries.remove(i));
        assert(r.history.redo == t.history.redo.drop_last());
        assert forall|m: int| 0 <= m < left implies #[trigger] r.history.redo[m]
            == (ChangeView::AddEntry { id: added[m].id }) by {
            assert(r.history.redo[m] == t.history.redo[m]);
        }
        assert forall|m: int| 0 <= m < left implies sole_with_id(r.entries, #[trigger] added[m]) by {
            assert(sole_with_id(t.entries, added[m]));
            assert(added[m].id != gone.id);
            let q = choose|q: int| 0 <= q < t.entries.len() && t.entries[q] == added[m];
            assert(q != i);
            if q < i {
                assert(r.entries[q] == added[m]);
            } else {
                assert(r.entries[q - 1] == added[m]);
            }
            assert forall|x: int| 0 <= x < r.entries.len() && #[trigger] r.entries[x].id == added[m].id implies r.entries[x]
                == added[m] by {
                if x < i {
                    assert(r.entries[x] == t.entries[x]);
                } else {
                    assert(r.entries[x] == t.entries[x + 1]);
                }
            }
        }
    }
}

/// Deleting the first entry `n` times, then undoing `added.len()` of those deletions (the
/// store giving back `added`, each under an id no entry has then), then redoing
/// `again.len()` of those undos: each deletion takes one entry away, each undo brings one
/// back, and each redo takes one away again; every entry brought back and not deleted again
/// is there, the only one with its id.
pub proof fn law_deletions_undone_and_redone(
    s: AppView,
    n: nat,
    added: Seq<EntryView>,
    again: Seq<EntryView>,
)
    requires
        s.history.undo.len() == 0,
        s.history.redo.len() == 0,
        n <= s.history.limit,
        n <= s.entries.len(),
        added.len() <= n,
        again.len() <= added.len(),
        fresh_ids(first_deleted(s, n), added),
    ensures
        ({
            let d = first_deleted(s, n);
            let u = undone_run(d, added);
            let r = redone_run(u, again);
            &&& d.entries.len() == s.entries.len() - n
            &&& u.entries.len() == s.entries.len() - n + added.len()
            &&& r.entries.len() == s.entries.len() - n + added.len() - again.len()
            &&& forall|m: int| 0 <= m < added.len() ==> sole_with_id(u.entries, #[trigger] added[m])
            &&& forall|m: int|
                0 <= m < added.len() - again.len() ==> sole_with_id(r.entries, #[trigger] added[m])
        }),
{
    lemma_deletions(s, n);
    let d = first_deleted(s, n);
    lemma_undo_run(d, added);
    let u = undone_run(d, added);
    lemma_redo_run(u, added, again);
}

} // verus!
