//! Laws of the entry store: fresh ids, deleted and renamed folders.
use vstd::prelude::*;

use crate::entry::EntryView;
use crate::folder_path::{below_prefix, in_folder_spec, renamed_folder_spec};
use crate::json_store::{folder_renamed, ids_distinct, lemma_next_id_above, next_id_spec};

verus! {

/// A new entry gets an id that no stored entry has, so the ids stay pairwise different.
pub proof fn law_added_entry_id_is_fresh(s: Seq<EntryView>, e: EntryView)
    requires
        ids_distinct(s),
        e.id == next_id_spec(s),
    ensures
        forall|k: int| 0 <= k < s.len() ==> s[k].id != e.id,
        ids_distinct(s.push(e)),
{
    lemma_next_id_above(s);
    let t = s.push(e);
    assert forall|i: int, j: int| 0 <= i < t.len() && 0 <= j < t.len() && i != j implies t[i].id
        != t[j].id by {
        if i < s.len() && j < s.len() {
            assert(t[i] == s[i] && t[j] == s[j]);
        } else if i < s.len() {
            assert(t[i] == s[i]);
        } else {
            assert(t[j] == s[j]);
        }
    }
}

/// Whether an entry lies outside the folder `path` and its sub-folders.
pub open spec fn outside_folder(path: Seq<char>) -> spec_fn(EntryView) -> bool {
    |e: EntryView| !in_folder_spec(e.folder, path)
}

/// After a folder is deleted no entry lies in it or below it, and every entry outside it
/// stays.
pub proof fn law_deleted_folder_is_empty(s: Seq<EntryView>, path: Seq<char>)
    ensures
        forall|k: int|
            0 <= k < s.filter(outside_folder(path)).len() ==> !in_folder_spec(
                #[trigger] s.filter(outside_folder(path))[k].folder,
                path,
            ),
        forall|k: int|
            0 <= k < s.len() && !in_folder_spec(s[k].folder, path) ==> s.filter(
                outside_folder(path),
            ).contains(#[trigger] s[k]),
{
    let f = s.filter(outside_folder(path));
    assert forall|k: int| 0 <= k < f.len() implies !in_folder_spec(#[trigger] f[k].folder, path) by {
        s.lemma_filter_pred(outside_folder(path), k);
    }
    assert forall|k: int| 0 <= k < s.len() && !in_folder_spec(s[k].folder, path) implies f.contains(
        #[trigger] s[k],
    ) by {
        s.lemma_filter_contains(outside_folder(path), k);
    }
}

/// Renaming the folder `old` to `new` moves each entry of `old` or of its sub-folders into
/// `new` or the matching sub-folder of it, and leaves every other entry where it is.
pub proof fn law_rename_moves_folder(folder: Seq<char>, old: Seq<char>, new: Seq<char>)
    ensures
        in_folder_spec(folder, old) ==> in_folder_spec(renamed_folder_spec(folder, old, new), new),
        !in_folder_spec(folder, old) ==> renamed_folder_spec(folder, old, new) == folder,
{
    if folder != old && below_prefix(old).is_prefix_of(folder) {
        let r = renamed_folder_spec(folder, old, new);
        assert(folder[old.len() as int] == '/') by {
            assert(below_prefix(old)[old.len() as int] == '/');
        }
        assert(below_prefix(new).is_prefix_of(r)) by {
            assert(r[new.len() as int] == folder[old.len() as int]);
            assert forall|i: int| 0 <= i < below_prefix(new).len() implies below_prefix(new)[i]
                == r[i] by {
                if i < new.len() {
                    assert(r[i] == new[i]);
                }
            }
        }
    }
}

/// Renaming `new` back to `old` undoes renaming `old` to `new` for an entry that lay in `old`
/// or outside `new` before.
pub proof fn law_rename_back_restores(folder: Seq<char>, old: Seq<char>, new: Seq<char>)
    requires
        in_folder_spec(folder, old) || !in_folder_spec(folder, new),
    ensures
        renamed_folder_spec(renamed_folder_spec(folder, old, new), new, old) == folder,
{
    law_rename_moves_folder(folder, old, new);
    let r = renamed_folder_spec(folder, old, new);
    if folder == old {
    } else if below_prefix(old).is_prefix_of(folder) {
        let rest = folder.subrange(old.len() as int, folder.len() as int);
        assert(r == new + rest);
        if r == new {
            assert(rest.len() == 0);
        }
        assert(r != new) by {
            assert(folder[old.len() as int] == '/') by {
                assert(below_prefix(old)[old.len() as int] == '/');
            }
        }
        assert(r.subrange(new.len() as int, r.len() as int) =~= rest);
        assert forall|i: int| 0 <= i < old.len() implies old[i] == folder[i] by {
            assert(below_prefix(old)[i] == old[i]);
        }
        assert(old + rest =~= folder);
    }
}

/// Renaming a folder renames, entry by entry, exactly what `law_rename_moves_folder` says.
pub proof fn law_rename_entries(s: Seq<EntryView>, old: Seq<char>, new: Seq<char>)
    ensures
        forall|k: int|
            0 <= k < s.len() && in_folder_spec(s[k].folder, old) ==> in_folder_spec(
                #[trigger] s.map_values(folder_renamed(old, new))[k].folder,
                new,
            ),
{
    assert forall|k: int|
        0 <= k < s.len() && in_folder_spec(s[k].folder, old) implies in_folder_spec(
        #[trigger] s.map_values(folder_renamed(old, new))[k].folder,
        new,
    ) by {
        law_rename_moves_folder(s[k].folder, old, new);
    }
}

} // verus!
