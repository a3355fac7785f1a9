//! What moving the selection in the folder view and keeping it in range do, row by row.
use vstd::prelude::*;

use crate::entries_list::{
    clamped_row, folder_entries, folder_entry_at, folder_name_at, folder_names,
    folder_next_selection, folder_rows, folder_view_len, next_row, prev_row,
};
use crate::entry::EntryView;
use crate::tag_tree::{entry_items, reaches};

verus! {

/// Moving up in the folder view goes one row up from a row below the first, stays on the
/// first row, and starts on the first row when nothing was selected; it never moves down.
pub proof fn law_folder_select_prev_moves_one_up(sel: Option<usize>)
    ensures
        prev_row(sel) is Some,
        sel matches Some(s) ==> (s > 0 ==> prev_row(sel) == Some((s - 1) as usize)),
        sel == Some(0usize) ==> prev_row(sel) == Some(0usize),
        sel is None ==> prev_row(sel) == Some(0usize),
        sel matches Some(s) ==> prev_row(sel).unwrap() <= s,
{
}

/// Moving down in a folder view of `count` rows goes one row down from a row above the last,
/// stays on the last row, and starts on the first row when nothing was selected.
pub proof fn law_folder_select_next_moves_one_down(sel: Option<usize>, count: int)
    requires
        0 < count <= usize::MAX,
    ensures
        next_row(sel, count) is Some,
        next_row(sel, count).unwrap() < count,
        sel matches Some(s) ==> (s + 1 < count ==> next_row(sel, count) == Some(
            (s + 1) as usize,
        )),
        sel matches Some(s) ==> (s + 1 >= count ==> next_row(sel, count) == Some(
            (count - 1) as usize,
        )),
        sel is None ==> next_row(sel, count) == Some(0usize),
{
}

/// Moving down then up, or up then down, comes back to a row that is neither the first nor
/// past the last.
pub proof fn law_folder_select_round_trip(s: usize, count: int)
    requires
        count <= usize::MAX,
    ensures
        s + 1 < count ==> prev_row(next_row(Some(s), count)) == Some(s),
        0 < s < count ==> next_row(prev_row(Some(s)), count) == Some(s),
{
}

/// Keeping the selection in a folder view of `count` rows: a row past the end becomes the
/// last row, a row in range stays, no selection becomes the first row, and an empty view has
/// none; the result is always a row of the view, and keeping it again changes nothing.
pub proof fn law_folder_selection_kept_in_range(sel: Option<usize>, count: int)
    requires
        count <= usize::MAX,
    ensures
        count > 0 ==> clamped_row(sel, count) is Some && clamped_row(sel, count).unwrap() < count,
        sel matches Some(s) ==> (count > 0 && s >= count ==> clamped_row(sel, count) == Some(
            (count - 1) as usize,
        )),
        sel matches Some(s) ==> (s < count ==> clamped_row(sel, count) == Some(s)),
        count > 0 && sel is None ==> clamped_row(sel, count) == Some(0usize),
        count <= 0 ==> clamped_row(sel, count) is None,
        clamped_row(clamped_row(sel, count), count) == clamped_row(sel, count),
{
}


/// Moving down in an empty folder view keeps the selection; in a view with rows it moves as
/// `law_folder_select_next_moves_one_down` says.
pub proof fn law_folder_select_next_in_empty_view(sel: Option<usize>, count: int)
    ensures
        count == 0 ==> folder_next_selection(sel, count) == sel,
        count > 0 ==> folder_next_selection(sel, count) == next_row(sel, count),
{
}

/// What each row of the folder view at `path` shows: first the sub-folders in increasing
/// order of names, then the entries of the folder in their order, then nothing; no row shows
/// anything where no entry lies in or below `path`, and no selection shows nothing.
pub proof fn law_folder_view_rows(active: Seq<EntryView>, path: Seq<Seq<char>>, sel: Option<usize>)
    ensures
        ({
            let n = folder_names(active, path).len();
            let fe = folder_entries(active, path);
            &&& sel is None ==> folder_name_at(active, path, sel) is None && folder_entry_at(
                active,
                path,
                sel,
            ) is None
            &&& !reaches(entry_items(active), path) ==> folder_name_at(active, path, sel) is None
                && folder_entry_at(active, path, sel) is None
            &&& reaches(entry_items(active), path) ==> (sel matches Some(s) ==> (s < n ==> (
                folder_name_at(active, path, sel) == Some(folder_names(active, path)[s as int])
                    && folder_entry_at(active, path, sel) is None)))
            &&& reaches(entry_items(active), path) ==> (sel matches Some(s) ==> (n <= s < n
                + fe.len() ==> (folder_entry_at(active, path, sel) == Some(fe[s - n].id)
                && folder_name_at(active, path, sel) is None)))
            &&& sel matches Some(s) ==> (s >= n + fe.len() ==> folder_name_at(active, path, sel)
                is None && folder_entry_at(active, path, sel) is None)
        }),
{
}

/// When the selected row of a folder view is at or past its rows (its last entry was
/// deleted), keeping the selection in range selects the last row, and that row's entry is the
/// folder's last entry.
pub proof fn law_folder_sync_selects_last_entry(active: Seq<EntryView>, path: Seq<Seq<char>>, s: usize)
    requires
        reaches(entry_items(active), path),
        folder_view_len(active, path) <= usize::MAX,
        folder_entries(active, path).len() > 0,
        s >= folder_rows(active, path),
    ensures
        ({
            let rows = folder_rows(active, path);
            let sel = clamped_row(Some(s), rows);
            &&& sel == Some((rows - 1) as usize)
            &&& folder_entry_at(active, path, sel) == Some(folder_entries(active, path).last().id)
        }),
{
}

} // verus!
