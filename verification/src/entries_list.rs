//! The list of entries: the flat list with its selection, and the folder view that shows the
//! sub-folders of the current folder followed by the entries in it.
use vstd::prelude::*;

use crate::app::{active_spec, folder_is, App};
use crate::entry::{entry_views, EntryView};
use crate::sorted_text::sorted_list;
use crate::tag_tree::{child_names, entry_items, names_at, node, node_fits, reaches, tree_of};
use crate::entry::Timestamp;
use crate::entry_fields::{append_decimal, decimal_spec, signed_decimal_spec};
use crate::entry_popup::{utc_calendar_date, utc_date_parts};
use crate::text::{join, join_spec, views};

verus! {

/// The entries that the filter lets through, in their order.
pub open spec fn active_of<D>(app: App<D>) -> Seq<EntryView> {
    active_spec(entry_views(app.entries@), app.filtered_out_entries@)
}

/// The names of the sub-folders of the folder `path`, in increasing order.
pub open spec fn folder_names(active: Seq<EntryView>, path: Seq<Seq<char>>) -> Seq<Seq<char>> {
    sorted_list(names_at(entry_items(active), path))
}

/// The entries whose folder is exactly `path` joined with `/`.
pub open spec fn folder_entries(active: Seq<EntryView>, path: Seq<Seq<char>>) -> Seq<EntryView> {
    active.filter(folder_is(join_spec(path, seq!['/'])))
}

/// The number of rows of the folder view at `path`: its sub-folders and its entries; none
/// when no entry lies in or below `path`.
pub open spec fn folder_view_len(active: Seq<EntryView>, path: Seq<Seq<char>>) -> int {
    if reaches(entry_items(active), path) {
        (folder_names(active, path).len() + folder_entries(active, path).len()) as int
    } else {
        0
    }
}

/// The number of rows of the folder view as a `usize` can count them.
pub open spec fn folder_rows(active: Seq<EntryView>, path: Seq<Seq<char>>) -> int {
    if folder_view_len(active, path) <= usize::MAX {
        folder_view_len(active, path)
    } else {
        usize::MAX as int
    }
}

/// The sub-folder on the row `sel` of the folder view at `path`.
pub open spec fn folder_name_at(active: Seq<EntryView>, path: Seq<Seq<char>>, sel: Option<usize>) -> Option<Seq<char>> {
    match sel {
        Some(s) => if reaches(entry_items(active), path) && s < folder_names(active, path).len() {
            Some(folder_names(active, path)[s as int])
        } else {
            None
        },
        None => None,
    }
}

/// The id of the entry on the row `sel` of the folder view at `path`.
pub open spec fn folder_entry_at(active: Seq<EntryView>, path: Seq<Seq<char>>, sel: Option<usize>) -> Option<u32> {
    match sel {
        Some(s) => {
            let n = folder_names(active, path).len();
            let fe = folder_entries(active, path);
            if reaches(entry_items(active), path) && n <= s && s - n < fe.len() {
                Some(fe[s - n].id)
            } else {
                None
            }
        },
        None => None,
    }
}

/// The row selected after moving down in a view of `count` rows: one further, at most the
/// last; the first when nothing was selected.
pub open spec fn next_row(sel: Option<usize>, count: int) -> Option<usize> {
    match sel {
        Some(s) => if s + 1 <= count - 1 { Some((s + 1) as usize) } else { Some((count - 1) as usize) },
        None => Some(0),
    }
}

/// The row selected after moving down in a view of `count` rows; an empty view keeps its
/// selection.
pub open spec fn folder_next_selection(sel: Option<usize>, count: int) -> Option<usize> {
    if count == 0 {
        sel
    } else {
        next_row(sel, count)
    }
}

/// The row selected after moving up: one back, at least the first.
pub open spec fn prev_row(sel: Option<usize>) -> Option<usize> {
    match sel {
        Some(s) => if s == 0 { Some(0) } else { Some((s - 1) as usize) },
        None => Some(0),
    }
}

/// The row selection kept within a view of `count` rows: none for an empty view, the first
/// when nothing was selected, the last when past the end.
pub open spec fn clamped_row(sel: Option<usize>, count: int) -> Option<usize> {
    if count > 0 {
        match sel {
            None => Some(0),
            Some(s) => if s >= count { Some((count - 1) as usize) } else { Some(s) },
        }
    } else {
        None
    }
}

/// The id of the entry `step` rows above the selected row `sel` of the flat list of `active`
/// entries, the first row at the least; none when nothing is selected.
pub open spec fn prev_entry_spec(sel: Option<usize>, active: Seq<EntryView>, step: int) -> Option<u32> {
    match sel {
        Some(i) => {
            let k = if i >= step { i - step } else { 0 };
            if k < active.len() { Some(active[k].id) } else { None }
        },
        None => None,
    }
}

/// The id of the entry `step` rows below the selected row `sel`, the last row at the most;
/// none when nothing is selected, the list is empty or the row number passes `usize::MAX`.
pub open spec fn next_entry_spec(sel: Option<usize>, active: Seq<EntryView>, step: int) -> Option<u32> {
    match sel {
        Some(i) => if i + step > usize::MAX {
            None
        } else if i + step < active.len() {
            Some(active[i + step].id)
        } else if active.len() > 0 {
            Some(active.last().id)
        } else {
            None
        },
        None => None,
    }
}

/// The list of entries.
pub struct EntriesList {
    /// The selected row of the flat list.
    pub state: Option<usize>,
    pub is_active: bool,
    pub multi_select_mode: bool,
    /// The segments of the folder shown in the folder view.
    pub folder_path: Vec<String>,
    /// The selected row of the folder view.
    pub folder_list_state: Option<usize>,
}

/// The folder view's facts about the tree of the active entries at `path`.
proof fn lemma_folder_node<D>(app: App<D>, t: crate::tag_tree::TagTree, path: Seq<Seq<char>>)
    requires
        tree_of(t, entry_items(active_of(app))),
    ensures
        node(t, path) is Some <==> reaches(entry_items(active_of(app)), path),
        node(t, path) is Some ==> child_names(node(t, path).unwrap()) == folder_names(
            active_of(app),
            path,
        ),
        node(t, path) is Some ==> node(t, path).unwrap().subfolders@.len() == folder_names(
            active_of(app),
            path,
        ).len(),
{
    assert(node(t, path) is Some <==> reaches(entry_items(active_of(app)), path));
    if node(t, path) is Some {
        assert(node_fits(node(t, path).unwrap(), entry_items(active_of(app)), path));
        crate::sorted_text::lemma_sorted_list(
            child_names(node(t, path).unwrap()),
            names_at(entry_items(active_of(app)), path),
        );
    }
}

impl EntriesList {
    /// An inactive list with nothing selected, showing the root folder.
    pub fn new() -> (l: Self)
        ensures
            l.state is None,
            !l.is_active,
            !l.multi_select_mode,
            l.folder_path@.len() == 0,
            l.folder_list_state is None,
    {
        EntriesList {
            state: None,
            is_active: false,
            multi_select_mode: false,
            folder_path: Vec::new(),
            folder_list_state: None,
        }
    }

    /// Marks the list as the focused control or not.
    pub fn set_active(&mut self, active: bool)
        ensures
            final(self).is_active == active,
            final(self).state == old(self).state,
            final(self).multi_select_mode == old(self).multi_select_mode,
            final(self).folder_path@ == old(self).folder_path@,
            final(self).folder_list_state == old(self).folder_list_state,
    {
        self.is_active = active;
    }

    /// The sub-folder on the selected row of the folder view, if the row shows one.
    pub fn selected_folder_name<D>(&self, app: &App<D>) -> (r: Option<String>)
        ensures
            match r {
                Some(n) => folder_name_at(active_of(*app), views(self.folder_path@), self.folder_list_state)
                    == Some(n@),
                None => folder_name_at(active_of(*app), views(self.folder_path@), self.folder_list_state) is None,
            },
    {
        let sel = match self.folder_list_state {
            Some(s) => s,
            None => {
                return None;
            },
        };
        let tree = app.get_tag_tree();
        let ghost path = views(self.folder_path@);
        proof {
            lemma_folder_node(*app, tree, path);
        }
        let node = match tree.get_node(self.folder_path.as_slice()) {
            Some(n) => n,
            None => {
                return None;
            },
        };
        let folders = node.subfolder_names();
        assert(folders@.map_values(|n: &str| n@) == child_names(*node));
        if sel < folders.len() {
            assert(folders@.map_values(|n: &str| n@)[sel as int] == folders@[sel as int]@);
            Some(folders[sel].to_string())
        } else {
            None
        }
    }

    /// The id of the entry on the selected row of the folder view, if the row shows one.
    pub fn selected_folder_entry_id<D>(&self, app: &App<D>) -> (r: Option<u32>)
        ensures
            r == folder_entry_at(active_of(*app), views(self.folder_path@), self.folder_list_state),
    {
        let sel = match self.folder_list_state {
            Some(s) => s,
            None => {
                return None;
            },
        };
        let tree = app.get_tag_tree();
        let ghost path = views(self.folder_path@);
        proof {
            lemma_folder_node(*app, tree, path);
        }
        let node = match tree.get_node(self.folder_path.as_slice()) {
            Some(n) => n,
            None => {
                return None;
            },
        };
        let folder_count = node.subfolders.len();
        if sel < folder_count {
            return None;
        }
        let entry_index = sel - folder_count;
        let entries = app.get_entries_in_folder(&self.folder_path);
        if entry_index < entries.len() {
            assert(crate::app::ref_views(entries@)[entry_index as int] == entries@[entry_index as int]@);
            Some(entries[entry_index].id)
        } else {
            None
        }
    }

    /// The number of rows of the folder view: the sub-folders and the entries of the shown
    /// folder (at most `usize::MAX`).
    fn folder_row_count<D>(&self, app: &App<D>) -> (r: usize)
        ensures
            r == folder_rows(active_of(*app), views(self.folder_path@)),
    {
        let tree = app.get_tag_tree();
        let ghost path = views(self.folder_path@);
        proof {
            lemma_folder_node(*app, tree, path);
        }
        match tree.get_node(self.folder_path.as_slice()) {
            Some(n) => {
                let entries = app.get_entries_in_folder(&self.folder_path);
                assert(crate::app::ref_views(entries@).len() == entries@.len());
                if n.subfolders.len() > usize::MAX - entries.len() {
                    usize::MAX
                } else {
                    n.subfolders.len() + entries.len()
                }
            },
            None => 0,
        }
    }

    /// Moves the folder view's selection one row down, staying on the last row; nothing
    /// happens in an empty view.
    pub fn folder_nav_select_next<D>(&mut self, app: &App<D>)
        ensures
            final(self).folder_list_state == folder_next_selection(
                old(self).folder_list_state,
                folder_rows(active_of(*app), views(old(self).folder_path@)),
            ),
            final(self).state == old(self).state,
            final(self).is_active == old(self).is_active,
            final(self).multi_select_mode == old(self).multi_select_mode,
            final(self).folder_path@ == old(self).folder_path@,
    {
        let count = self.folder_row_count(app);
        if count == 0 {
            return;
        }
        let next = match self.folder_list_state {
            Some(s) => if s >= count - 1 { count - 1 } else { s + 1 },
            None => 0,
        };
        self.folder_list_state = Some(next);
    }

    /// Moves the folder view's selection one row up, staying on the first row.
    pub fn folder_nav_select_prev(&mut self)
        ensures
            final(self).folder_list_state == prev_row(old(self).folder_list_state),
            final(self).state == old(self).state,
            final(self).is_active == old(self).is_active,
            final(self).multi_select_mode == old(self).multi_select_mode,
            final(self).folder_path@ == old(self).folder_path@,
    {
        let prev = match self.folder_list_state {
            Some(s) => if s == 0 { 0 } else { s - 1 },
            None => 0,
        };
        self.folder_list_state = Some(prev);
    }

    /// In folder view, keeps the selection within the rows and makes the entry on the
    /// selected row the current entry (none when the row shows a folder); nothing happens in
    /// the flat view.
    pub fn sync_folder_nav_state<D>(&mut self, app: &mut App<D>)
        ensures
            final(self).state == old(self).state,
            final(self).is_active == old(self).is_active,
            final(self).multi_select_mode == old(self).multi_select_mode,
            final(self).folder_path@ == old(self).folder_path@,
            !old(app).state.folder_nav_mode ==> final(self).folder_list_state == old(self).folder_list_state
                && *final(app) == *old(app),
            old(app).state.folder_nav_mode ==> ({
                let active = active_of(*old(app));
                let path = views(old(self).folder_path@);
                let sel = clamped_row(old(self).folder_list_state, folder_rows(active, path));
                &&& final(self).folder_list_state == sel
                &&& *final(app) == (App { current_entry_id: folder_entry_at(active, path, sel), ..*old(app) })
            }),
    {
        if !app.state.folder_nav_mode {
            return;
        }
        let items_count = self.folder_row_count(app);
        if items_count > 0 {
            match self.folder_list_state {
                None => {
                    self.folder_list_state = Some(0);
                },
                Some(s) => {
                    if s >= items_count {
                        self.folder_list_state = Some(items_count - 1);
                    }
                },
            }
        } else {
            self.folder_list_state = None;
        }
        let entry_id = self.selected_folder_entry_id(app);
        app.current_entry_id = entry_id;
    }

    /// The id of the active entry `step` rows above the selected row of the flat list (the
    /// first entry when fewer rows are above); none when nothing is selected.
    pub fn prev_entry_id<D>(&self, step: usize, app: &App<D>) -> (r: Option<u32>)
        ensures
            r == prev_entry_spec(self.state, active_of(*app), step as int),
    {
        match self.state {
            Some(index) => {
                let prev_index = if index >= step { index - step } else { 0 };
                let active = app.get_active_entries();
                if prev_index < active.len() {
                    assert(crate::app::ref_views(active@)[prev_index as int] == active@[prev_index as int]@);
                    Some(active[prev_index].id)
                } else {
                    None
                }
            },
            None => None,
        }
    }

    /// The id of the active entry `step` rows below the selected row of the flat list (the
    /// last entry when fewer rows are below); none when nothing is selected, when the list is
    /// empty, or when the row number would not fit in a `usize`.
    pub fn next_entry_id<D>(&self, step: usize, app: &App<D>) -> (r: Option<u32>)
        ensures
            r == next_entry_spec(self.state, active_of(*app), step as int),
    {
        match self.state {
            Some(index) => {
                match index.checked_add(step) {
                    Some(next_index) => {
                        let active = app.get_active_entries();
                        if next_index < active.len() {
                            assert(crate::app::ref_views(active@)[next_index as int] == active@[next_index as int]@);
                            Some(active[next_index].id)
                        } else if active.len() > 0 {
                            let last = active.len() - 1;
                            assert(crate::app::ref_views(active@)[last as int] == active@[last as int]@);
                            Some(active[last].id)
                        } else {
                            None
                        }
                    },
                    None => None,
                }
            },
            None => None,
        }
    }
}

/// Whether the date of an entry without priority shows in the list, is left out, or leaves an
/// empty line.
#[derive(Debug, Clone, Copy, PartialEq, Eq, Structural)]
pub enum DatumVisibility {
    Show,
    Hide,
    EmptyLine,
}

/// The columns the list keeps free beside its text.
pub const LIST_INNER_MARGIN: usize = 5;

/// The date as the list shows it: day, month and year separated by commas, without padding.
pub open spec fn short_date_spec(day: u32, month: u32, year: i32) -> Seq<char> {
    decimal_spec(day as nat) + seq![','] + decimal_spec(month as nat) + seq![',']
        + signed_decimal_spec(year as int)
}

/// The date of the timestamp `date` as the list shows it (empty where it has no calendar
/// date).
pub open spec fn list_date_spec(date: Timestamp) -> Seq<char> {
    match utc_calendar_date(date.secs, date.nanos) {
        Some(d) => short_date_spec(d.0, d.1, d.2),
        None => Seq::empty(),
    }
}

/// The line that shows a priority.
pub open spec fn priority_line_spec(p: u32) -> Seq<char> {
    "Priority: "@ + decimal_spec(p as nat)
}

/// The date and priority lines of an entry in the flat list of width `width`: with a priority
/// and shown dates, one line with both, or two lines where one does not fit; a priority alone
/// otherwise; without priority, the date, nothing or an empty line as `visibility` says.
pub open spec fn date_priority_lines_spec(
    visibility: DatumVisibility,
    date: Timestamp,
    priority: Option<u32>,
    width: int,
) -> Seq<Seq<char>> {
    let d = list_date_spec(date);
    match (visibility, priority) {
        (DatumVisibility::Show, Some(p)) => {
            let one = d + " | "@ + priority_line_spec(p);
            if one.len() > width - LIST_INNER_MARGIN {
                seq![d, priority_line_spec(p)]
            } else {
                seq![one]
            }
        },
        (DatumVisibility::Show, None) => seq![d],
        (DatumVisibility::Hide, None) => Seq::empty(),
        (DatumVisibility::EmptyLine, None) => seq![Seq::empty()],
        (_, Some(p)) => seq![priority_line_spec(p)],
    }
}

/// The date and priority lines of an entry in the folder view: as in the flat list, but the
/// date and the priority always share one line.
pub open spec fn folder_date_priority_lines_spec(
    visibility: DatumVisibility,
    date: Timestamp,
    priority: Option<u32>,
) -> Seq<Seq<char>> {
    let d = list_date_spec(date);
    match (visibility, priority) {
        (DatumVisibility::Show, Some(p)) => seq![d + " | "@ + priority_line_spec(p)],
        (DatumVisibility::Show, None) => seq![d],
        (DatumVisibility::EmptyLine, None) => seq![Seq::empty()],
        (_, Some(p)) => seq![priority_line_spec(p)],
        _ => Seq::empty(),
    }
}

/// The date of `date` as the list shows it.
fn list_date(date: Timestamp) -> (r: String)
    ensures
        r@ == list_date_spec(date),
{
    match utc_date_parts(date) {
        Some((day, month, year)) => {
            proof {
                reveal_strlit(",");
                reveal_strlit("-");
            }
            let mut s = String::new();
            append_decimal(&mut s, day as u64);
            s.append(",");
            append_decimal(&mut s, month as u64);
            s.append(",");
            if year < 0 {
                s.append("-");
                let magnitude: i64 = -(year as i64);
                append_decimal(&mut s, magnitude as u64);
            } else {
                append_decimal(&mut s, year as u64);
            }
            assert(s@ =~= short_date_spec(day, month, year));
            s
        },
        None => String::new(),
    }
}

/// The line that shows the priority `p`.
fn priority_line(p: u32) -> (r: String)
    ensures
        r@ == priority_line_spec(p),
{
    let mut s = "Priority: ".to_string();
    append_decimal(&mut s, p as u64);
    s
}

/// The date and priority lines of an entry in the flat list of width `width`.
pub fn date_priority_lines(
    visibility: DatumVisibility,
    date: Timestamp,
    priority: Option<u32>,
    width: usize,
) -> (r: Vec<String>)
    requires
        width >= LIST_INNER_MARGIN,
    ensures
        views(r@) == date_priority_lines_spec(visibility, date, priority, width as int),
{
    let mut r: Vec<String> = Vec::new();
    match (visibility, priority) {
        (DatumVisibility::Show, Some(p)) => {
            let d = list_date(date);
            let mut one = d.clone();
            one.append(" | ");
            let line = priority_line(p);
            one.append(line.as_str());
            proof {
                reveal_strlit(" | ");
            }
            assert(one@ =~= d@ + " | "@ + priority_line_spec(p));
            if one.unicode_len() > width - LIST_INNER_MARGIN {
                r.push(d);
                r.push(line);
            } else {
                r.push(one);
            }
        },
        (DatumVisibility::Show, None) => {
            r.push(list_date(date));
        },
        (DatumVisibility::Hide, None) => {},
        (DatumVisibility::EmptyLine, None) => {
            r.push(String::new());
        },
        (_, Some(p)) => {
            r.push(priority_line(p));
        },
    }
    assert(views(r@) =~= date_priority_lines_spec(visibility, date, priority, width as int));
    r
}

/// The date and priority lines of an entry in the folder view.
pub fn folder_date_priority_lines(
    visibility: DatumVisibility,
    date: Timestamp,
    priority: Option<u32>,
) -> (r: Vec<String>)
    ensures
        views(r@) == folder_date_priority_lines_spec(visibility, date, priority),
{
    let mut r: Vec<String> = Vec::new();
    match (visibility, priority) {
        (DatumVisibility::Show, Some(p)) => {
            let mut one = list_date(date);
            one.append(" | ");
            let line = priority_line(p);
            one.append(line.as_str());
            proof {
                reveal_strlit(" | ");
            }
            r.push(one);
        },
        (DatumVisibility::Show, None) => {
            r.push(list_date(date));
        },
        (DatumVisibility::EmptyLine, None) => {
            r.push(String::new());
        },
        (_, Some(p)) => {
            r.push(priority_line(p));
        },
        _ => {},
    }
    assert(views(r@) =~= folder_date_priority_lines_spec(visibility, date, priority));
    r
}

impl EntriesList {
    /// The path shown above the folder view: two spaces, then `/` and the folder names joined
    /// with `/`.
    pub fn build_breadcrumb(&self) -> (r: String)
        ensures
            r@ == "  /"@ + join_spec(views(self.folder_path@), seq!['/']),
    {
        let sep = "/";
        proof {
            reveal_strlit("/");
            assert(sep@ =~= seq!['/']);
        }
        let mut r = "  /".to_string();
        let joined = join(&self.folder_path, sep);
        r.append(joined.as_str());
        r
    }

    /// The title of the folder view: with the name of the shown folder below the root.
    pub fn get_folder_view_block_title(&self) -> (r: String)
        ensures
            self.folder_path@.len() == 0 ==> r@ == "Journals [Folder View]"@,
            self.folder_path@.len() > 0 ==> r@ == "Journals [Folder View] › "@
                + self.folder_path@.last()@,
    {
        if self.folder_path.len() == 0 {
            "Journals [Folder View]".to_string()
        } else {
            let mut r = "Journals [Folder View] › ".to_string();
            r.append(self.folder_path[self.folder_path.len() - 1].as_str());
            r
        }
    }
}

} // verus!
