//! The state of the journal application: the loaded entries, which of them the filter hides,
//! their order, and the history of changes with its undo and redo.
use vstd::prelude::*;

use std::collections::HashSet;

use rayon::prelude::{IntoParallelRefIterator, ParallelIterator};

use crate::entry::{entry_views, first_pos, has_id, position_of_id, Entry, EntryView};
use crate::filter::{
    criteria_views, filter_holds, CriteriaRelation, CriterionView, Filter, FilterCriterion, FilterView,
    TagFilterOption, TagOptionView,
};
use crate::folder_path::in_folder_spec;
use crate::json_store::{delete_folder_in, folder_renamed, rename_folder_in};
use crate::text::{join, join_spec};
use crate::history::{
    attributes_of, history_action_spec, pushed, AttributesView, Change, ChangeView, HistoryAction,
    HistoryActionView, HistoryManager, HistoryStack, HistoryView,
};
use crate::sorted_text::{insert_sorted, lemma_sorted_list, sorted_list, strictly_sorted};
use crate::sorter::{sort_spec, SortCriteria, SortOrder, Sorter, SorterView};
use crate::tag_tree::{entry_items, tree_of, TagTree};
use crate::text::views;

verus! {

broadcast use vstd::std_specs::hash::group_hash_axioms;

/// Whether an entry is in exactly the folder `f`.
pub open spec fn folder_is(f: Seq<char>) -> spec_fn(EntryView) -> bool {
    |e: EntryView| e.folder == f
}

/// The state that is kept between sessions.
#[derive(Debug)]
pub struct AppState {
    pub sorter: Sorter,
    /// Whether the entries are shown by folder rather than in one flat list.
    pub folder_nav_mode: bool,
    pub full_screen: bool,
}

impl AppState {
    /// The state of a first session: default sorting, flat list, no full screen.
    pub fn default() -> (s: Self)
        ensures
            s.sorter@.criteria == seq![SortCriteria::Date, SortCriteria::Priority, SortCriteria::Title],
            s.sorter@.order == SortOrder::Descending,
            !s.folder_nav_mode,
            !s.full_screen,
    {
        AppState { sorter: Sorter::default(), folder_nav_mode: false, full_screen: false }
    }
}

/// The view of an optional filter.
pub open spec fn filter_view(f: Option<Filter>) -> Option<FilterView> {
    match f {
        Some(x) => Some(x@),
        None => None,
    }
}

/// Every tag of every entry.
pub open spec fn all_tags_set(entries: Seq<EntryView>) -> Set<Seq<char>> {
    Set::new(|t: Seq<char>| exists|i: int| 0 <= i < entries.len() && entries[i].tags.contains(t))
}

/// Every folder of an entry but the root.
pub open spec fn all_folders_set(entries: Seq<EntryView>) -> Set<Seq<char>> {
    Set::new(
        |f: Seq<char>| f.len() > 0 && exists|i: int| 0 <= i < entries.len() && entries[i].folder == f,
    )
}

/// The ids of the entries that do not pass the filter.
pub open spec fn failing_ids(entries: Seq<EntryView>, f: FilterView) -> Set<u32> {
    Set::new(
        |id: u32|
            exists|i: int| 0 <= i < entries.len() && entries[i].id == id && !filter_holds(f, entries[i]),
    )
}

/// The ids hidden by an optional filter: none without a filter.
pub open spec fn filtered_out_spec(entries: Seq<EntryView>, filter: Option<FilterView>) -> Set<u32> {
    match filter {
        Some(f) => failing_ids(entries, f),
        None => Set::empty(),
    }
}

/// The entries whose id is not hidden, in their order.
pub open spec fn active_spec(entries: Seq<EntryView>, out: Set<u32>) -> Seq<EntryView> {
    entries.filter(|e: EntryView| !out.contains(e.id))
}

/// Whether a criterion still makes sense with the tags `tags` of the entries: a tag criterion
/// needs its tag, the "no tags" criterion needs some tag to exist at all.
pub open spec fn criterion_still_valid(c: CriterionView, tags: Set<Seq<char>>) -> bool {
    match c {
        CriterionView::Tag(TagOptionView::Tag(t)) => tags.contains(t),
        CriterionView::Tag(TagOptionView::NoTags) => exists|t: Seq<char>| tags.contains(t),
        _ => true,
    }
}

/// The filter after dropping the criteria that no longer make sense; no filter when none is
/// left.
pub open spec fn updated_filter(f: Option<FilterView>, tags: Set<Seq<char>>) -> Option<FilterView> {
    match f {
        None => None,
        Some(fv) => {
            let c = fv.criteria.filter(|c: CriterionView| criterion_still_valid(c, tags));
            if c.len() == 0 {
                None
            } else {
                Some(FilterView { criteria: c, ..fv })
            }
        },
    }
}

/// The views of a sequence of entry references.
pub open spec fn ref_views(v: Seq<&Entry>) -> Seq<EntryView> {
    v.map_values(|e: &Entry| e@)
}

/// The mathematical value of the application's state (all but the store).
pub struct AppView {
    pub entries: Seq<EntryView>,
    pub current_entry_id: Option<u32>,
    pub selected: Set<u32>,
    pub filtered_out: Set<u32>,
    pub filter: Option<FilterView>,
    pub sorter: SorterView,
    pub history: HistoryView,
}

/// The state with the hidden ids recomputed from the entries and the filter.
pub open spec fn refreshed(s: AppView) -> AppView {
    AppView { filtered_out: filtered_out_spec(s.entries, s.filter), ..s }
}

/// The state with the entries sorted.
pub open spec fn resorted(s: AppView) -> AppView {
    AppView { entries: sort_spec(s.sorter, s.entries), ..s }
}

/// The state with the filter's criteria that no longer make sense dropped.
pub open spec fn filter_revised(s: AppView) -> AppView {
    AppView { filter: updated_filter(s.filter, all_tags_set(s.entries)), ..s }
}

/// The state after the entries `entries` were loaded.
pub open spec fn loaded_spec(s: AppView, entries: Seq<EntryView>) -> AppView {
    refreshed(resorted(AppView { entries, ..s }))
}

/// The state after the store added the entry `e`, recorded on the stack `target`.
pub open spec fn added_spec(s: AppView, e: EntryView, target: HistoryStack) -> AppView {
    refreshed(
        resorted(
            AppView {
                entries: s.entries.push(e),
                history: pushed(s.history, target, ChangeView::AddEntry { id: e.id }),
                ..s
            },
        ),
    )
}

/// The state after the first entry with the id `id` was removed, recorded on `target`.
pub open spec fn removed_spec(s: AppView, id: u32, target: HistoryStack) -> AppView {
    let i = first_pos(s.entries, id);
    refreshed(
        filter_revised(
            AppView {
                entries: s.entries.remove(i),
                history: pushed(s.history, target, ChangeView::RemoveEntry(s.entries[i])),
                ..s
            },
        ),
    )
}

/// The entry view with the attributes `a` (its id and content kept).
pub open spec fn with_attributes(e: EntryView, a: AttributesView) -> EntryView {
    EntryView {
        id: e.id,
        date: a.date,
        title: a.title,
        content: e.content,
        tags: a.tags,
        priority: a.priority,
        folder: a.folder,
    }
}

/// The state after the attributes of the first entry with the id `a.id` were set to `a` and
/// its former attributes recorded on `target` (before the change is stored).
pub open spec fn attributes_set_spec(s: AppView, a: AttributesView, target: HistoryStack) -> AppView {
    let i = first_pos(s.entries, a.id);
    AppView {
        entries: s.entries.update(i, with_attributes(s.entries[i], a)),
        history: pushed(
            s.history,
            target,
            ChangeView::EntryAttribute(attributes_of(s.entries[i])),
        ),
        ..s
    }
}

/// The state once changed attributes are stored: entries sorted, filter revised, hidden ids
/// recomputed.
pub open spec fn attributes_stored_spec(s: AppView) -> AppView {
    refreshed(filter_revised(resorted(s)))
}

/// The state after the content of the first entry with the id `id` was set to `content` and
/// its former content recorded on `target` (before the change is stored).
pub open spec fn content_set_spec(s: AppView, id: u32, content: Seq<char>, target: HistoryStack) -> AppView {
    let i = first_pos(s.entries, id);
    AppView {
        entries: s.entries.update(i, EntryView { content, ..s.entries[i] }),
        history: pushed(
            s.history,
            target,
            ChangeView::EntryContent { id, content: s.entries[i].content },
        ),
        ..s
    }
}

/// The state with the latest change to undo taken off its stack.
pub open spec fn undo_popped(s: AppView) -> AppView {
    AppView { history: HistoryView { undo: s.history.undo.drop_last(), ..s.history }, ..s }
}

/// The state with the latest change to redo taken off its stack.
pub open spec fn redo_popped(s: AppView) -> AppView {
    AppView { history: HistoryView { redo: s.history.redo.drop_last(), ..s.history }, ..s }
}


/// The state after the action `a` was carried out on `s` through the store and recorded on
/// `target`, where an entry that the action adds back came from the store as `added`.
pub open spec fn action_applied(
    s: AppView,
    a: HistoryActionView,
    target: HistoryStack,
    added: EntryView,
) -> AppView {
    match a {
        HistoryActionView::Remove(id) => removed_spec(s, id, target),
        HistoryActionView::Add(_) => added_spec(s, added, target),
        HistoryActionView::SetAttributes(attr) => attributes_stored_spec(
            attributes_set_spec(s, attr, target),
        ),
        HistoryActionView::SetContent(id, content) => refreshed(
            content_set_spec(s, id, content, target),
        ),
    }
}

/// The state after an undo: the latest change to undo taken off its stack and the action
/// that reverts it carried out, recorded on the redo stack.
pub open spec fn undone(s: AppView, added: EntryView) -> AppView {
    action_applied(
        undo_popped(s),
        history_action_spec(s.history.undo.last()),
        HistoryStack::Redo,
        added,
    )
}

/// The state after a redo: the latest change to redo taken off its stack and the action that
/// reverts it carried out, recorded on the undo stack.
pub open spec fn redone(s: AppView, added: EntryView) -> AppView {
    action_applied(
        redo_popped(s),
        history_action_spec(s.history.redo.last()),
        HistoryStack::Undo,
        added,
    )
}

/// Whether a criterion is on tags.
pub open spec fn is_tag_criterion(c: CriterionView) -> bool {
    c is Tag
}

/// The tag options to cycle through: each tag of the entries in increasing order, then
/// "no tags".
pub open spec fn tag_options(tags: Seq<Seq<char>>) -> Seq<TagOptionView> {
    tags.map_values(|t: Seq<char>| TagOptionView::Tag(t)).push(TagOptionView::NoTags)
}

/// `k` is the first position of a tag criterion.
pub open spec fn is_first_tag_criterion(c: Seq<CriterionView>, k: int) -> bool {
    &&& 0 <= k < c.len()
    &&& c[k] is Tag
    &&& forall|j: int| 0 <= j < k ==> !(c[j] is Tag)
}

/// The position of the first tag criterion.
pub open spec fn first_tag_criterion(c: Seq<CriterionView>) -> int {
    choose|k: int| is_first_tag_criterion(c, k)
}

/// The position of `o` among `opts`, 0 when it is not there.
pub open spec fn option_pos(opts: Seq<TagOptionView>, o: TagOptionView) -> int {
    if exists|k: int| 0 <= k < opts.len() && opts[k] == o {
        choose|k: int| 0 <= k < opts.len() && opts[k] == o
    } else {
        0
    }
}

/// The criteria after one step of cycling through the tag options `opts`: with no tag
/// criterion the first option is added; with one, it moves to the next option (after the
/// last comes the first again); with more, they are all replaced by the first option.
pub open spec fn cycled_criteria(c: Seq<CriterionView>, opts: Seq<TagOptionView>) -> Seq<
    CriterionView,
> {
    let tag_count = c.filter(|x: CriterionView| is_tag_criterion(x)).len();
    if tag_count == 0 {
        c.push(CriterionView::Tag(opts[0]))
    } else if tag_count == 1 {
        let k = first_tag_criterion(c);
        let cur = c[k]->Tag_0;
        let next = (option_pos(opts, cur) + 1) % (opts.len() as int);
        c.update(k, CriterionView::Tag(opts[next]))
    } else {
        c.filter(|x: CriterionView| !is_tag_criterion(x)).push(CriterionView::Tag(opts[0]))
    }
}

/// The state after cycling the tag filter: nothing happens when the entries have no tags.
pub open spec fn tags_cycled_spec(s: AppView) -> AppView {
    let tags = sorted_list(all_tags_set(s.entries));
    let opts = tag_options(tags);
    if tags.len() == 0 {
        s
    } else {
        let f = match s.filter {
            Some(fv) => FilterView { criteria: cycled_criteria(fv.criteria, opts), ..fv },
            None => FilterView {
                relation: CriteriaRelation::And,
                criteria: seq![CriterionView::Tag(opts[0])],
            },
        };
        refreshed(AppView { filter: Some(f), ..s })
    }
}

/// The state after the folder `old` was renamed to `new` in the store.
pub open spec fn folder_renamed_spec(s: AppView, old: Seq<char>, new: Seq<char>) -> AppView {
    refreshed(
        resorted(
            AppView {
                entries: s.entries.map_values(folder_renamed(old, new)),
                ..s
            },
        ),
    )
}

/// The state after the folder `path` was deleted in the store.
pub open spec fn folder_deleted_spec(s: AppView, path: Seq<char>) -> AppView {
    refreshed(
        filter_revised(
            AppView { entries: s.entries.filter(|e: EntryView| !in_folder_spec(e.folder, path)), ..s },
        ),
    )
}

/// The journal application: the data store, the entries loaded from it and the state of their
/// presentation.
pub struct App<D> {
    pub data_provide: D,
    pub entries: Vec<Entry>,
    pub current_entry_id: Option<u32>,
    /// Selected entries' IDs in multi-select mode
    pub selected_entries: HashSet<u32>,
    /// Inactive entries' IDs due to not meeting the filter criteria
    pub filtered_out_entries: HashSet<u32>,
    pub redraw_after_restore: bool,
    pub filter: Option<Filter>,
    pub state: AppState,
    /// Keeps history of the changes on entries, enabling undo & redo operations
    pub history: HistoryManager,
}


/// The number of tag criteria and the position of the first one.
fn count_tag_criteria(criteria: &Vec<FilterCriterion>) -> (r: (usize, usize))
    ensures
        r.0 == criteria_views(criteria@).filter(|x: CriterionView| is_tag_criterion(x)).len(),
        r.0 > 0 ==> is_first_tag_criterion(criteria_views(criteria@), r.1 as int),
{
    let ghost cv = criteria_views(criteria@);
    let ghost pred = |x: CriterionView| is_tag_criterion(x);
    let mut count: usize = 0;
    let mut first: usize = 0;
    let mut i: usize = 0;
    while i < criteria.len()
        invariant
            i <= criteria.len(),
            cv == criteria_views(criteria@),
            pred == (|x: CriterionView| is_tag_criterion(x)),
            count == cv.take(i as int).filter(pred).len(),
            count <= i,
            count > 0 ==> is_first_tag_criterion(cv, first as int) && first < i,
            count == 0 ==> forall|j: int| 0 <= j < i ==> !(cv[j] is Tag),
        decreases criteria.len() - i,
    {
        proof {
            reveal(Seq::filter);
            assert(cv.take(i + 1).drop_last() =~= cv.take(i as int));
        }
        let is_tag = match &criteria[i] {
            FilterCriterion::Tag(_) => true,
            _ => false,
        };
        assert(is_tag == (cv[i as int] is Tag));
        if is_tag {
            if count == 0 {
                first = i;
            }
            count = count + 1;
        }
        i = i + 1;
    }
    assert(cv.take(criteria.len() as int) =~= cv);
    (count, first)
}

/// The criteria that are not on tags.
fn non_tag_criteria(criteria: &Vec<FilterCriterion>) -> (r: Vec<FilterCriterion>)
    ensures
        criteria_views(r@) == criteria_views(criteria@).filter(
            |x: CriterionView| !is_tag_criterion(x),
        ),
{
    let ghost cv = criteria_views(criteria@);
    let ghost pred = |x: CriterionView| !is_tag_criterion(x);
    let mut r: Vec<FilterCriterion> = Vec::new();
    let mut i: usize = 0;
    while i < criteria.len()
        invariant
            i <= criteria.len(),
            cv == criteria_views(criteria@),
            pred == (|x: CriterionView| !is_tag_criterion(x)),
            criteria_views(r@) == cv.take(i as int).filter(pred),
        decreases criteria.len() - i,
    {
        proof {
            reveal(Seq::filter);
            assert(cv.take(i + 1).drop_last() =~= cv.take(i as int));
        }
        let keep = match &criteria[i] {
            FilterCriterion::Tag(_) => false,
            _ => true,
        };
        assert(keep == !(cv[i as int] is Tag));
        if keep {
            let ghost before = r@;
            r.push(criteria[i].duplicate());
            assert(criteria_views(r@) =~= criteria_views(before).push(cv[i as int]));
        }
        i = i + 1;
    }
    assert(cv.take(criteria.len() as int) =~= cv);
    r
}

/// The options are distinct, so an option's position is the one where it stands.
pub proof fn lemma_option_pos(tags: Seq<Seq<char>>, k: int)
    requires
        strictly_sorted(tags),
        0 <= k < tags.len() + 1,
    ensures
        option_pos(tag_options(tags), tag_options(tags)[k]) == k,
{
    let opts = tag_options(tags);
    let o = opts[k];
    assert(opts.len() == tags.len() + 1);
    assert(forall|x: int| 0 <= x < tags.len() ==> opts[x] == TagOptionView::Tag(tags[x]));
    assert(opts[tags.len() as int] == TagOptionView::NoTags);
    assert(0 <= k < opts.len() && opts[k] == o);
    assert(exists|x: int| 0 <= x < opts.len() && opts[x] == o);
    let c = option_pos(opts, o);
    assert(0 <= c < opts.len() && opts[c] == o);
    if c != k {
        if c < tags.len() && k < tags.len() {
            assert(tags[c] == tags[k]);
            if c < k {
                assert(crate::text::text_lt(tags[c], tags[k]));
            } else {
                assert(crate::text::text_lt(tags[k], tags[c]));
            }
            crate::text::lemma_text_lt_irreflexive(tags[k]);
            assert(false);
        } else if c < tags.len() {
            assert(false);
        } else {
            assert(false);
        }
    }
}

/// The option that follows `cur` among the tag options of `tags` (after "no tags" comes the
/// first tag; an option that is not there counts as the first).
fn next_tag_option(tags: &Vec<String>, cur: &TagFilterOption) -> (r: TagFilterOption)
    requires
        strictly_sorted(views(tags@)),
        tags.len() > 0,
    ensures
        ({
            let opts = tag_options(views(tags@));
            r@ == opts[(option_pos(opts, cur@) + 1) % (opts.len() as int)]
        }),
{
    let ghost opts = tag_options(views(tags@));
    let n = tags.len();
    let pos: usize = match cur {
        TagFilterOption::Tag(t) => {
            let mut i: usize = 0;
            let mut found: usize = 0;
            while i < n
                invariant
                    n == tags.len(),
                    i <= n,
                    forall|j: int| 0 <= j < i ==> tags@[j]@ != t@,
                ensures
                    i <= n,
                    forall|j: int| 0 <= j < i ==> tags@[j]@ != t@,
                    i < n ==> tags@[i as int]@ == t@,
                decreases n - i,
            {
                if crate::text::same_text(tags[i].as_str(), t.as_str()) {
                    break;
                }
                i = i + 1;
            }
            proof {
                if i < n {
                    assert(opts[i as int] == TagOptionView::Tag(t@));
                    lemma_option_pos(views(tags@), i as int);
                } else {
                    assert forall|k: int| 0 <= k < opts.len() implies opts[k] != cur@ by {
                        if k < n {
                            assert(opts[k] == TagOptionView::Tag(tags@[k]@));
                        }
                    }
                }
            }
            if i < n {
                i
            } else {
                found
            }
        },
        TagFilterOption::NoTags => {
            proof {
                assert(opts[n as int] == TagOptionView::NoTags);
                lemma_option_pos(views(tags@), n as int);
            }
            n
        },
    };
    assert(pos == option_pos(opts, cur@));
    let next: usize = if pos < n {
        proof {
            vstd::arithmetic::div_mod::lemma_small_mod((pos + 1) as nat, (n + 1) as nat);
        }
        pos + 1
    } else {
        proof {
            vstd::arithmetic::div_mod::lemma_mod_self_0((n + 1) as int);
        }
        0
    };
    assert(next == (option_pos(opts, cur@) + 1) % (opts.len() as int));
    if next < n {
        assert(opts[next as int] == TagOptionView::Tag(tags@[next as int]@));
        TagFilterOption::Tag(tags[next].clone())
    } else {
        TagFilterOption::NoTags
    }
}

impl<D> View for App<D> {
    type V = AppView;

    open spec fn view(&self) -> AppView {
        AppView {
            entries: entry_views(self.entries@),
            current_entry_id: self.current_entry_id,
            selected: self.selected_entries@,
            filtered_out: self.filtered_out_entries@,
            filter: filter_view(self.filter),
            sorter: self.state.sorter@,
            history: self.history@,
        }
    }
}

/// Whether `entry` does not pass `filter`.
fn rejected_by(filter: &Filter, entry: &Entry) -> (b: bool)
    ensures
        b == !filter_holds(filter@, entry@),
{
    !filter.check_entry(entry)
}

/// The ids of the entries that do not pass `filter`, checked in parallel through rayon's
/// `par_iter`, `filter`, `map` and `collect` into a `HashSet`. The contract claims that the
/// parallel pipeline keeps exactly the ids of the entries that the verified `rejected_by`
/// rejects, as a sequential filter would; the order in which rayon visits them does not
/// matter for a set.
#[verifier::external_body]
fn collect_failing_ids(entries: &Vec<Entry>, filter: &Filter) -> (r: HashSet<u32>)
    ensures
        r@ == failing_ids(entry_views(entries@), filter@),
{
    entries.par_iter().filter(|entry| rejected_by(filter, entry)).map(|entry| entry.id).collect()
}

impl<D> App<D> {
    /// The history's stacks hold at most its limit.
    pub closed spec fn wf(&self) -> bool {
        self.history.wf()
    }

    /// An application over the store `data_provide` with no entries loaded yet, keeping at
    /// most `history_limit` changes to undo and as many to redo.
    pub fn new(data_provide: D, history_limit: usize) -> (app: Self)
        ensures
            app.wf(),
            app.data_provide == data_provide,
            app.entries@.len() == 0,
            app.current_entry_id is None,
            app.selected_entries@ == Set::<u32>::empty(),
            app.filtered_out_entries@ == Set::<u32>::empty(),
            !app.redraw_after_restore,
            app.filter is None,
            app.state.sorter@.criteria == seq![SortCriteria::Date, SortCriteria::Priority, SortCriteria::Title],
            app.state.sorter@.order == SortOrder::Descending,
            !app.state.folder_nav_mode,
            !app.state.full_screen,
            app.history@.undo.len() == 0,
            app.history@.redo.len() == 0,
            app.history@.limit == history_limit,
    {
        App {
            data_provide,
            entries: Vec::new(),
            current_entry_id: None,
            selected_entries: HashSet::new(),
            filtered_out_entries: HashSet::new(),
            redraw_after_restore: false,
            filter: None,
            state: AppState::default(),
            history: HistoryManager::new(history_limit),
        }
    }

    /// The entries that the filter does not hide, in their order.
    pub fn get_active_entries(&self) -> (r: Vec<&Entry>)
        ensures
            ref_views(r@) == active_spec(entry_views(self.entries@), self.filtered_out_entries@),
    {
        let ghost out = self.filtered_out_entries@;
        let ghost pred = |e: EntryView| !out.contains(e.id);
        let mut r: Vec<&Entry> = Vec::new();
        let mut i: usize = 0;
        while i < self.entries.len()
            invariant
                i <= self.entries.len(),
                out == self.filtered_out_entries@,
                pred == (|e: EntryView| !out.contains(e.id)),
                ref_views(r@) == entry_views(self.entries@).take(i as int).filter(pred),
            decreases self.entries.len() - i,
        {
            proof {
                reveal(Seq::filter);
                assert(entry_views(self.entries@).take(i + 1).drop_last() =~= entry_views(
                    self.entries@,
                ).take(i as int));
            }
            let e = &self.entries[i];
            if !self.filtered_out_entries.contains(&e.id) {
                let ghost before = r@;
                r.push(e);
                assert(ref_views(r@) =~= ref_views(before).push(e@));
            }
            i = i + 1;
        }
        assert(entry_views(self.entries@).take(self.entries.len() as int) =~= entry_views(
            self.entries@,
        ));
        r
    }

    /// The first active entry with the id `entry_id`.
    pub fn get_entry(&self, entry_id: u32) -> (r: Option<&Entry>)
        ensures
            ({
                let act = active_spec(entry_views(self.entries@), self.filtered_out_entries@);
                &&& r is None <==> !has_id(act, entry_id)
                &&& r matches Some(e) ==> e@ == act[first_pos(act, entry_id)]
            }),
    {
        let active = self.get_active_entries();
        let mut i: usize = 0;
        while i < active.len()
            invariant
                i <= active.len(),
                ref_views(active@) == active_spec(entry_views(self.entries@), self.filtered_out_entries@),
                forall|k: int| 0 <= k < i ==> ref_views(active@)[k].id != entry_id,
            decreases active.len() - i,
        {
            if active[i].id == entry_id {
                proof {
                    let act = ref_views(active@);
                    assert(act[i as int] == active@[i as int]@);
                    crate::entry::lemma_first_pos(act, entry_id, i as int);
                    assert(has_id(act, entry_id));
                    assert(act == active_spec(entry_views(self.entries@), self.filtered_out_entries@));
                    assert(active[i as int]@ == act[first_pos(act, entry_id)]);
                }
                return Some(active[i]);
            }
            i = i + 1;
        }
        proof {
            let act = ref_views(active@);
            if has_id(act, entry_id) {
                let j = choose|j: int| 0 <= j < act.len() && act[j].id == entry_id;
                assert(act[j].id != entry_id);
            }
        }
        None
    }

    /// The active entry that is selected now.
    pub fn get_current_entry(&self) -> (r: Option<&Entry>)
        ensures
            ({
                let act = active_spec(entry_views(self.entries@), self.filtered_out_entries@);
                match self.current_entry_id {
                    None => r is None,
                    Some(id) => {
                        &&& r is None <==> !has_id(act, id)
                        &&& r matches Some(e) ==> e@ == act[first_pos(act, id)]
                    },
                }
            }),
    {
        match self.current_entry_id {
            Some(id) => self.get_entry(id),
            None => None,
        }
    }

    /// Every tag of the entries, once each, in increasing order.
    pub fn get_all_tags(&self) -> (tags: Vec<String>)
        ensures
            strictly_sorted(views(tags@)),
            views(tags@).to_set() == all_tags_set(entry_views(self.entries@)),
            views(tags@) == sorted_list(all_tags_set(entry_views(self.entries@))),
    {
        let ghost ev = entry_views(self.entries@);
        let mut tags: Vec<String> = Vec::new();
        let mut i: usize = 0;
        assert(views(tags@).to_set() =~= Set::<Seq<char>>::empty());
        while i < self.entries.len()
            invariant
                i <= self.entries.len(),
                ev == entry_views(self.entries@),
                strictly_sorted(views(tags@)),
                views(tags@).to_set() == Set::new(
                    |t: Seq<char>| exists|k: int| 0 <= k < i && ev[k].tags.contains(t),
                ),
            decreases self.entries.len() - i,
        {
            let entry = &self.entries[i];
            let mut j: usize = 0;
            while j < entry.tags.len()
                invariant
                    i < self.entries.len(),
                    entry == &self.entries@[i as int],
                    ev == entry_views(self.entries@),
                    j <= entry.tags.len(),
                    strictly_sorted(views(tags@)),
                    views(tags@).to_set() == Set::new(
                        |t: Seq<char>|
                            (exists|k: int| 0 <= k < i && ev[k].tags.contains(t)) || exists|x: int|
                                0 <= x < j && views(entry.tags@)[x] == t,
                    ),
                decreases entry.tags.len() - j,
            {
                let ghost before = views(tags@).to_set();
                insert_sorted(&mut tags, &entry.tags[j]);
                assert(views(tags@).to_set() =~= Set::new(
                    |t: Seq<char>|
                        (exists|k: int| 0 <= k < i && ev[k].tags.contains(t)) || exists|x: int|
                            0 <= x < j + 1 && views(entry.tags@)[x] == t,
                )) by {
                    assert(views(entry.tags@)[j as int] == entry.tags@[j as int]@);
                }
                j = j + 1;
            }
            assert(views(tags@).to_set() =~= Set::new(
                |t: Seq<char>| exists|k: int| 0 <= k < i + 1 && ev[k].tags.contains(t),
            )) by {
                assert(ev[i as int].tags == views(entry.tags@));
                assert forall|t: Seq<char>|
                    (exists|x: int| 0 <= x < entry.tags.len() && views(entry.tags@)[x] == t)
                        <==> ev[i as int].tags.contains(t) by {}
            }
            i = i + 1;
        }
        assert(views(tags@).to_set() =~= all_tags_set(ev));
        proof {
            lemma_sorted_list(views(tags@), all_tags_set(ev));
        }
        tags
    }

    /// Every folder of the entries but the root, once each, in increasing order.
    pub fn get_all_folders(&self) -> (folders: Vec<String>)
        ensures
            strictly_sorted(views(folders@)),
            views(folders@).to_set() == all_folders_set(entry_views(self.entries@)),
            views(folders@) == sorted_list(all_folders_set(entry_views(self.entries@))),
    {
        let ghost ev = entry_views(self.entries@);
        let mut folders: Vec<String> = Vec::new();
        let mut i: usize = 0;
        assert(views(folders@).to_set() =~= Set::<Seq<char>>::empty());
        while i < self.entries.len()
            invariant
                i <= self.entries.len(),
                ev == entry_views(self.entries@),
                strictly_sorted(views(folders@)),
                views(folders@).to_set() == Set::new(
                    |f: Seq<char>| f.len() > 0 && exists|k: int| 0 <= k < i && ev[k].folder == f,
                ),
            decreases self.entries.len() - i,
        {
            let folder = &self.entries[i].folder;
            assert(ev[i as int].folder == folder@);
            let ghost before = views(folders@).to_set();
            if !folder.as_str().is_empty() {
                insert_sorted(&mut folders, folder);
                assert(views(folders@).to_set() == before.insert(folder@));
            } else {
                assert(views(folders@).to_set() == before);
            }
            assert(views(folders@).to_set() =~= Set::new(
                |f: Seq<char>| f.len() > 0 && exists|k: int| 0 <= k < i + 1 && ev[k].folder == f,
            ));
            i = i + 1;
        }
        assert(views(folders@).to_set() =~= all_folders_set(ev));
        proof {
            lemma_sorted_list(views(folders@), all_folders_set(ev));
        }
        folders
    }

    /// Recomputes the ids of the entries that the filter hides.
    fn update_filtered_out_entries(&mut self)
        ensures
            final(self).filtered_out_entries@ == filtered_out_spec(
                entry_views(final(self).entries@),
                filter_view(final(self).filter),
            ),
            final(self).entries == old(self).entries,
            final(self).filter == old(self).filter,
            final(self).data_provide == old(self).data_provide,
            final(self).current_entry_id == old(self).current_entry_id,
            final(self).selected_entries == old(self).selected_entries,
            final(self).redraw_after_restore == old(self).redraw_after_restore,
            final(self).state == old(self).state,
            final(self).history == old(self).history,
    {
        match &self.filter {
            Some(filter) => {
                self.filtered_out_entries = collect_failing_ids(&self.entries, filter);
            },
            None => {
                self.filtered_out_entries.clear();
            },
        }
    }

    /// The parts of the application that no operation on entries touches.
    pub open spec fn keeps_rest(&self, other: &Self) -> bool {
        &&& self.data_provide == other.data_provide
        &&& self.redraw_after_restore == other.redraw_after_restore
        &&& self.state.folder_nav_mode == other.state.folder_nav_mode
        &&& self.state.full_screen == other.state.full_screen
    }

    /// Sorts the entries by the sorter of the state.
    fn sort_entries(&mut self)
        requires
            old(self).wf(),
        ensures
            final(self).wf(),
            final(self)@ == resorted(old(self)@),
            final(self).keeps_rest(old(self)),
            final(self).filter == old(self).filter,
    {
        self.state.sorter.sort_entries(&mut self.entries);
    }

    /// Drops the filter criteria that no longer make sense with the entries' tags, and the
    /// filter when no criterion is left.
    fn update_filter(&mut self)
        requires
            old(self).wf(),
        ensures
            final(self).wf(),
            final(self)@ == filter_revised(old(self)@),
            final(self).keeps_rest(old(self)),
    {
        if self.filter.is_none() {
            return;
        }
        let all_tags = self.get_all_tags();
        let ghost tag_set = all_tags_set(entry_views(self.entries@));
        let f = self.filter.take().unwrap();
        let ghost pred = |c: CriterionView| criterion_still_valid(c, tag_set);
        let ghost cv = criteria_views(f.criteria@);
        let mut kept: Vec<crate::filter::FilterCriterion> = Vec::new();
        let mut i: usize = 0;
        while i < f.criteria.len()
            invariant
                i <= f.criteria.len(),
                cv == criteria_views(f.criteria@),
                pred == (|c: CriterionView| criterion_still_valid(c, tag_set)),
                views(all_tags@).to_set() == tag_set,
                criteria_views(kept@) == cv.take(i as int).filter(pred),
            decreases f.criteria.len() - i,
        {
            proof {
                reveal(Seq::filter);
                assert(cv.take(i + 1).drop_last() =~= cv.take(i as int));
            }
            let c = &f.criteria[i];
            let keep = match c {
                crate::filter::FilterCriterion::Tag(crate::filter::TagFilterOption::Tag(tag)) => {
                    crate::filter::has_tag(&all_tags, tag)
                },
                crate::filter::FilterCriterion::Tag(crate::filter::TagFilterOption::NoTags) => {
                    proof {
                        if all_tags.len() > 0 {
                            assert(views(all_tags@).to_set().contains(views(all_tags@)[0]));
                        } else {
                            assert forall|t: Seq<char>| !tag_set.contains(t) by {
                                if tag_set.contains(t) {
                                    assert(views(all_tags@).to_set().contains(t));
                                }
                            }
                        }
                    }
                    all_tags.len() > 0
                },
                _ => true,
            };
            assert(keep == criterion_still_valid(cv[i as int], tag_set));
            if keep {
                let ghost before = kept@;
                kept.push(c.duplicate());
                assert(criteria_views(kept@) =~= criteria_views(before).push(cv[i as int]));
            }
            i = i + 1;
        }
        assert(cv.take(f.criteria.len() as int) =~= cv);
        if kept.len() == 0 {
            self.filter = None;
        } else {
            self.filter = Some(Filter { relation: f.relation, criteria: kept });
        }
    }

    /// Replaces the filter and recomputes the hidden entries.
    pub fn apply_filter(&mut self, filter: Option<Filter>)
        requires
            old(self).wf(),
        ensures
            final(self).wf(),
            final(self)@ == refreshed(AppView { filter: filter_view(filter), ..old(self)@ }),
            final(self).keeps_rest(old(self)),
    {
        self.filter = filter;
        self.update_filtered_out_entries();
    }

    /// Sorts the entries by `criteria` in the order `order`.
    pub fn apply_sort(&mut self, criteria: Vec<SortCriteria>, order: SortOrder)
        requires
            old(self).wf(),
        ensures
            final(self).wf(),
            final(self)@ == resorted(
                AppView { sorter: SorterView { criteria: criteria@, order }, ..old(self)@ },
            ),
            final(self).keeps_rest(old(self)),
    {
        self.state.sorter.set_criteria(criteria);
        self.state.sorter.order = order;
        self.sort_entries();
    }

    /// Takes in the entries loaded from the store: they replace the current ones, get sorted
    /// and filtered.
    pub fn set_loaded_entries(&mut self, entries: Vec<Entry>)
        requires
            old(self).wf(),
        ensures
            final(self).wf(),
            final(self)@ == loaded_spec(old(self)@, entry_views(entries@)),
            final(self).keeps_rest(old(self)),
    {
        self.entries = entries;
        self.sort_entries();
        self.update_filtered_out_entries();
    }

    /// Takes in the entry that the store created: records the addition on the stack
    /// `history_target`, adds the entry, sorts and filters; the entry's id.
    pub fn register_added_entry(&mut self, entry: Entry, history_target: HistoryStack) -> (id: u32)
        requires
            old(self).wf(),
        ensures
            final(self).wf(),
            id == entry.id,
            final(self)@ == added_spec(old(self)@, entry@, history_target),
            final(self).keeps_rest(old(self)),
    {
        let id = entry.id;
        self.history.register_add(history_target, &entry);
        let ghost e = entry@;
        self.entries.push(entry);
        assert(entry_views(self.entries@) =~= entry_views(old(self).entries@).push(e));
        self.sort_entries();
        self.update_filtered_out_entries();
        id
    }

    /// Sets the attributes of the entry with the id `entry_id`, recording its former attributes
    /// on `history_target`; the changed entry, for the store to save. Once the store has saved
    /// it, `finish_attributes_update` sorts and filters.
    pub fn begin_attributes_update(
        &mut self,
        entry_id: u32,
        title: String,
        date: crate::entry::Timestamp,
        tags: Vec<String>,
        priority: Option<u32>,
        folder: String,
        history_target: HistoryStack,
    ) -> (changed: Entry)
        requires
            old(self).wf(),
            old(self).current_entry_id is Some,
            has_id(old(self)@.entries, entry_id),
        ensures
            final(self).wf(),
            final(self)@ == attributes_set_spec(
                old(self)@,
                AttributesView {
                    id: entry_id,
                    title: title@,
                    date,
                    tags: views(tags@),
                    priority,
                    folder: folder@,
                },
                history_target,
            ),
            changed@ == final(self)@.entries[first_pos(old(self)@.entries, entry_id)],
            final(self).keeps_rest(old(self)),
            final(self).filter == old(self).filter,
    {
        let pos = position_of_id(&self.entries, entry_id).unwrap();
        self.history.register_change_attributes(history_target, &self.entries[pos]);
        let mut e = self.entries[pos].clone();
        e.title = title;
        e.date = date;
        e.tags = tags;
        e.priority = priority;
        e.folder = folder;
        let changed = e.clone();
        let ghost ev = e@;
        self.entries.set(pos, e);
        assert(entry_views(self.entries@) =~= entry_views(old(self).entries@).update(pos as int, ev));
        changed
    }

    /// After the store saved changed attributes: sorts, revises the filter and filters.
    pub fn finish_attributes_update(&mut self)
        requires
            old(self).wf(),
        ensures
            final(self).wf(),
            final(self)@ == attributes_stored_spec(old(self)@),
            final(self).keeps_rest(old(self)),
    {
        self.sort_entries();
        self.update_filter();
        self.update_filtered_out_entries();
    }

    /// Sets the content of the entry with the id `entry_id`, recording its former content on
    /// `history_target`; the changed entry, for the store to save. Once the store has saved it,
    /// `finish_content_update` filters.
    pub fn begin_content_update(
        &mut self,
        entry_id: u32,
        entry_content: String,
        history_target: HistoryStack,
    ) -> (changed: Entry)
        requires
            old(self).wf(),
            has_id(old(self)@.entries, entry_id),
        ensures
            final(self).wf(),
            final(self)@ == content_set_spec(old(self)@, entry_id, entry_content@, history_target),
            changed@ == final(self)@.entries[first_pos(old(self)@.entries, entry_id)],
            final(self).keeps_rest(old(self)),
            final(self).filter == old(self).filter,
    {
        let pos = position_of_id(&self.entries, entry_id).unwrap();
        self.history.register_change_content(history_target, &self.entries[pos]);
        let mut e = self.entries[pos].clone();
        e.content = entry_content;
        let changed = e.clone();
        let ghost ev = e@;
        self.entries.set(pos, e);
        assert(entry_views(self.entries@) =~= entry_views(old(self).entries@).update(pos as int, ev));
        changed
    }

    /// After the store saved a changed content: filters.
    pub fn finish_content_update(&mut self)
        requires
            old(self).wf(),
        ensures
            final(self).wf(),
            final(self)@ == refreshed(old(self)@),
            final(self).keeps_rest(old(self)),
    {
        self.update_filtered_out_entries();
    }

    /// After the store removed the entry with the id `entry_id`: removes it, recording it on
    /// `history_target`, revises the filter and filters.
    pub fn remove_entry_local(&mut self, entry_id: u32, history_target: HistoryStack)
        requires
            old(self).wf(),
            has_id(old(self)@.entries, entry_id),
        ensures
            final(self).wf(),
            final(self)@ == removed_spec(old(self)@, entry_id, history_target),
            final(self).keeps_rest(old(self)),
    {
        let pos = position_of_id(&self.entries, entry_id).unwrap();
        let removed = self.entries.remove(pos);
        assert(entry_views(self.entries@) =~= entry_views(old(self).entries@).remove(pos as int));
        self.history.register_remove(history_target, removed);
        self.update_filter();
        self.update_filtered_out_entries();
    }

    /// Takes the latest change to undo, if any.
    pub fn pop_undo(&mut self) -> (c: Option<Change>)
        requires
            old(self).wf(),
        ensures
            final(self).wf(),
            final(self).keeps_rest(old(self)),
            old(self)@.history.undo.len() == 0 ==> c is None && final(self)@ == old(self)@,
            old(self)@.history.undo.len() > 0 ==> (c matches Some(ch) && ch@
                == old(self)@.history.undo.last() && final(self)@ == undo_popped(old(self)@)),
    {
        self.history.pop_undo()
    }

    /// Takes the latest change to redo, if any.
    pub fn pop_redo(&mut self) -> (c: Option<Change>)
        requires
            old(self).wf(),
        ensures
            final(self).wf(),
            final(self).keeps_rest(old(self)),
            old(self)@.history.redo.len() == 0 ==> c is None && final(self)@ == old(self)@,
            old(self)@.history.redo.len() > 0 ==> (c matches Some(ch) && ch@
                == old(self)@.history.redo.last() && final(self)@ == redo_popped(old(self)@)),
    {
        self.history.pop_redo()
    }

    /// Takes the latest change to undo, if any, and gives the action that reverts it. The
    /// caller carries it out with the store, recording it on the redo stack.
    pub fn undo_step(&mut self) -> (a: Option<HistoryAction>)
        requires
            old(self).wf(),
        ensures
            final(self).wf(),
            final(self).keeps_rest(old(self)),
            old(self)@.history.undo.len() == 0 ==> a is None && final(self)@ == old(self)@,
            old(self)@.history.undo.len() > 0 ==> (a matches Some(x) && x@ == history_action_spec(
                old(self)@.history.undo.last(),
            ) && final(self)@ == undo_popped(old(self)@)),
    {
        match self.pop_undo() {
            Some(change) => Some(change.into_action()),
            None => None,
        }
    }

    /// Takes the latest change to redo, if any, and gives the action that reverts it. The
    /// caller carries it out with the store, recording it on the undo stack.
    pub fn redo_step(&mut self) -> (a: Option<HistoryAction>)
        requires
            old(self).wf(),
        ensures
            final(self).wf(),
            final(self).keeps_rest(old(self)),
            old(self)@.history.redo.len() == 0 ==> a is None && final(self)@ == old(self)@,
            old(self)@.history.redo.len() > 0 ==> (a matches Some(x) && x@ == history_action_spec(
                old(self)@.history.redo.last(),
            ) && final(self)@ == redo_popped(old(self)@)),
    {
        match self.pop_redo() {
            Some(change) => Some(change.into_action()),
            None => None,
        }
    }

    /// Cycles the tag filter through the tags of the entries and "no tags": without a filter
    /// one on the first tag is applied; see `cycled_criteria` for a filter in place.
    pub fn cycle_tags_in_filter(&mut self)
        requires
            old(self).wf(),
        ensures
            final(self).wf(),
            final(self)@ == tags_cycled_spec(old(self)@),
            final(self).keeps_rest(old(self)),
    {
        let all_tags = self.get_all_tags();
        if all_tags.len() == 0 {
            return;
        }
        let ghost opts = tag_options(views(all_tags@));
        assert(opts[0] == TagOptionView::Tag(all_tags@[0]@));
        let first = FilterCriterion::Tag(TagFilterOption::Tag(all_tags[0].clone()));
        let ghost old_filter = self.filter;
        match self.filter.take() {
            None => {
                let mut f = Filter::default();
                f.criteria.push(first);
                assert(f@.criteria =~= seq![CriterionView::Tag(opts[0])]);
                self.apply_filter(Some(f));
            },
            Some(f) => {
                let ghost cv = f@.criteria;
                let (count, k) = count_tag_criteria(&f.criteria);
                let mut g = f;
                if count == 0 {
                    g.criteria.push(first);
                    assert(g@.criteria =~= cv.push(CriterionView::Tag(opts[0])));
                } else if count == 1 {
                    proof {
                        assert(is_first_tag_criterion(cv, k as int));
                        let k2 = first_tag_criterion(cv);
                        assert(is_first_tag_criterion(cv, k2));
                        if k2 < k {
                            assert(!(cv[k2] is Tag));
                        } else if k < k2 {
                            assert(!(cv[k as int] is Tag));
                        }
                    }
                    let next = match &g.criteria[k] {
                        FilterCriterion::Tag(cur) => next_tag_option(&all_tags, cur),
                        _ => TagFilterOption::NoTags,
                    };
                    let ghost nv = next@;
                    g.criteria.set(k, FilterCriterion::Tag(next));
                    assert(g@.criteria =~= cv.update(k as int, CriterionView::Tag(nv)));
                } else {
                    let mut kept = non_tag_criteria(&g.criteria);
                    let ghost kv = criteria_views(kept@);
                    kept.push(first);
                    assert(criteria_views(kept@) =~= kv.push(CriterionView::Tag(opts[0])));
                    g.criteria = kept;
                }
                self.apply_filter(Some(g));
            },
        }
    }

    /// After the store renamed the folder `old_path` to `new_path`: renames it in the entries
    /// of it and of its sub-folders, sorts and filters.
    pub fn apply_folder_rename(&mut self, old_path: &str, new_path: &str)
        requires
            old(self).wf(),
        ensures
            final(self).wf(),
            final(self)@ == folder_renamed_spec(old(self)@, old_path@, new_path@),
            final(self).keeps_rest(old(self)),
    {
        rename_folder_in(&mut self.entries, old_path, new_path);
        self.sort_entries();
        self.update_filtered_out_entries();
    }

    /// After the store deleted the folder `path`: removes the entries of it and of its
    /// sub-folders, revises the filter and filters.
    pub fn apply_folder_delete(&mut self, path: &str)
        requires
            old(self).wf(),
        ensures
            final(self).wf(),
            final(self)@ == folder_deleted_spec(old(self)@, path@),
            final(self).keeps_rest(old(self)),
    {
        delete_folder_in(&mut self.entries, path);
        self.update_filter();
        self.update_filtered_out_entries();
    }

    /// The active entries that are in exactly the folder with the segments `path` (the root
    /// for no segment).
    pub fn get_entries_in_folder(&self, path: &Vec<String>) -> (r: Vec<&Entry>)
        ensures
            ref_views(r@) == active_spec(entry_views(self.entries@), self.filtered_out_entries@).filter(
                folder_is(join_spec(views(path@), seq!['/'])),
            ),
    {
        let sep = "/";
        proof {
            reveal_strlit("/");
            assert(sep@ =~= seq!['/']);
        }
        let expected = join(path, sep);
        let active = self.get_active_entries();
        let ghost act = ref_views(active@);
        let ghost pred = folder_is(expected@);
        let mut r: Vec<&Entry> = Vec::new();
        let mut i: usize = 0;
        while i < active.len()
            invariant
                i <= active.len(),
                act == ref_views(active@),
                pred == folder_is(expected@),
                ref_views(r@) == act.take(i as int).filter(pred),
            decreases active.len() - i,
        {
            proof {
                reveal(Seq::filter);
                assert(act.take(i + 1).drop_last() =~= act.take(i as int));
            }
            let e = active[i];
            if crate::text::same_text(e.folder.as_str(), expected.as_str()) {
                let ghost before = r@;
                r.push(e);
                assert(ref_views(r@) =~= ref_views(before).push(e@));
            }
            i = i + 1;
        }
        assert(act.take(active.len() as int) =~= act);
        r
    }

    /// The folder tree of the active entries.
    pub fn get_tag_tree(&self) -> (t: TagTree)
        ensures
            tree_of(t, entry_items(active_spec(entry_views(self.entries@), self.filtered_out_entries@))),
    {
        let active = self.get_active_entries();
        TagTree::build(&active)
    }
}

} // verus!
