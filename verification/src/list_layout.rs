//! The layout of an entry in the flat list: its title wrapped to the list's width (marked when
//! it is selected in multi-select mode), its tags laid out on lines, and whether the list
//! needs a scrollbar.
use vstd::prelude::*;

use crate::app::{active_spec, ref_views, App};
use crate::entries_list::{
    date_priority_lines, date_priority_lines_spec, folder_date_priority_lines,
    folder_date_priority_lines_spec, DatumVisibility, EntriesList, LIST_INNER_MARGIN,
};
use crate::entry::{entry_views, Entry, EntryView};
use crate::entry_fields::{append_decimal, decimal_spec};
use crate::text::views;

verus! {

broadcast use vstd::std_specs::hash::group_hash_axioms;

/// What `textwrap::wrap` makes of `text` at the width `width`: its lines, in order.
pub uninterp spec fn wrapped_lines(text: Seq<char>, width: usize) -> Seq<Seq<char>>;

/// Wraps `text` to lines of at most `width` columns with `textwrap::wrap`. The contract names
/// the result; where textwrap breaks the lines is not restated here.
#[verifier::external_body]
fn wrap_text(text: &str, width: usize) -> (r: Vec<String>)
    ensures
        views(r@) == wrapped_lines(text@, width),
{
    textwrap::wrap(text, width).into_iter().map(|line| line.into_owned()).collect()
}

/// What ratatui's `Span::width` gives for a span holding `text`: the columns it takes on the
/// terminal.
pub uninterp spec fn span_width(text: Seq<char>) -> usize;

/// The columns that a span holding `text` takes, as ratatui's `Span::width` measures them.
/// The contract names the result; the width of each character is not restated here.
#[verifier::external_body]
fn span_display_width(text: &str) -> (r: usize)
    ensures
        r == span_width(text@),
{
    ratatui::text::Span::raw(text).width()
}

/// The text put between two tags on a line.
pub open spec fn tags_separator() -> Seq<char> {
    seq![' ', '|', ' ']
}

/// The title as the list shows it: marked with `* ` in front when it is selected.
pub open spec fn marked_title(title: Seq<char>, marked: bool) -> Seq<char> {
    if marked {
        seq!['*', ' '] + title
    } else {
        title
    }
}

/// The columns that the list leaves for text in an area `width` columns wide.
pub open spec fn text_width(width: usize) -> int {
    if width >= LIST_INNER_MARGIN {
        width - LIST_INNER_MARGIN
    } else {
        0
    }
}

/// The width of a line of spans: the sum of the spans' widths.
pub open spec fn line_width(line: Seq<Seq<char>>) -> int
    decreases line.len(),
{
    if line.len() == 0 {
        0
    } else {
        line_width(line.drop_last()) + span_width(line.last())
    }
}

/// The lines `ls` with `s` added to the end of the last one.
pub open spec fn push_on_last(ls: Seq<Seq<Seq<char>>>, s: Seq<char>) -> Seq<Seq<Seq<char>>> {
    ls.update(ls.len() - 1, ls.last().push(s))
}

/// The length in bytes of `t` in UTF-8, as `str::len` gives it.
pub open spec fn byte_len(t: Seq<char>) -> usize {
    vstd::utf8::encode_utf8(t).len() as usize
}

/// The lines `ls` with the tag `t` added where the width `allowed` leaves room: after a
/// separator when the last line holds something (the separator starting a new line when it
/// does not fit), then on the last line when the tag's bytes fit strictly, else on a new line.
pub open spec fn tag_added(ls: Seq<Seq<Seq<char>>>, t: Seq<char>, allowed: int) -> Seq<
    Seq<Seq<char>>,
> {
    let with_sep = if ls.last().len() > 0 {
        let ls0 = if line_width(ls.last()) + 3 > allowed {
            ls.push(Seq::empty())
        } else {
            ls
        };
        push_on_last(ls0, tags_separator())
    } else {
        ls
    };
    if line_width(with_sep.last()) + byte_len(t) < allowed {
        push_on_last(with_sep, t)
    } else {
        with_sep.push(seq![t])
    }
}

/// The lines of the tags `tags` laid out within the width `allowed`, starting from one empty
/// line.
pub open spec fn tag_lines_from(tags: Seq<Seq<char>>, allowed: int) -> Seq<Seq<Seq<char>>>
    decreases tags.len(),
{
    if tags.len() == 0 {
        seq![Seq::empty()]
    } else {
        tag_added(tag_lines_from(tags.drop_last(), allowed), tags.last(), allowed)
    }
}

/// The tag lines of an entry with the tags `tags` in a list `width` columns wide: none
/// without tags.
pub open spec fn tag_lines_spec(tags: Seq<Seq<char>>, width: usize) -> Seq<Seq<Seq<char>>> {
    if tags.len() == 0 {
        Seq::empty()
    } else {
        tag_lines_from(tags, text_width(width))
    }
}

/// The views of lines of spans.
pub open spec fn line_views(v: Seq<Vec<String>>) -> Seq<Seq<Seq<char>>> {
    v.map_values(|l: Vec<String>| views(l@))
}

/// `x`, or `usize::MAX` when `x` does not fit in a `usize`.
pub open spec fn capped(x: int) -> int {
    if x > usize::MAX {
        usize::MAX as int
    } else {
        x
    }
}

/// The tags of an entry laid out on lines within a list `width` columns wide, each line a
/// sequence of spans (tags and the separators between them); none when there are no tags.
/// Their number is the number of lines the tags take.
pub fn tag_lines(tags: &Vec<String>, width: usize) -> (r: Vec<Vec<String>>)
    ensures
        line_views(r@) == tag_lines_spec(views(tags@), width),
{
    let mut lines: Vec<Vec<String>> = Vec::new();
    if tags.len() == 0 {
        assert(line_views(lines@) =~= tag_lines_spec(views(tags@), width));
        return lines;
    }
    let allowed = width.saturating_sub(LIST_INNER_MARGIN);
    assert(allowed == text_width(width));
    let ghost tv = views(tags@);
    let sep = " | ";
    proof {
        reveal_strlit(" | ");
        assert(sep@ =~= tags_separator());
    }
    let mut last: Vec<String> = Vec::new();
    let mut last_w: usize = 0;
    let mut i: usize = 0;
    assert(tv.take(0) =~= Seq::<Seq<char>>::empty());
    assert(views(last@) =~= Seq::<Seq<char>>::empty());
    assert(line_views(lines@) =~= Seq::<Seq<Seq<char>>>::empty());
    assert(line_views(lines@).push(views(last@)) =~= tag_lines_from(tv.take(0), allowed as int));
    while i < tags.len()
        invariant
            i <= tags.len(),
            tv == views(tags@),
            allowed == text_width(width),
            sep@ == tags_separator(),
            line_views(lines@).push(views(last@)) == tag_lines_from(tv.take(i as int), allowed as int),
            last_w as int == capped(line_width(views(last@))),
        decreases tags.len() - i,
    {
        let ghost before = line_views(lines@).push(views(last@));
        assert(tv.take(i + 1).drop_last() =~= tv.take(i as int));
        assert(tv.take(i + 1).last() == tv[i as int]);
        assert(tag_lines_from(tv.take(i + 1), allowed as int) == tag_added(
            tag_lines_from(tv.take(i as int), allowed as int),
            tv[i as int],
            allowed as int,
        ));
        assert(before.last() == views(last@));
        let ghost with_sep = if before.last().len() > 0 {
            let ls0 = if line_width(before.last()) + 3 > allowed {
                before.push(Seq::empty())
            } else {
                before
            };
            push_on_last(ls0, tags_separator())
        } else {
            before
        };
        if last.len() > 0 {
            if last_w.saturating_add(3) > allowed {
                let ghost old_lines = lines@;
                let ghost old_last = last;
                lines.push(last);
                last = Vec::new();
                last_w = 0;
                assert(lines@ == old_lines.push(old_last));
                assert(line_views(lines@) =~= line_views(old_lines).push(views(old_last@)));
                assert(views(last@) =~= Seq::<Seq<char>>::empty());
                assert(line_views(lines@).push(views(last@)) =~= before.push(Seq::empty()));
            }
            let ghost mid = line_views(lines@).push(views(last@));
            let ghost lw = views(last@);
            assert(last_w as int == capped(line_width(lw)));
            let sw = span_display_width(sep);
            last.push(sep.to_string());
            last_w = last_w.saturating_add(sw);
            assert(views(last@) =~= lw.push(tags_separator()));
            assert(views(last@).drop_last() =~= lw);
            assert(views(last@).last() == tags_separator());
            assert(line_width(views(last@)) == line_width(lw) + span_width(tags_separator()));
            assert(line_views(lines@).push(views(last@)) =~= push_on_last(mid, tags_separator()));
        }
        let ghost mid2 = line_views(lines@).push(views(last@));
        assert(mid2 == with_sep);
        assert(last_w as int == capped(line_width(views(last@))));
        let tag = &tags[i];
        let tag_str = tag.as_str();
        let tag_len = tag_str.len();
        assert(tag_str@ == tv[i as int]);
        assert(tag_len == byte_len(tv[i as int]));
        if last_w.saturating_add(tag_len) < allowed {
            let ghost lw = views(last@);
            let tw = span_display_width(tag.as_str());
            last.push(tag.clone());
            last_w = last_w.saturating_add(tw);
            assert(views(last@) =~= lw.push(tv[i as int]));
            assert(views(last@).drop_last() =~= lw);
            assert(views(last@).last() == tv[i as int]);
            assert(line_width(views(last@)) == line_width(lw) + span_width(tv[i as int]));
            assert(line_views(lines@).push(views(last@)) =~= push_on_last(mid2, tv[i as int]));
        } else {
            let ghost old_lines = lines@;
            let ghost old_last = last;
            lines.push(last);
            assert(lines@ == old_lines.push(old_last));
            assert(line_views(lines@) =~= line_views(old_lines).push(views(old_last@)));
            last = Vec::new();
            let tw = span_display_width(tag.as_str());
            last.push(tag.clone());
            last_w = tw;
            assert(views(last@) =~= seq![tv[i as int]]);
            assert(views(last@).drop_last() =~= Seq::<Seq<char>>::empty());
            assert(views(last@).last() == tv[i as int]);
            assert(line_width(Seq::<Seq<char>>::empty()) == 0);
            assert(line_width(views(last@)) == span_width(tv[i as int]));
            assert(line_views(lines@) =~= mid2);
            assert(line_views(lines@).push(views(last@)) =~= mid2.push(seq![tv[i as int]]));
        }
        assert(line_views(lines@).push(views(last@)) == tag_added(before, tv[i as int], allowed as int));
        i = i + 1;
    }
    assert(tv.take(tags.len() as int) =~= tv);
    let ghost old_lines = lines@;
    let ghost old_last = last;
    lines.push(last);
    assert(lines@ == old_lines.push(old_last));
    assert(line_views(lines@) =~= line_views(old_lines).push(views(old_last@)));
    lines
}

impl EntriesList {
    /// The lines of the title of `entry` in a list `width` columns wide: marked with `* ` when
    /// the list is in multi-select mode and the entry is selected, then wrapped by textwrap to
    /// the width that the list leaves for text.
    pub fn entry_title_lines<D>(&self, entry: &Entry, app: &App<D>, width: usize) -> (r: Vec<
        String,
    >)
        requires
            width >= LIST_INNER_MARGIN,
        ensures
            views(r@) == wrapped_lines(
                marked_title(
                    entry.title@,
                    self.multi_select_mode && app.selected_entries@.contains(entry.id),
                ),
                (width - LIST_INNER_MARGIN) as usize,
            ),
    {
        let marked = self.multi_select_mode && app.selected_entries.contains(&entry.id);
        if marked {
            let mut title = "* ".to_string();
            title.append(entry.title.as_str());
            proof {
                reveal_strlit("* ");
                assert(title@ =~= marked_title(entry.title@, true));
            }
            wrap_text(title.as_str(), width - LIST_INNER_MARGIN)
        } else {
            wrap_text(entry.title.as_str(), width - LIST_INNER_MARGIN)
        }
    }
}

/// The title of the list's frame: "Journals", with the multi-select mode and the filter named
/// when they are on.
pub open spec fn list_block_title_spec(multi_select: bool, has_filter: bool) -> Seq<char> {
    match (multi_select, has_filter) {
        (true, true) => "Journals - Multi-Select - Filtered"@,
        (true, false) => "Journals - Multi-Select"@,
        (false, true) => "Journals - Filtered"@,
        (false, false) => "Journals"@,
    }
}

impl EntriesList {
    /// The title of the list's frame, the filter being on when `has_filter`.
    pub fn list_block_title(&self, has_filter: bool) -> (r: &str)
        ensures
            r@ == list_block_title_spec(self.multi_select_mode, has_filter),
    {
        proof {
            reveal_strlit("Journals - Multi-Select - Filtered");
            reveal_strlit("Journals - Multi-Select");
            reveal_strlit("Journals - Filtered");
            reveal_strlit("Journals");
        }
        match (self.multi_select_mode, has_filter) {
            (true, true) => "Journals - Multi-Select - Filtered",
            (true, false) => "Journals - Multi-Select",
            (false, true) => "Journals - Filtered",
            (false, false) => "Journals",
        }
    }

    /// The position shown at the bottom of the list's frame: the selected row counted from one,
    /// a slash and the number of entries `entries_len`, when the list knows that number and a
    /// row is selected.
    pub fn list_position_text(&self, entries_len: Option<usize>) -> (r: Option<String>)
        requires
            self.state is Some ==> self.state.unwrap() < usize::MAX,
        ensures
            r is Some <==> entries_len is Some && self.state is Some,
            r is Some ==> r.unwrap()@ == decimal_spec((self.state.unwrap() + 1) as nat) + seq!['/']
                + decimal_spec(entries_len.unwrap() as nat),
    {
        match (entries_len, self.state) {
            (Some(len), Some(selected)) => {
                let mut r = String::new();
                append_decimal(&mut r, (selected + 1) as u64);
                r.append("/");
                append_decimal(&mut r, len as u64);
                proof {
                    reveal_strlit("/");
                }
                Some(r)
            },
            _ => None,
        }
    }
}

/// The height that the scrollbar takes for each item, when the list needs one: when its
/// `lines` lines do not fit the `height` rows of its area less its two borders, the average
/// height of its `items` items.
pub fn scrollbar_item_height(lines: usize, items: usize, height: usize) -> (r: Option<usize>)
    requires
        height >= 2,
        lines > height - 2 ==> items > 0,
    ensures
        lines > height - 2 ==> r == Some((lines / items) as usize),
        lines <= height - 2 ==> r is None,
{
    if lines > height - 2 {
        Some(lines / items)
    } else {
        None
    }
}

/// The label of a sub-folder in the folder view: a folder sign, a space and its name.
pub fn folder_item_label(name: &str) -> (r: String)
    ensures
        r@ == "\u{1F4C1} "@ + name@,
{
    let mut r = "\u{1F4C1} ".to_string();
    r.append(name);
    r
}

/// The width that the folder view wraps titles to: the area's width less the margin, or none.
pub open spec fn plain_wrap_width(width: usize) -> usize {
    if width >= LIST_INNER_MARGIN {
        (width - LIST_INNER_MARGIN) as usize
    } else {
        0
    }
}

/// The lines of a title in the folder view, in an area `width` columns wide: wrapped by
/// textwrap to the width left beside the margin.
pub fn plain_title_lines(title: &str, width: usize) -> (r: Vec<String>)
    ensures
        views(r@) == wrapped_lines(title@, plain_wrap_width(width)),
{
    wrap_text(title, width.saturating_sub(LIST_INNER_MARGIN))
}

/// Lines that hold one span each.
pub open spec fn single_spans(lines: Seq<Seq<char>>) -> Seq<Seq<Seq<char>>> {
    lines.map_values(|l: Seq<char>| seq![l])
}

/// Each line as a line of one span.
fn one_span_lines(lines: Vec<String>) -> (r: Vec<Vec<String>>)
    ensures
        line_views(r@) == single_spans(views(lines@)),
{
    let ghost lv = views(lines@);
    let mut r: Vec<Vec<String>> = Vec::new();
    let mut i: usize = 0;
    while i < lines.len()
        invariant
            i <= lines.len(),
            lv == views(lines@),
            r@.len() == i,
            line_views(r@) == single_spans(lv.take(i as int)),
        decreases lines.len() - i,
    {
        let ghost before = r@;
        let mut one: Vec<String> = Vec::new();
        one.push(lines[i].clone());
        r.push(one);
        assert(views(r@[i as int]@) =~= seq![lv[i as int]]);
        assert(line_views(r@) =~= single_spans(lv.take(i + 1))) by {
            assert forall|k: int| 0 <= k < i implies line_views(r@)[k] == single_spans(
                lv.take(i + 1),
            )[k] by {
                assert(r@[k] == before[k]);
                assert(line_views(before)[k] == single_spans(lv.take(i as int))[k]);
            }
        }
        i = i + 1;
    }
    assert(lv.take(lines.len() as int) =~= lv);
    r
}

/// `a` followed by `b`.
fn joined_lines(a: Vec<Vec<String>>, b: Vec<Vec<String>>) -> (r: Vec<Vec<String>>)
    ensures
        line_views(r@) == line_views(a@) + line_views(b@),
{
    let mut r = a;
    let mut rest = b;
    let ghost ra = r@;
    let ghost rb = rest@;
    r.append(&mut rest);
    assert(r@ == ra + rb);
    assert(line_views(r@) =~= line_views(ra) + line_views(rb));
    r
}

/// The lines of an entry in the flat list `width` columns wide, marked or not: its title
/// lines, its date and priority lines, then its tag lines.
pub open spec fn flat_item_spec(
    marked: bool,
    e: EntryView,
    visibility: DatumVisibility,
    width: usize,
) -> Seq<Seq<Seq<char>>> {
    single_spans(wrapped_lines(marked_title(e.title, marked), (width - LIST_INNER_MARGIN) as usize))
        + single_spans(date_priority_lines_spec(visibility, e.date, e.priority, width as int))
        + tag_lines_spec(e.tags, width)
}

/// The lines of an entry in the folder view `width` columns wide: its title lines, its date
/// and priority lines, then its tag lines.
pub open spec fn folder_item_spec(
    e: EntryView,
    visibility: DatumVisibility,
    width: usize,
) -> Seq<Seq<Seq<char>>> {
    single_spans(wrapped_lines(e.title, plain_wrap_width(width))) + single_spans(
        folder_date_priority_lines_spec(visibility, e.date, e.priority),
    ) + tag_lines_spec(e.tags, width)
}

/// The lines of `entry` in the folder view, `width` columns wide.
pub fn folder_item_lines(entry: &Entry, visibility: DatumVisibility, width: usize) -> (r: Vec<
    Vec<String>,
>)
    ensures
        line_views(r@) == folder_item_spec(entry@, visibility, width),
{
    let title = one_span_lines(plain_title_lines(entry.title.as_str(), width));
    let dates = one_span_lines(folder_date_priority_lines(visibility, entry.date, entry.priority));
    let tags = tag_lines(&entry.tags, width);
    joined_lines(joined_lines(title, dates), tags)
}

/// The total number of lines of the entries `es` in the flat list, an entry being marked where
/// the list is in multi-select mode and its id is among `selected`.
pub open spec fn flat_lines_total(
    multi_select: bool,
    selected: Set<u32>,
    es: Seq<EntryView>,
    visibility: DatumVisibility,
    width: usize,
) -> int
    decreases es.len(),
{
    if es.len() == 0 {
        0
    } else {
        flat_lines_total(multi_select, selected, es.drop_last(), visibility, width)
            + flat_item_spec(
            multi_select && selected.contains(es.last().id),
            es.last(),
            visibility,
            width,
        ).len()
    }
}

impl EntriesList {
    /// The lines of `entry` in the flat list, `width` columns wide.
    pub fn flat_item_lines<D>(
        &self,
        entry: &Entry,
        app: &App<D>,
        visibility: DatumVisibility,
        width: usize,
    ) -> (r: Vec<Vec<String>>)
        requires
            width >= LIST_INNER_MARGIN,
        ensures
            line_views(r@) == flat_item_spec(
                self.multi_select_mode && app.selected_entries@.contains(entry.id),
                entry@,
                visibility,
                width,
            ),
    {
        let title = one_span_lines(self.entry_title_lines(entry, app, width));
        let dates = one_span_lines(
            date_priority_lines(visibility, entry.date, entry.priority, width),
        );
        let tags = tag_lines(&entry.tags, width);
        joined_lines(joined_lines(title, dates), tags)
    }

    /// The number of lines that the flat list `width` columns wide takes for the entries that
    /// the filter lets through, or `usize::MAX` where that does not fit.
    pub fn list_lines_count<D>(&self, app: &App<D>, visibility: DatumVisibility, width: usize) -> (r:
        usize)
        requires
            width >= LIST_INNER_MARGIN,
        ensures
            r as int == capped(
                flat_lines_total(
                    self.multi_select_mode,
                    app.selected_entries@,
                    active_spec(entry_views(app.entries@), app.filtered_out_entries@),
                    visibility,
                    width,
                ),
            ),
    {
        let active = app.get_active_entries();
        let ghost av = ref_views(active@);
        let mut total: usize = 0;
        let mut i: usize = 0;
        while i < active.len()
            invariant
                i <= active.len(),
                width >= LIST_INNER_MARGIN,
                av == ref_views(active@),
                total as int == capped(
                    flat_lines_total(
                        self.multi_select_mode,
                        app.selected_entries@,
                        av.take(i as int),
                        visibility,
                        width,
                    ),
                ),
            decreases active.len() - i,
        {
            let lines = self.flat_item_lines(active[i], app, visibility, width);
            assert(av.take(i + 1).drop_last() =~= av.take(i as int));
            assert(av.take(i + 1).last() == active@[i as int]@);
            assert(line_views(lines@).len() == lines@.len());
            total = total.saturating_add(lines.len());
            i = i + 1;
        }
        assert(av.take(active.len() as int) =~= av);
        total
    }

    /// The position shown at the bottom of the folder view when it has `items` rows: the
    /// selected row counted from one (zero with no selection), a slash and the number of rows.
    pub fn folder_position_text(&self, items: usize) -> (r: Option<String>)
        requires
            self.folder_list_state is Some ==> self.folder_list_state.unwrap() < usize::MAX,
        ensures
            r is Some <==> items > 0,
            r is Some ==> r.unwrap()@ == decimal_spec(
                (match self.folder_list_state {
                    Some(v) => v + 1,
                    None => 0,
                }) as nat,
            ) + seq!['/'] + decimal_spec(items as nat),
    {
        if items == 0 {
            return None;
        }
        let sel: usize = match self.folder_list_state {
            Some(v) => v + 1,
            None => 0,
        };
        let mut r = String::new();
        append_decimal(&mut r, sel as u64);
        r.append("/");
        append_decimal(&mut r, items as u64);
        proof {
            reveal_strlit("/");
        }
        Some(r)
    }
}

/// The height that the folder view's scrollbar takes for each of its `items` rows, when they
/// do not fit the `height` rows of its area less its two borders: two.
pub fn folder_scrollbar_item_height(items: usize, height: usize) -> (r: Option<usize>)
    requires
        items > 0 ==> height >= 2,
    ensures
        items > 0 && items > height - 2 ==> r == Some(2usize),
        !(items > 0 && items > height - 2) ==> r is None,
{
    if items > 0 && items > height - 2 {
        Some(2)
    } else {
        None
    }
}

} // verus!
