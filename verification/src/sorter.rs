//! The order of the entries list: by date, priority and title in a chosen precedence,
//! ascending or descending.
use vstd::prelude::*;

use crate::entry::{entry_views, Entry, EntryView};
use crate::text::{compare_text, text_lt, TextOrder};

verus! {

/// A field that entries are sorted by.
#[derive(Debug, PartialEq, Eq, Structural, Clone, Copy)]
pub enum SortCriteria {
    Date,
    Priority,
    Title,
}

/// Whether the entries go from the smallest to the largest or the other way.
#[derive(Debug, PartialEq, Eq, Structural, Clone, Copy)]
pub enum SortOrder {
    Ascending,
    Descending,
}

/// How the entries are sorted: by the criteria in turn, the first one that tells two entries
/// apart deciding, in the given order.
#[derive(Debug)]
pub struct Sorter {
    pub criteria: Vec<SortCriteria>,
    pub order: SortOrder,
}

/// The mathematical value of a sorter.
pub struct SorterView {
    pub criteria: Seq<SortCriteria>,
    pub order: SortOrder,
}

impl View for Sorter {
    type V = SorterView;

    open spec fn view(&self) -> SorterView {
        SorterView { criteria: self.criteria@, order: self.order }
    }
}

/// -1, 0 or 1 as `a` comes before, together with or after `b` by the criterion `c`.
pub open spec fn criterion_order(c: SortCriteria, a: EntryView, b: EntryView) -> int {
    match c {
        SortCriteria::Date => if a.date.before(b.date) {
            -1
        } else if b.date.before(a.date) {
            1
        } else {
            0
        },
        SortCriteria::Priority => match (a.priority, b.priority) {
            (None, None) => 0,
            (None, Some(_)) => -1,
            (Some(_), None) => 1,
            (Some(x), Some(y)) => if x < y {
                -1
            } else if y < x {
                1
            } else {
                0
            },
        },
        SortCriteria::Title => if text_lt(a.title, b.title) {
            -1
        } else if text_lt(b.title, a.title) {
            1
        } else {
            0
        },
    }
}

/// The order of `a` and `b` by the first criterion in `criteria` that tells them apart.
pub open spec fn criteria_order(criteria: Seq<SortCriteria>, a: EntryView, b: EntryView) -> int
    decreases criteria.len(),
{
    if criteria.len() == 0 {
        0
    } else {
        let r = criterion_order(criteria[0], a, b);
        if r != 0 {
            r
        } else {
            criteria_order(criteria.drop_first(), a, b)
        }
    }
}

/// The order of `a` and `b` under the sorter: negative when `a` goes first, positive when `b`
/// goes first, zero when they are equivalent.
pub open spec fn sorter_order(s: SorterView, a: EntryView, b: EntryView) -> int {
    match s.order {
        SortOrder::Ascending => criteria_order(s.criteria, a, b),
        SortOrder::Descending => -criteria_order(s.criteria, a, b),
    }
}

/// Where `x` goes into `t` so that it follows every element that does not come after it.
pub open spec fn insert_pos(s: SorterView, t: Seq<EntryView>, x: EntryView) -> int
    decreases t.len(),
{
    if t.len() == 0 {
        0
    } else if sorter_order(s, t[0], x) > 0 {
        0
    } else {
        1 + insert_pos(s, t.drop_first(), x)
    }
}

/// The entries in sorted order, entries that are equivalent keeping their relative order.
pub open spec fn sort_spec(s: SorterView, v: Seq<EntryView>) -> Seq<EntryView>
    decreases v.len(),
{
    if v.len() == 0 {
        v
    } else {
        let t = sort_spec(s, v.drop_last());
        t.insert(insert_pos(s, t, v.last()), v.last())
    }
}

/// The insertion position lies within the sequence.
pub proof fn lemma_insert_pos_bounds(s: SorterView, t: Seq<EntryView>, x: EntryView)
    ensures
        0 <= insert_pos(s, t, x) <= t.len(),
    decreases t.len(),
{
    if t.len() > 0 && sorter_order(s, t[0], x) <= 0 {
        lemma_insert_pos_bounds(s, t.drop_first(), x);
    }
}

/// Inserting an element adds it to the multiset of elements.
pub proof fn lemma_insert_multiset<A>(t: Seq<A>, p: int, x: A)
    requires
        0 <= p <= t.len(),
    ensures
        t.insert(p, x).to_multiset() == t.to_multiset().insert(x),
{
    broadcast use vstd::seq_lib::group_to_multiset_ensures;

    let u = t.insert(p, x);
    assert(u.remove(p) =~= t);
    assert(u[p] == x);
    assert(u.remove(p).to_multiset() == u.to_multiset().remove(x));
    assert(u.contains(x));
    assert(u.to_multiset().count(x) > 0);
    assert(u.to_multiset() =~= t.to_multiset().insert(x));
}

/// Sorting keeps the entries, only their order changes.
pub proof fn lemma_sort_multiset(s: SorterView, v: Seq<EntryView>)
    ensures
        sort_spec(s, v).to_multiset() == v.to_multiset(),
        sort_spec(s, v).len() == v.len(),
    decreases v.len(),
{
    broadcast use vstd::seq_lib::group_to_multiset_ensures;

    if v.len() > 0 {
        let t = sort_spec(s, v.drop_last());
        lemma_sort_multiset(s, v.drop_last());
        lemma_insert_pos_bounds(s, t, v.last());
        lemma_insert_multiset(t, insert_pos(s, t, v.last()), v.last());
        assert(v =~= v.drop_last().push(v.last()));
    }
}

/// The properties of a comparison that sorting relies on: swapping the two sides flips the
/// sign, being together is transitive, and going first carries over through entries that
/// do not come after.
pub open spec fn well_behaved(c: SortCriteria) -> bool {
    &&& forall|a: EntryView, b: EntryView| #[trigger] criterion_order(c, a, b) == -criterion_order(c, b, a)
    &&& forall|a: EntryView, b: EntryView, d: EntryView|
        #![trigger criterion_order(c, a, b), criterion_order(c, b, d)]
        criterion_order(c, a, b) == 0 && criterion_order(c, b, d) == 0 ==> criterion_order(c, a, d) == 0
    &&& forall|a: EntryView, b: EntryView, d: EntryView|
        #![trigger criterion_order(c, a, b), criterion_order(c, b, d)]
        criterion_order(c, a, b) < 0 && criterion_order(c, b, d) <= 0 ==> criterion_order(c, a, d) < 0
    &&& forall|a: EntryView, b: EntryView, d: EntryView|
        #![trigger criterion_order(c, a, b), criterion_order(c, b, d)]
        criterion_order(c, a, b) <= 0 && criterion_order(c, b, d) < 0 ==> criterion_order(c, a, d) < 0
}

/// Each criterion compares in a well-behaved way.
proof fn lemma_criterion_well_behaved(c: SortCriteria)
    ensures
        well_behaved(c),
{
    match c {
        SortCriteria::Date => {},
        SortCriteria::Priority => {},
        SortCriteria::Title => {
            assert forall|a: EntryView, b: EntryView| #[trigger] criterion_order(c, a, b)
                == -criterion_order(c, b, a) by {
                crate::text::lemma_text_lt_total(a.title, b.title);
                if text_lt(a.title, b.title) {
                    crate::text::lemma_text_lt_asymmetric(a.title, b.title);
                }
            }
            assert forall|a: EntryView, b: EntryView, d: EntryView|
                #![trigger criterion_order(c, a, b), criterion_order(c, b, d)]
                (criterion_order(c, a, b) == 0 && criterion_order(c, b, d) == 0 ==> criterion_order(c, a, d) == 0)
                && (criterion_order(c, a, b) < 0 && criterion_order(c, b, d) <= 0 ==> criterion_order(c, a, d) < 0)
                && (criterion_order(c, a, b) <= 0 && criterion_order(c, b, d) < 0 ==> criterion_order(c, a, d) < 0) by {
                crate::text::lemma_text_lt_total(a.title, b.title);
                crate::text::lemma_text_lt_total(b.title, d.title);
                crate::text::lemma_text_lt_total(a.title, d.title);
                if text_lt(a.title, b.title) && text_lt(b.title, d.title) {
                    crate::text::lemma_text_lt_transitive(a.title, b.title, d.title);
                }
                if text_lt(a.title, d.title) {
                    crate::text::lemma_text_lt_asymmetric(a.title, d.title);
                }
                if text_lt(d.title, a.title) {
                    crate::text::lemma_text_lt_asymmetric(d.title, a.title);
                    if text_lt(a.title, b.title) {
                        crate::text::lemma_text_lt_transitive(d.title, a.title, b.title);
                        crate::text::lemma_text_lt_asymmetric(d.title, b.title);
                    }
                    if text_lt(b.title, d.title) {
                        crate::text::lemma_text_lt_transitive(b.title, d.title, a.title);
                        crate::text::lemma_text_lt_asymmetric(b.title, a.title);
                    }
                }
                crate::text::lemma_text_lt_irreflexive(a.title);
                crate::text::lemma_text_lt_irreflexive(b.title);
            }
        },
    }
}

/// Comparing by a list of criteria flips sign with the sides, and an entry that does not
/// come after a second one, which does not come after a third, does not come after the third.
proof fn lemma_criteria_order(cs: Seq<SortCriteria>, a: EntryView, b: EntryView, d: EntryView)
    ensures
        criteria_order(cs, a, b) == -criteria_order(cs, b, a),
        criteria_order(cs, a, b) <= 0 && criteria_order(cs, b, d) <= 0 ==> criteria_order(cs, a, d) <= 0,
    decreases cs.len(),
{
    if cs.len() > 0 {
        let c = cs[0];
        lemma_criterion_well_behaved(c);
        lemma_criteria_order(cs.drop_first(), a, b, d);
        assert(criterion_order(c, a, b) == -criterion_order(c, b, a));
        let ab = criterion_order(c, a, b);
        let bd = criterion_order(c, b, d);
        let ad = criterion_order(c, a, d);
        assert(ab == 0 && bd == 0 ==> ad == 0);
        assert(ab < 0 && bd <= 0 ==> ad < 0);
        assert(ab <= 0 && bd < 0 ==> ad < 0);
    }
}

/// The sorter's comparison flips sign with the sides, and not coming after carries over.
proof fn lemma_sorter_order(s: SorterView, a: EntryView, b: EntryView, d: EntryView)
    ensures
        sorter_order(s, a, b) == -sorter_order(s, b, a),
        sorter_order(s, a, b) <= 0 && sorter_order(s, b, d) <= 0 ==> sorter_order(s, a, d) <= 0,
{
    lemma_criteria_order(s.criteria, a, b, d);
    lemma_criteria_order(s.criteria, d, b, a);
    lemma_criteria_order(s.criteria, b, a, d);
    lemma_criteria_order(s.criteria, a, d, b);
}

/// No entry comes after a later one.
pub open spec fn in_order(s: SorterView, t: Seq<EntryView>) -> bool {
    forall|i: int, j: int| 0 <= i < j < t.len() ==> sorter_order(s, #[trigger] t[i], #[trigger] t[j]) <= 0
}

/// Inserting at the insertion position keeps a list in order.
proof fn lemma_insert_in_order(s: SorterView, t: Seq<EntryView>, x: EntryView)
    requires
        in_order(s, t),
    ensures
        in_order(s, t.insert(insert_pos(s, t, x), x)),
    decreases t.len(),
{
    lemma_insert_pos_bounds(s, t, x);
    let p = insert_pos(s, t, x);
    let u = t.insert(p, x);
    lemma_insert_pos_facts(s, t, x);
    assert forall|i: int, j: int| 0 <= i < j < u.len() implies sorter_order(s, #[trigger] u[i], #[trigger] u[j]) <= 0 by {
        if j < p {
            assert(u[i] == t[i] && u[j] == t[j]);
        } else if j == p {
            assert(u[i] == t[i] && u[j] == x);
        } else if i < p {
            assert(u[i] == t[i] && u[j] == t[j - 1]);
            assert(sorter_order(s, t[i], x) <= 0);
            assert(sorter_order(s, t[p], x) > 0);
            lemma_sorter_order(s, x, t[p], t[j - 1]);
            if j - 1 > p {
                assert(sorter_order(s, t[p], t[j - 1]) <= 0);
            }
            lemma_sorter_order(s, t[i], x, t[j - 1]);
        } else if i == p {
            assert(u[i] == x && u[j] == t[j - 1]);
            assert(sorter_order(s, t[p], x) > 0);
            lemma_sorter_order(s, x, t[p], t[j - 1]);
            if j - 1 > p {
                assert(sorter_order(s, t[p], t[j - 1]) <= 0);
            }
        } else {
            assert(u[i] == t[i - 1] && u[j] == t[j - 1]);
        }
    }
}

/// Before the insertion position no entry comes after `x`; the entry at it does.
proof fn lemma_insert_pos_facts(s: SorterView, t: Seq<EntryView>, x: EntryView)
    ensures
        forall|k: int| 0 <= k < insert_pos(s, t, x) ==> sorter_order(s, #[trigger] t[k], x) <= 0,
        insert_pos(s, t, x) < t.len() ==> sorter_order(s, t[insert_pos(s, t, x)], x) > 0,
    decreases t.len(),
{
    lemma_insert_pos_bounds(s, t, x);
    if t.len() > 0 && sorter_order(s, t[0], x) <= 0 {
        let r = t.drop_first();
        lemma_insert_pos_bounds(s, r, x);
        lemma_insert_pos_facts(s, r, x);
        assert forall|k: int| 0 <= k < insert_pos(s, t, x) implies sorter_order(s, #[trigger] t[k], x) <= 0 by {
            if k > 0 {
                assert(t[k] == r[k - 1]);
            }
        }
        if insert_pos(s, t, x) < t.len() {
            assert(t[insert_pos(s, t, x)] == r[insert_pos(s, r, x)]);
        }
    }
}

/// Sorting puts the entries in the sorter's order: no entry comes after a later one.
pub proof fn law_sorted_in_order(s: SorterView, v: Seq<EntryView>)
    ensures
        in_order(s, sort_spec(s, v)),
    decreases v.len(),
{
    if v.len() > 0 {
        law_sorted_in_order(s, v.drop_last());
        lemma_insert_in_order(s, sort_spec(s, v.drop_last()), v.last());
    }
}

impl Sorter {
    /// Sorting by date, then priority, then title, the largest first.
    pub fn default() -> (s: Self)
        ensures
            s@.criteria == seq![SortCriteria::Date, SortCriteria::Priority, SortCriteria::Title],
            s@.order == SortOrder::Descending,
    {
        let mut criteria: Vec<SortCriteria> = Vec::new();
        criteria.push(SortCriteria::Date);
        criteria.push(SortCriteria::Priority);
        criteria.push(SortCriteria::Title);
        assert(criteria@ =~= seq![SortCriteria::Date, SortCriteria::Priority, SortCriteria::Title]);
        Sorter { criteria, order: SortOrder::Descending }
    }

    /// Replaces the criteria.
    pub fn set_criteria(&mut self, criteria: Vec<SortCriteria>)
        ensures
            final(self)@.criteria == criteria@,
            final(self)@.order == old(self)@.order,
    {
        self.criteria = criteria;
    }

    /// The criteria in their precedence.
    pub fn criteria(&self) -> (c: &Vec<SortCriteria>)
        ensures
            c@ == self@.criteria,
    {
        &self.criteria
    }

    /// -1, 0 or 1 as `a` goes before, with or after `b`.
    pub fn compare(&self, a: &Entry, b: &Entry) -> (r: i8)
        ensures
            r as int == sorter_order(self@, a@, b@),
    {
        let r = compare_by_criteria(&self.criteria, a, b);
        match self.order {
            SortOrder::Ascending => r,
            SortOrder::Descending => -r,
        }
    }

    /// Sorts `entries`, keeping the relative order of equivalent entries.
    pub fn sort_entries(&self, entries: &mut Vec<Entry>)
        ensures
            entry_views(final(entries)@) == sort_spec(self@, entry_views(old(entries)@)),
    {
        let mut sorted: Vec<Entry> = Vec::new();
        let n = entries.len();
        let ghost orig = entry_views(entries@);
        let mut i: usize = 0;
        while entries.len() > 0
            invariant
                i + entries.len() == n,
                orig.len() == n,
                entry_views(entries@) == orig.subrange(i as int, n as int),
                entry_views(sorted@) == sort_spec(self@, orig.take(i as int)),
            decreases entries.len(),
        {
            let ghost before = entries@;
            let e = entries.remove(0);
            assert(orig.take(i + 1).drop_last() =~= orig.take(i as int));
            assert(orig.subrange(i as int, n as int)[0] == orig[i as int]);
            assert(entry_views(before)[0] == before[0]@);
            assert(orig[i as int] == e@);
            let ghost t = entry_views(sorted@);
            let mut k: usize = 0;
            assert(t.subrange(0, t.len() as int) =~= t);
            while k < sorted.len() && self.compare(&sorted[k], &e) <= 0
                invariant
                    k <= sorted.len(),
                    t == entry_views(sorted@),
                    insert_pos(self@, t, e@) == k + insert_pos(self@, t.subrange(k as int, t.len() as int), e@),
                decreases sorted.len() - k,
            {
                assert(t.subrange(k as int, t.len() as int).drop_first() =~= t.subrange(k + 1, t.len() as int));
                k = k + 1;
            }
            proof {
                if k < sorted.len() {
                    assert(t.subrange(k as int, t.len() as int)[0] == t[k as int]);
                }
            }
            sorted.insert(k, e);
            assert(entry_views(sorted@) =~= t.insert(k as int, e@));
            assert forall|j: int| 0 <= j < entries@.len() implies entry_views(entries@)[j] == orig[i
                + 1 + j] by {
                assert(entries@[j] == before[j + 1]);
                assert(entry_views(before)[j + 1] == orig.subrange(i as int, n as int)[j + 1]);
            }
            assert(entry_views(entries@) =~= orig.subrange(i + 1, n as int));
            i = i + 1;
        }
        assert(orig.take(n as int) =~= orig);
        *entries = sorted;
    }
}

/// -1, 0 or 1 as `a` comes before, with or after `b` by the criterion `c`.
fn compare_by_criterion(c: SortCriteria, a: &Entry, b: &Entry) -> (r: i8)
    ensures
        r as int == criterion_order(c, a@, b@),
{
    match c {
        SortCriteria::Date => if a.date.is_before(&b.date) {
            -1
        } else if b.date.is_before(&a.date) {
            1
        } else {
            0
        },
        SortCriteria::Priority => match (a.priority, b.priority) {
            (None, None) => 0,
            (None, Some(_)) => -1,
            (Some(_), None) => 1,
            (Some(x), Some(y)) => if x < y {
                -1
            } else if y < x {
                1
            } else {
                0
            },
        },
        SortCriteria::Title => match compare_text(a.title.as_str(), b.title.as_str()) {
            TextOrder::Less => -1,
            TextOrder::Greater => {
                proof {
                    crate::text::lemma_text_lt_asymmetric(b.title@, a.title@);
                }
                1
            },
            TextOrder::Same => {
                proof {
                    crate::text::lemma_text_lt_irreflexive(a.title@);
                }
                0
            },
        },
    }
}

/// The order of `a` and `b` by the first of `criteria` that tells them apart.
fn compare_by_criteria(criteria: &Vec<SortCriteria>, a: &Entry, b: &Entry) -> (r: i8)
    ensures
        r as int == criteria_order(criteria@, a@, b@),
        -1 <= r <= 1,
{
    let mut i: usize = 0;
    assert(criteria@.subrange(0, criteria@.len() as int) =~= criteria@);
    while i < criteria.len()
        invariant
            i <= criteria.len(),
            criteria_order(criteria@, a@, b@) == criteria_order(
                criteria@.subrange(i as int, criteria@.len() as int),
                a@,
                b@,
            ),
        decreases criteria.len() - i,
    {
        let r = compare_by_criterion(criteria[i], a, b);
        assert(criteria@.subrange(i as int, criteria@.len() as int)[0] == criteria@[i as int]);
        if r != 0 {
            return r;
        }
        assert(criteria@.subrange(i as int, criteria@.len() as int).drop_first() =~= criteria@.subrange(
            i + 1,
            criteria@.len() as int,
        ));
        i = i + 1;
    }
    0
}

} // verus!
