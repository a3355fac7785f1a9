//! Filters on entries: criteria on tags, title, content and priority, combined by "and" or
//! "or".
use vstd::prelude::*;

use crate::entry::{Entry, EntryView};
use crate::text::{chars_of, same_text, views};

verus! {

/// A criterion on the tags of an entry.
#[derive(Debug)]
pub enum TagFilterOption {
    /// The entry has this tag.
    Tag(String),
    /// The entry has no tag.
    NoTags,
}

/// One criterion of a filter.
#[derive(Debug)]
pub enum FilterCriterion {
    Tag(TagFilterOption),
    /// The title holds this text.
    Title(String),
    /// The content holds this text.
    Content(String),
    /// The entry has this priority.
    Priority(u32),
}

/// How the criteria of a filter combine.
#[derive(Debug, PartialEq, Eq, Structural, Clone, Copy)]
pub enum CriteriaRelation {
    /// Every criterion holds.
    And,
    /// At least one criterion holds.
    Or,
}

/// A filter on entries.
#[derive(Debug)]
pub struct Filter {
    pub relation: CriteriaRelation,
    pub criteria: Vec<FilterCriterion>,
}

/// The mathematical value of a tag criterion.
pub enum TagOptionView {
    Tag(Seq<char>),
    NoTags,
}

/// The mathematical value of a criterion.
pub enum CriterionView {
    Tag(TagOptionView),
    Title(Seq<char>),
    Content(Seq<char>),
    Priority(u32),
}

/// The mathematical value of a filter.
pub struct FilterView {
    pub relation: CriteriaRelation,
    pub criteria: Seq<CriterionView>,
}

impl View for TagFilterOption {
    type V = TagOptionView;

    open spec fn view(&self) -> TagOptionView {
        match self {
            TagFilterOption::Tag(t) => TagOptionView::Tag(t@),
            TagFilterOption::NoTags => TagOptionView::NoTags,
        }
    }
}

impl View for FilterCriterion {
    type V = CriterionView;

    open spec fn view(&self) -> CriterionView {
        match self {
            FilterCriterion::Tag(o) => CriterionView::Tag(o@),
            FilterCriterion::Title(t) => CriterionView::Title(t@),
            FilterCriterion::Content(t) => CriterionView::Content(t@),
            FilterCriterion::Priority(p) => CriterionView::Priority(*p),
        }
    }
}

/// The views of a sequence of criteria.
pub open spec fn criteria_views(v: Seq<FilterCriterion>) -> Seq<CriterionView> {
    v.map_values(|c: FilterCriterion| c@)
}

impl View for Filter {
    type V = FilterView;

    open spec fn view(&self) -> FilterView {
        FilterView { relation: self.relation, criteria: criteria_views(self.criteria@) }
    }
}

/// `needle` occurs in `hay` as a contiguous run of characters.
pub open spec fn occurs_in(needle: Seq<char>, hay: Seq<char>) -> bool {
    exists|i: int|
        0 <= i && i + needle.len() <= hay.len() && #[trigger] hay.subrange(i, i + needle.len())
            == needle
}

/// Whether the criterion holds for the entry.
pub open spec fn criterion_holds(c: CriterionView, e: EntryView) -> bool {
    match c {
        CriterionView::Tag(TagOptionView::Tag(t)) => e.tags.contains(t),
        CriterionView::Tag(TagOptionView::NoTags) => e.tags.len() == 0,
        CriterionView::Title(s) => occurs_in(s, e.title),
        CriterionView::Content(s) => occurs_in(s, e.content),
        CriterionView::Priority(p) => e.priority == Some(p),
    }
}

/// Whether the entry passes the filter.
pub open spec fn filter_holds(f: FilterView, e: EntryView) -> bool {
    match f.relation {
        CriteriaRelation::And => forall|i: int|
            0 <= i < f.criteria.len() ==> #[trigger] criterion_holds(f.criteria[i], e),
        CriteriaRelation::Or => exists|i: int|
            0 <= i < f.criteria.len() && #[trigger] criterion_holds(f.criteria[i], e),
    }
}

/// Whether `needle` occurs in `hay`.
pub fn occurs(needle: &str, hay: &str) -> (b: bool)
    ensures
        b == occurs_in(needle@, hay@),
{
    let n = chars_of(needle);
    let h = chars_of(hay);
    if n.len() > h.len() {
        return false;
    }
    if n.len() == 0 {
        assert(hay@.subrange(0int, 0int + needle@.len()) =~= needle@);
        return true;
    }
    let last = h.len() - n.len();
    let mut i: usize = 0;
    while i <= last
        invariant
            n@ == needle@,
            h@ == hay@,
            1 <= n.len() <= h.len(),
            last == h.len() - n.len(),
            i <= last + 1,
            forall|k: int| 0 <= k < i ==> #[trigger] hay@.subrange(k, k + needle@.len()) != needle@,
        decreases last + 1 - i,
    {
        let mut j: usize = 0;
        let mut matched = true;
        while j < n.len()
            invariant_except_break
                matched,
            invariant
                n@ == needle@,
                h@ == hay@,
                i + n.len() <= h.len(),
                j <= n.len(),
                forall|k: int| 0 <= k < j ==> h@[i + k] == n@[k],
            ensures
                matched ==> j == n.len() && forall|k: int| 0 <= k < j ==> h@[i + k] == n@[k],
                !matched ==> hay@.subrange(i as int, i + needle@.len()) != needle@,
            decreases n.len() - j,
        {
            if h[i + j] != n[j] {
                matched = false;
                assert(hay@.subrange(i as int, i + needle@.len())[j as int] != needle@[j as int]);
                break;
            }
            j = j + 1;
        }
        if matched {
            assert(hay@.subrange(i as int, i + needle@.len()) =~= needle@);
            return true;
        }
        i = i + 1;
    }
    proof {
        if occurs_in(needle@, hay@) {
            let k = choose|k: int|
                0 <= k && k + needle@.len() <= hay@.len() && #[trigger] hay@.subrange(
                    k,
                    k + needle@.len(),
                ) == needle@;
            assert(k < i);
        }
    }
    false
}

/// Whether `tags` holds `tag`.
pub fn has_tag(tags: &Vec<String>, tag: &String) -> (b: bool)
    ensures
        b == views(tags@).contains(tag@),
{
    let mut i: usize = 0;
    while i < tags.len()
        invariant
            i <= tags.len(),
            forall|k: int| 0 <= k < i ==> tags@[k]@ != tag@,
        decreases tags.len() - i,
    {
        if same_text(tags[i].as_str(), tag.as_str()) {
            assert(views(tags@)[i as int] == tag@);
            return true;
        }
        i = i + 1;
    }
    proof {
        if views(tags@).contains(tag@) {
            let k = choose|k: int| 0 <= k < views(tags@).len() && views(tags@)[k] == tag@;
            assert(tags@[k]@ == tag@);
        }
    }
    false
}

/// Whether a tag is not among `tags`.
pub open spec fn not_among(tags: Seq<Seq<char>>) -> spec_fn(Seq<char>) -> bool {
    |t: Seq<char>| !tags.contains(t)
}

/// The tags of `tags` that `other` does not hold, in their order. When an entry's tags change
/// from `old` to `new`, a store drops `tags_not_in(old, new)` and adds `tags_not_in(new, old)`.
pub fn tags_not_in(tags: &Vec<String>, other: &Vec<String>) -> (r: Vec<String>)
    ensures
        views(r@) == views(tags@).filter(not_among(views(other@))),
{
    let ghost pred = not_among(views(other@));
    let ghost tv = views(tags@);
    let mut r: Vec<String> = Vec::new();
    let mut i: usize = 0;
    while i < tags.len()
        invariant
            i <= tags.len(),
            tv == views(tags@),
            pred == not_among(views(other@)),
            views(r@) == tv.take(i as int).filter(pred),
        decreases tags.len() - i,
    {
        proof {
            reveal(Seq::filter);
            assert(tv.take(i + 1).drop_last() =~= tv.take(i as int));
        }
        let keep = !has_tag(other, &tags[i]);
        assert(keep == pred(tv[i as int]));
        if keep {
            let ghost before = r@;
            r.push(tags[i].clone());
            assert(views(r@) =~= views(before).push(tv[i as int]));
        }
        i = i + 1;
    }
    assert(tv.take(tags.len() as int) =~= tv);
    r
}

impl FilterCriterion {
    /// Whether the criterion holds for `entry`.
    pub fn check_entry(&self, entry: &Entry) -> (b: bool)
        ensures
            b == criterion_holds(self@, entry@),
    {
        match self {
            FilterCriterion::Tag(TagFilterOption::Tag(tag)) => has_tag(&entry.tags, tag),
            FilterCriterion::Tag(TagFilterOption::NoTags) => entry.tags.len() == 0,
            FilterCriterion::Title(search) => occurs(search.as_str(), entry.title.as_str()),
            FilterCriterion::Content(search) => occurs(search.as_str(), entry.content.as_str()),
            FilterCriterion::Priority(prio) => match entry.priority {
                Some(p) => p == *prio,
                None => false,
            },
        }
    }

    /// A copy of the criterion.
    pub fn duplicate(&self) -> (r: Self)
        ensures
            r@ == self@,
    {
        match self {
            FilterCriterion::Tag(TagFilterOption::Tag(tag)) => FilterCriterion::Tag(
                TagFilterOption::Tag(tag.clone()),
            ),
            FilterCriterion::Tag(TagFilterOption::NoTags) => FilterCriterion::Tag(
                TagFilterOption::NoTags,
            ),
            FilterCriterion::Title(s) => FilterCriterion::Title(s.clone()),
            FilterCriterion::Content(s) => FilterCriterion::Content(s.clone()),
            FilterCriterion::Priority(p) => FilterCriterion::Priority(*p),
        }
    }
}

impl Filter {
    /// A filter without criteria, combining by "and".
    pub fn default() -> (f: Self)
        ensures
            f@.relation == CriteriaRelation::And,
            f@.criteria.len() == 0,
    {
        Filter { relation: CriteriaRelation::And, criteria: Vec::new() }
    }

    /// Whether `entry` passes the filter.
    pub fn check_entry(&self, entry: &Entry) -> (b: bool)
        ensures
            b == filter_holds(self@, entry@),
    {
        let n = self.criteria.len();
        let mut i: usize = 0;
        match self.relation {
            CriteriaRelation::And => {
                while i < n
                    invariant
                        n == self.criteria.len(),
                        i <= n,
                        self.relation == CriteriaRelation::And,
                        forall|k: int|
                            0 <= k < i ==> #[trigger] criterion_holds(self@.criteria[k], entry@),
                    decreases n - i,
                {
                    if !self.criteria[i].check_entry(entry) {
                        assert(!criterion_holds(self@.criteria[i as int], entry@));
                        return false;
                    }
                    i = i + 1;
                }
                true
            },
            CriteriaRelation::Or => {
                while i < n
                    invariant
                        n == self.criteria.len(),
                        i <= n,
                        self.relation == CriteriaRelation::Or,
                        forall|k: int|
                            0 <= k < i ==> !#[trigger] criterion_holds(self@.criteria[k], entry@),
                    decreases n - i,
                {
                    if self.criteria[i].check_entry(entry) {
                        assert(criterion_holds(self@.criteria[i as int], entry@));
                        return true;
                    }
                    i = i + 1;
                }
                false
            },
        }
    }

    /// A copy of the filter.
    pub fn duplicate(&self) -> (r: Self)
        ensures
            r@ == self@,
    {
        let mut criteria: Vec<FilterCriterion> = Vec::new();
        let mut i: usize = 0;
        while i < self.criteria.len()
            invariant
                i <= self.criteria.len(),
                criteria_views(criteria@) == criteria_views(self.criteria@).take(i as int),
            decreases self.criteria.len() - i,
        {
            let c = self.criteria[i].duplicate();
            let ghost before = criteria@;
            criteria.push(c);
            assert(criteria_views(criteria@) =~= criteria_views(before).push(c@));
            assert(criteria_views(self.criteria@).take(i + 1) =~= criteria_views(
                self.criteria@,
            ).take(i as int).push(c@));
            i = i + 1;
        }
        assert(criteria_views(self.criteria@).take(self.criteria.len() as int) =~= criteria_views(
            self.criteria@,
        ));
        Filter { relation: self.relation, criteria }
    }
}

} // verus!
