//! What cycling the tag filter does, stated through the order of the entries' tags: without a
//! filter or without tag criteria the least tag is applied, several tag criteria give way to
//! the least tag, and a single tag criterion moves to the next greater tag, then to "no tags",
//! then back to the least tag.
use vstd::prelude::*;

use crate::app::{
    all_tags_set, filtered_out_spec, first_tag_criterion, is_first_tag_criterion, is_tag_criterion,
    option_pos, tag_options, tags_cycled_spec, AppView,
};
use crate::entry::EntryView;
use crate::filter::{CriteriaRelation, CriterionView, TagOptionView};
use crate::sorted_text::{
    lemma_sorted_list, lemma_sorted_list_first, lemma_sorted_list_of, sorted_list, strictly_sorted,
};
use crate::text::{lemma_text_lt_asymmetric, lemma_text_lt_irreflexive, text_lt};

verus! {

/// All the tags of the entries, entry after entry.
pub open spec fn tags_of_all(es: Seq<EntryView>) -> Seq<Seq<char>>
    decreases es.len(),
{
    if es.len() == 0 {
        Seq::empty()
    } else {
        tags_of_all(es.drop_last()) + es.last().tags
    }
}

/// `t` is a tag of the entries, below every other one.
pub open spec fn least_tag(es: Seq<EntryView>, t: Seq<char>) -> bool {
    &&& all_tags_set(es).contains(t)
    &&& forall|u: Seq<char>| #[trigger] all_tags_set(es).contains(u) && u != t ==> text_lt(t, u)
}

/// `t` is a tag of the entries, above every other one.
pub open spec fn greatest_tag(es: Seq<EntryView>, t: Seq<char>) -> bool {
    &&& all_tags_set(es).contains(t)
    &&& forall|u: Seq<char>| #[trigger] all_tags_set(es).contains(u) && u != t ==> text_lt(u, t)
}

/// `u` is the tag of the entries that comes right after `t`: above it, and below every other
/// tag above it.
pub open spec fn next_greater_tag(es: Seq<EntryView>, t: Seq<char>, u: Seq<char>) -> bool {
    &&& all_tags_set(es).contains(u)
    &&& text_lt(t, u)
    &&& forall|v: Seq<char>|
        #[trigger] all_tags_set(es).contains(v) && text_lt(t, v) && v != u ==> text_lt(u, v)
}

/// Whether a criterion is on tags.
pub open spec fn tag_criterion() -> spec_fn(CriterionView) -> bool {
    |x: CriterionView| is_tag_criterion(x)
}

/// Whether a criterion is not on tags.
pub open spec fn other_criterion() -> spec_fn(CriterionView) -> bool {
    |x: CriterionView| !is_tag_criterion(x)
}

/// The tags of all entries, listed, are the set of their tags.
proof fn lemma_tags_of_all(es: Seq<EntryView>)
    ensures
        tags_of_all(es).to_set() == all_tags_set(es),
    decreases es.len(),
{
    if es.len() > 0 {
        let p = es.drop_last();
        lemma_tags_of_all(p);
        let l = tags_of_all(es);
        let lp = tags_of_all(p);
        assert(l == lp + es.last().tags);
        assert forall|t: Seq<char>| l.to_set().contains(t) implies all_tags_set(es).contains(t) by {
            let k = choose|k: int| 0 <= k < l.len() && l[k] == t;
            if k < lp.len() {
                assert(lp[k] == t);
                assert(lp.to_set().contains(t));
                let i = choose|i: int| 0 <= i < p.len() && p[i].tags.contains(t);
                assert(es[i] == p[i]);
            } else {
                assert(es.last().tags[k - lp.len()] == t);
                assert(es[es.len() - 1].tags.contains(t));
            }
        }
        assert forall|t: Seq<char>| all_tags_set(es).contains(t) implies l.to_set().contains(t) by {
            let i = choose|i: int| 0 <= i < es.len() && es[i].tags.contains(t);
            if i < p.len() {
                assert(p[i] == es[i]);
                assert(all_tags_set(p).contains(t));
                let k = choose|k: int| 0 <= k < lp.len() && lp[k] == t;
                assert(l[k] == t);
            } else {
                let k = choose|k: int| 0 <= k < es.last().tags.len() && es.last().tags[k] == t;
                assert(l[lp.len() + k] == t);
            }
        }
        assert(l.to_set() =~= all_tags_set(es));
    } else {
        assert(tags_of_all(es).to_set() =~= all_tags_set(es));
    }
}

/// The sorted tags of entries that have a tag: increasing, the set of tags, and starting with
/// the least tag.
proof fn lemma_sorted_tags(es: Seq<EntryView>, t: Seq<char>)
    requires
        all_tags_set(es).contains(t),
    ensures
        strictly_sorted(sorted_list(all_tags_set(es))),
        sorted_list(all_tags_set(es)).to_set() == all_tags_set(es),
        sorted_list(all_tags_set(es)).len() > 0,
        least_tag(es, sorted_list(all_tags_set(es))[0]),
{
    lemma_tags_of_all(es);
    let l = tags_of_all(es);
    lemma_sorted_list_of(l, all_tags_set(es));
    assert(l.to_set().contains(t));
    let k = choose|k: int| 0 <= k < l.len() && l[k] == t;
    assert(l.len() > 0);
    lemma_sorted_list_first(l, all_tags_set(es));
}

/// No element passes: nothing is kept.
proof fn lemma_filter_none<A>(s: Seq<A>, p: spec_fn(A) -> bool)
    requires
        forall|i: int| 0 <= i < s.len() ==> !p(#[trigger] s[i]),
    ensures
        s.filter(p).len() == 0,
    decreases s.len(),
{
    reveal(Seq::filter);
    if s.len() > 0 {
        lemma_filter_none(s.drop_last(), p);
        assert(!p(s[s.len() - 1]));
    }
}

/// Exactly one element passes: one is kept.
proof fn lemma_filter_one<A>(s: Seq<A>, p: spec_fn(A) -> bool, k: int)
    requires
        0 <= k < s.len(),
        p(s[k]),
        forall|j: int| 0 <= j < s.len() && p(#[trigger] s[j]) ==> j == k,
    ensures
        s.filter(p).len() == 1,
    decreases s.len(),
{
    reveal(Seq::filter);
    let d = s.drop_last();
    if k == s.len() - 1 {
        assert forall|i: int| 0 <= i < d.len() implies !p(#[trigger] d[i]) by {
            assert(d[i] == s[i]);
        }
        lemma_filter_none(d, p);
    } else {
        assert(!p(s[s.len() - 1]));
        assert forall|j: int| 0 <= j < d.len() && p(#[trigger] d[j]) implies j == k by {
            assert(d[j] == s[j]);
        }
        lemma_filter_one(d, p, k);
    }
}

/// Two elements pass: at least two are kept.
proof fn lemma_filter_two<A>(s: Seq<A>, p: spec_fn(A) -> bool, i: int, j: int)
    requires
        0 <= i < j < s.len(),
        p(s[i]),
        p(s[j]),
    ensures
        s.filter(p).len() >= 2,
    decreases s.len(),
{
    reveal(Seq::filter);
    let d = s.drop_last();
    if j == s.len() - 1 {
        assert(d[i] == s[i]);
        assert(d.filter(p).contains(d[i])) by {
            d.filter_lemma(p);
        }
    } else {
        assert(d[i] == s[i] && d[j] == s[j]);
        lemma_filter_two(d, p, i, j);
    }
}

/// A list whose elements all pass is kept whole.
proof fn lemma_filter_all<A>(s: Seq<A>, p: spec_fn(A) -> bool)
    requires
        forall|i: int| 0 <= i < s.len() ==> p(#[trigger] s[i]),
    ensures
        s.filter(p) == s,
    decreases s.len(),
{
    reveal(Seq::filter);
    if s.len() > 0 {
        let d = s.drop_last();
        assert forall|i: int| 0 <= i < d.len() implies p(#[trigger] d[i]) by {
            assert(d[i] == s[i]);
        }
        lemma_filter_all(d, p);
        assert(p(s[s.len() - 1]));
        assert(d.push(s.last()) =~= s);
    }
}

/// With the entries holding no tag, cycling the tag filter changes nothing.
pub proof fn law_cycle_without_tags_changes_nothing(s: AppView)
    requires
        forall|t: Seq<char>| !#[trigger] all_tags_set(s.entries).contains(t),
    ensures
        tags_cycled_spec(s) == s,
{
    let e = Seq::<Seq<char>>::empty();
    assert(all_tags_set(s.entries) =~= e.to_set());
    lemma_sorted_list(e, all_tags_set(s.entries));
}

/// Without a filter, cycling the tag filter applies the least tag of the entries alone (all
/// criteria to hold), and hides the entries that lack it.
pub proof fn law_cycle_without_filter_applies_least_tag(s: AppView, t: Seq<char>)
    requires
        s.filter is None,
        all_tags_set(s.entries).contains(t),
    ensures
        ({
            let r = tags_cycled_spec(s);
            &&& r.filter is Some
            &&& r.filter.unwrap().relation == CriteriaRelation::And
            &&& r.filter.unwrap().criteria.len() == 1
            &&& r.filter.unwrap().criteria[0] matches CriterionView::Tag(TagOptionView::Tag(u))
                && least_tag(s.entries, u)
            &&& r.filtered_out == filtered_out_spec(s.entries, r.filter)
            &&& r.entries == s.entries && r.history == s.history && r.sorter == s.sorter
        }),
{
    lemma_sorted_tags(s.entries, t);
}

/// With a filter holding no tag criterion, cycling the tag filter adds one on the least tag
/// of the entries after the criteria in place.
pub proof fn law_cycle_adds_least_tag(s: AppView, t: Seq<char>)
    requires
        s.filter is Some,
        forall|k: int|
            0 <= k < s.filter.unwrap().criteria.len() ==> !(#[trigger] s.filter.unwrap().criteria[k] is Tag),
        all_tags_set(s.entries).contains(t),
    ensures
        ({
            let c = s.filter.unwrap().criteria;
            let f = tags_cycled_spec(s).filter;
            &&& f is Some
            &&& f.unwrap().relation == s.filter.unwrap().relation
            &&& f.unwrap().criteria.len() == c.len() + 1
            &&& forall|k: int| 0 <= k < c.len() ==> #[trigger] f.unwrap().criteria[k] == c[k]
            &&& f.unwrap().criteria.last() matches CriterionView::Tag(TagOptionView::Tag(u))
                && least_tag(s.entries, u)
            &&& tags_cycled_spec(s).filtered_out == filtered_out_spec(s.entries, f)
        }),
{
    lemma_sorted_tags(s.entries, t);
    let c = s.filter.unwrap().criteria;
    assert(tag_criterion() == (|x: CriterionView| is_tag_criterion(x)));
    assert forall|i: int| 0 <= i < c.len() implies !tag_criterion()(#[trigger] c[i]) by {
        assert(!(c[i] is Tag));
    }
    lemma_filter_none(c, tag_criterion());
}

/// With two or more tag criteria, cycling the tag filter clears them and applies the least
/// tag of the entries: the filter then holds exactly one tag criterion, on that tag, last,
/// and keeps its other criteria in their order.
pub proof fn law_cycle_replaces_tag_criteria(s: AppView, i: int, j: int, t: Seq<char>)
    requires
        s.filter is Some,
        0 <= i < j < s.filter.unwrap().criteria.len(),
        s.filter.unwrap().criteria[i] is Tag,
        s.filter.unwrap().criteria[j] is Tag,
        all_tags_set(s.entries).contains(t),
    ensures
        ({
            let c = s.filter.unwrap().criteria;
            let f = tags_cycled_spec(s).filter;
            let nc = f.unwrap().criteria;
            &&& f is Some
            &&& f.unwrap().relation == s.filter.unwrap().relation
            &&& nc.len() > 0
            &&& forall|k: int| 0 <= k < nc.len() - 1 ==> !(#[trigger] nc[k] is Tag)
            &&& nc.last() matches CriterionView::Tag(TagOptionView::Tag(u)) && least_tag(
                s.entries,
                u,
            )
            &&& nc.filter(other_criterion()) == c.filter(other_criterion())
            &&& tags_cycled_spec(s).filtered_out == filtered_out_spec(s.entries, f)
        }),
{
    lemma_sorted_tags(s.entries, t);
    let c = s.filter.unwrap().criteria;
    assert(tag_criterion() == (|x: CriterionView| is_tag_criterion(x)));
    assert(other_criterion() == (|x: CriterionView| !is_tag_criterion(x)));
    lemma_filter_two(c, tag_criterion(), i, j);
    let nt = c.filter(other_criterion());
    let nc = tags_cycled_spec(s).filter.unwrap().criteria;
    assert(nc == nt.push(CriterionView::Tag(tag_options(sorted_list(all_tags_set(s.entries)))[0])));
    c.filter_lemma(other_criterion());
    assert forall|k: int| 0 <= k < nc.len() - 1 implies !(#[trigger] nc[k] is Tag) by {
        assert(nc[k] == nt[k]);
        assert(other_criterion()(nt[k]));
    }
    assert forall|k: int| 0 <= k < nt.len() implies other_criterion()(#[trigger] nt[k]) by {}
    lemma_filter_all(nt, other_criterion());
    assert(nc.filter(other_criterion()) == nt) by {
        reveal(Seq::filter);
        assert(nc.drop_last() =~= nt);
        assert(!other_criterion()(nc.last()));
    }
}

/// With a single tag criterion, cycling the tag filter moves it along the tags of the
/// entries: from "no tags" to the least tag, from a tag to the next greater one, and from the
/// greatest tag to "no tags"; every other criterion stays where it is.
pub proof fn law_cycle_moves_single_tag(s: AppView, k: int, t: Seq<char>)
    requires
        s.filter is Some,
        0 <= k < s.filter.unwrap().criteria.len(),
        s.filter.unwrap().criteria[k] is Tag,
        forall|j: int|
            0 <= j < s.filter.unwrap().criteria.len() && (#[trigger] s.filter.unwrap().criteria[j] is Tag)
                ==> j == k,
        all_tags_set(s.entries).contains(t),
    ensures
        ({
            let c = s.filter.unwrap().criteria;
            let f = tags_cycled_spec(s).filter;
            let nc = f.unwrap().criteria;
            &&& f is Some
            &&& f.unwrap().relation == s.filter.unwrap().relation
            &&& nc.len() == c.len()
            &&& forall|j: int| 0 <= j < c.len() && j != k ==> #[trigger] nc[j] == c[j]
            &&& c[k] == CriterionView::Tag(TagOptionView::NoTags) ==> (nc[k] matches CriterionView::Tag(
                TagOptionView::Tag(u),
            ) && least_tag(s.entries, u))
            &&& forall|u: Seq<char>|
                c[k] == CriterionView::Tag(TagOptionView::Tag(u)) && #[trigger] greatest_tag(
                    s.entries,
                    u,
                ) ==> nc[k] == CriterionView::Tag(TagOptionView::NoTags)
            &&& forall|u: Seq<char>, v: Seq<char>|
                c[k] == CriterionView::Tag(TagOptionView::Tag(u)) && all_tags_set(s.entries).contains(u)
                    && #[trigger] next_greater_tag(s.entries, u, v) ==> nc[k] == CriterionView::Tag(
                    TagOptionView::Tag(v),
                )
            &&& tags_cycled_spec(s).filtered_out == filtered_out_spec(s.entries, f)
        }),
{
    let es = s.entries;
    let st = all_tags_set(es);
    lemma_sorted_tags(es, t);
    let tags = sorted_list(st);
    let n = tags.len();
    let opts = tag_options(tags);
    assert(opts.len() == n + 1);
    assert(forall|x: int| 0 <= x < n ==> opts[x] == TagOptionView::Tag(tags[x]));
    assert(opts[n as int] == TagOptionView::NoTags);
    let c = s.filter.unwrap().criteria;
    assert(tag_criterion() == (|x: CriterionView| is_tag_criterion(x)));
    lemma_filter_one(c, tag_criterion(), k);
    assert(is_first_tag_criterion(c, k));
    let k2 = first_tag_criterion(c);
    assert(is_first_tag_criterion(c, k2));
    assert(k2 == k);
    let cur = c[k]->Tag_0;
    let next = (option_pos(opts, cur) + 1) % (opts.len() as int);
    let nc = tags_cycled_spec(s).filter.unwrap().criteria;
    assert(nc == c.update(k, CriterionView::Tag(opts[next])));
    if cur == TagOptionView::NoTags {
        crate::app::lemma_option_pos(tags, n as int);
        assert(option_pos(opts, cur) == n);
        vstd::arithmetic::div_mod::lemma_mod_self_0((n + 1) as int);
        assert(next == 0);
    }
    assert forall|u: Seq<char>|
        c[k] == CriterionView::Tag(TagOptionView::Tag(u)) && #[trigger] greatest_tag(
            es,
            u,
        ) implies nc[k] == CriterionView::Tag(TagOptionView::NoTags) by {
        assert(tags.to_set().contains(u));
        let i = choose|i: int| 0 <= i < n && tags[i] == u;
        if i < n - 1 {
            assert(text_lt(tags[i], tags[i + 1]));
            assert(tags.to_set().contains(tags[i + 1]));
            assert(text_lt(tags[i + 1], u));
            lemma_text_lt_asymmetric(u, tags[i + 1]);
        }
        assert(opts[i] == cur);
        crate::app::lemma_option_pos(tags, i);
        vstd::arithmetic::div_mod::lemma_small_mod(n as nat, (n + 1) as nat);
    }
    assert forall|u: Seq<char>, v: Seq<char>|
        c[k] == CriterionView::Tag(TagOptionView::Tag(u)) && all_tags_set(es).contains(u)
            && #[trigger] next_greater_tag(es, u, v) implies nc[k] == CriterionView::Tag(
        TagOptionView::Tag(v),
    ) by {
        assert(tags.to_set().contains(u));
        let i = choose|i: int| 0 <= i < n && tags[i] == u;
        assert(tags.to_set().contains(v));
        let m = choose|m: int| 0 <= m < n && tags[m] == v;
        if m <= i {
            if m < i {
                assert(text_lt(tags[m], tags[i]));
                lemma_text_lt_asymmetric(v, u);
            } else {
                lemma_text_lt_irreflexive(u);
            }
        }
        assert(i + 1 < n);
        if m > i + 1 {
            let w = tags[i + 1];
            assert(text_lt(tags[i], tags[i + 1]));
            assert(text_lt(tags[i + 1], tags[m]));
            assert(st.contains(w));
            lemma_text_lt_irreflexive(w);
            assert(w != v);
            assert(text_lt(v, w));
            lemma_text_lt_asymmetric(v, w);
        }
        assert(m == i + 1);
        assert(opts[i] == cur);
        crate::app::lemma_option_pos(tags, i);
        vstd::arithmetic::div_mod::lemma_small_mod((i + 1) as nat, (n + 1) as nat);
    }
}

} // verus!
