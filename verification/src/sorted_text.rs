//! Lists of distinct strings kept in increasing order.
use vstd::prelude::*;

use crate::text::{
    compare_text, lemma_text_lt_irreflexive, lemma_text_lt_transitive, text_lt, views, TextOrder,
};

verus! {

/// Every string comes before the next ones: the strings are distinct and in increasing order.
pub open spec fn strictly_sorted(s: Seq<Seq<char>>) -> bool {
    forall|i: int, j: int| 0 <= i < j < s.len() ==> text_lt(#[trigger] s[i], #[trigger] s[j])
}

/// The strings of the finite set `st` in increasing order.
pub open spec fn sorted_list(st: Set<Seq<char>>) -> Seq<Seq<char>> {
    choose|s: Seq<Seq<char>>| strictly_sorted(s) && s.to_set() == st
}

/// Two increasing lists with the same strings are the same list.
pub proof fn lemma_sorted_unique(a: Seq<Seq<char>>, b: Seq<Seq<char>>)
    requires
        strictly_sorted(a),
        strictly_sorted(b),
        a.to_set() == b.to_set(),
    ensures
        a == b,
    decreases a.len(),
{
    if a.len() == 0 {
        if b.len() > 0 {
            assert(b.to_set().contains(b[0]));
            assert(!a.to_set().contains(b[0]));
        }
        assert(a =~= b);
    } else {
        assert(a.to_set().contains(a[0]));
        assert(b.to_set().contains(a[0]));
        let j = choose|j: int| 0 <= j < b.len() && b[j] == a[0];
        assert(b.len() > 0);
        assert(b.to_set().contains(b[0]));
        assert(a.to_set().contains(b[0]));
        let i = choose|i: int| 0 <= i < a.len() && a[i] == b[0];
        if j > 0 {
            assert(text_lt(b[0], b[j]));
            if i > 0 {
                assert(text_lt(a[0], a[i]));
                lemma_text_lt_transitive(b[0], a[0], b[0]);
                lemma_text_lt_irreflexive(b[0]);
            } else {
                lemma_text_lt_irreflexive(b[0]);
            }
        }
        assert(j == 0);
        let a2 = a.drop_first();
        let b2 = b.drop_first();
        assert(strictly_sorted(a2)) by {
            assert forall|x: int, y: int| 0 <= x < y < a2.len() implies text_lt(
                #[trigger] a2[x],
                #[trigger] a2[y],
            ) by {
                assert(a2[x] == a[x + 1] && a2[y] == a[y + 1]);
            }
        }
        assert(strictly_sorted(b2)) by {
            assert forall|x: int, y: int| 0 <= x < y < b2.len() implies text_lt(
                #[trigger] b2[x],
                #[trigger] b2[y],
            ) by {
                assert(b2[x] == b[x + 1] && b2[y] == b[y + 1]);
            }
        }
        assert(a2.to_set() =~= b2.to_set()) by {
            assert forall|t: Seq<char>| a2.to_set().contains(t) implies b2.to_set().contains(t) by {
                let x = choose|x: int| 0 <= x < a2.len() && a2[x] == t;
                assert(a.to_set().contains(t) && a[x + 1] == t);
                let y = choose|y: int| 0 <= y < b.len() && b[y] == t;
                if y == 0 {
                    assert(text_lt(a[0], a[x + 1]));
                    lemma_text_lt_irreflexive(t);
                }
                assert(b2[y - 1] == t);
            }
            assert forall|t: Seq<char>| b2.to_set().contains(t) implies a2.to_set().contains(t) by {
                let y = choose|y: int| 0 <= y < b2.len() && b2[y] == t;
                assert(b.to_set().contains(t) && b[y + 1] == t);
                let x = choose|x: int| 0 <= x < a.len() && a[x] == t;
                if x == 0 {
                    assert(text_lt(b[0], b[y + 1]));
                    lemma_text_lt_irreflexive(t);
                }
                assert(a2[x - 1] == t);
            }
        }
        lemma_sorted_unique(a2, b2);
        assert(a =~= seq![a[0]] + a2);
        assert(b =~= seq![b[0]] + b2);
    }
}

/// An increasing list with the strings of `st` is `sorted_list(st)`.
pub proof fn lemma_sorted_list(s: Seq<Seq<char>>, st: Set<Seq<char>>)
    requires
        strictly_sorted(s),
        s.to_set() == st,
    ensures
        sorted_list(st) == s,
{
    let t = sorted_list(st);
    assert(strictly_sorted(t) && t.to_set() == st);
    lemma_sorted_unique(s, t);
}

/// Adds `t` to the increasing list `v` unless it is there already.
pub fn insert_sorted(v: &mut Vec<String>, t: &String)
    requires
        strictly_sorted(views(old(v)@)),
    ensures
        strictly_sorted(views(final(v)@)),
        views(final(v)@).to_set() == views(old(v)@).to_set().insert(t@),
{
    let ghost s = views(v@);
    let mut k: usize = 0;
    while k < v.len()
        invariant
            k <= v.len(),
            s == views(v@),
            strictly_sorted(s),
            forall|x: int| 0 <= x < k ==> text_lt(#[trigger] s[x], t@),
        ensures
            k <= v.len(),
            s == views(v@),
            forall|x: int| 0 <= x < k ==> text_lt(#[trigger] s[x], t@),
            k < v.len() ==> text_lt(t@, s[k as int]),
        decreases v.len() - k,
    {
        match compare_text(v[k].as_str(), t.as_str()) {
            TextOrder::Less => {
                assert(s[k as int] == v@[k as int]@);
            },
            TextOrder::Same => {
                assert(s[k as int] == t@);
                assert(s.to_set().insert(t@) =~= s.to_set());
                return;
            },
            TextOrder::Greater => {
                assert(s[k as int] == v@[k as int]@);
                break;
            },
        }
        k = k + 1;
    }
    proof {
        if k < v.len() {
            assert(s[k as int] == v@[k as int]@);
            assert(text_lt(t@, s[k as int]));
        }
    }
    v.insert(k, t.clone());
    let ghost r = views(v@);
    assert(r =~= s.insert(k as int, t@));
    proof {
        assert forall|i: int, j: int| 0 <= i < j < r.len() implies text_lt(
            #[trigger] r[i],
            #[trigger] r[j],
        ) by {
            if j < k {
                assert(r[i] == s[i] && r[j] == s[j]);
            } else if j == k {
                assert(r[i] == s[i]);
            } else if i < k {
                assert(r[i] == s[i] && r[j] == s[j - 1]);
                assert(text_lt(t@, s[k as int]));
                if j - 1 > k {
                    assert(text_lt(s[k as int], s[j - 1]));
                    lemma_text_lt_transitive(t@, s[k as int], s[j - 1]);
                }
                lemma_text_lt_transitive(s[i], t@, s[j - 1]);
            } else if i == k {
                assert(r[j] == s[j - 1]);
                if j - 1 > k {
                    assert(text_lt(s[k as int], s[j - 1]));
                    lemma_text_lt_transitive(t@, s[k as int], s[j - 1]);
                }
            } else {
                assert(r[i] == s[i - 1] && r[j] == s[j - 1]);
            }
        }
        assert(r.to_set() =~= s.to_set().insert(t@)) by {
            assert forall|x: Seq<char>| r.to_set().contains(x) implies s.to_set().insert(t@).contains(
                x,
            ) by {
                let i = choose|i: int| 0 <= i < r.len() && r[i] == x;
                if i < k {
                    assert(s[i] == x);
                } else if i > k {
                    assert(s[i - 1] == x);
                }
            }
            assert forall|x: Seq<char>| s.to_set().insert(t@).contains(x) implies r.to_set().contains(
                x,
            ) by {
                if x == t@ {
                    assert(r[k as int] == x);
                } else {
                    let i = choose|i: int| 0 <= i < s.len() && s[i] == x;
                    if i < k {
                        assert(r[i] == x);
                    } else {
                        assert(r[i + 1] == x);
                    }
                }
            }
        }
    }
}


/// `l` with `x` put in its place in increasing order, unless it is there already.
pub open spec fn sorted_insert(l: Seq<Seq<char>>, x: Seq<char>) -> Seq<Seq<char>>
    decreases l.len(),
{
    if l.len() == 0 {
        seq![x]
    } else if l[0] == x {
        l
    } else if text_lt(x, l[0]) {
        seq![x] + l
    } else {
        seq![l[0]] + sorted_insert(l.drop_first(), x)
    }
}

/// Putting a string in its place keeps an increasing list increasing, and adds just it.
pub proof fn lemma_sorted_insert(l: Seq<Seq<char>>, x: Seq<char>)
    requires
        strictly_sorted(l),
    ensures
        strictly_sorted(sorted_insert(l, x)),
        sorted_insert(l, x).to_set() == l.to_set().insert(x),
        forall|i: int|
            0 <= i < sorted_insert(l, x).len() ==> #[trigger] sorted_insert(l, x)[i] == x
                || l.contains(sorted_insert(l, x)[i]),
    decreases l.len(),
{
    let r = sorted_insert(l, x);
    if l.len() == 0 {
        assert(r.to_set() =~= l.to_set().insert(x)) by {
            assert(r[0] == x);
        }
    } else if l[0] == x {
        assert(l.to_set().insert(x) =~= l.to_set()) by {
            assert(l.contains(l[0]));
        }
    } else if text_lt(x, l[0]) {
        assert forall|i: int, j: int| 0 <= i < j < r.len() implies text_lt(
            #[trigger] r[i],
            #[trigger] r[j],
        ) by {
            if i == 0 {
                assert(r[j] == l[j - 1]);
                if j - 1 > 0 {
                    lemma_text_lt_transitive(x, l[0], l[j - 1]);
                }
            } else {
                assert(r[i] == l[i - 1] && r[j] == l[j - 1]);
            }
        }
        assert forall|i: int| 0 <= i < r.len() implies #[trigger] r[i] == x || l.contains(r[i]) by {
            if i > 0 {
                assert(r[i] == l[i - 1]);
            }
        }
        assert(r.to_set() =~= l.to_set().insert(x)) by {
            assert forall|y: Seq<char>| l.to_set().insert(x).contains(y) implies r.to_set().contains(
                y,
            ) by {
                if y != x {
                    let k = choose|k: int| 0 <= k < l.len() && l[k] == y;
                    assert(r[k + 1] == y);
                } else {
                    assert(r[0] == x);
                }
            }
        }
    } else {
        crate::text::lemma_text_lt_total(x, l[0]);
        let t = l.drop_first();
        assert(strictly_sorted(t)) by {
            assert forall|i: int, j: int| 0 <= i < j < t.len() implies text_lt(
                #[trigger] t[i],
                #[trigger] t[j],
            ) by {
                assert(t[i] == l[i + 1] && t[j] == l[j + 1]);
            }
        }
        lemma_sorted_insert(t, x);
        let rec = sorted_insert(t, x);
        assert(r == seq![l[0]] + rec);
        assert forall|i: int| 0 <= i < r.len() implies #[trigger] r[i] == x || l.contains(r[i]) by {
            if i > 0 {
                assert(r[i] == rec[i - 1]);
                if rec[i - 1] != x {
                    let k = choose|k: int| 0 <= k < t.len() && t[k] == rec[i - 1];
                    assert(l[k + 1] == rec[i - 1]);
                }
            } else {
                assert(l.contains(l[0]));
            }
        }
        assert forall|i: int, j: int| 0 <= i < j < r.len() implies text_lt(
            #[trigger] r[i],
            #[trigger] r[j],
        ) by {
            if i == 0 {
                assert(r[j] == rec[j - 1]);
                if rec[j - 1] != x {
                    let k = choose|k: int| 0 <= k < t.len() && t[k] == rec[j - 1];
                    assert(l[k + 1] == rec[j - 1]);
                }
            } else {
                assert(r[i] == rec[i - 1] && r[j] == rec[j - 1]);
            }
        }
        assert(r.to_set() =~= l.to_set().insert(x)) by {
            assert forall|y: Seq<char>| l.to_set().insert(x).contains(y) implies r.to_set().contains(
                y,
            ) by {
                if y == l[0] {
                    assert(r[0] == y);
                } else if y == x {
                    assert(rec.to_set().contains(x));
                    let k = choose|k: int| 0 <= k < rec.len() && rec[k] == x;
                    assert(r[k + 1] == x);
                } else {
                    let k = choose|k: int| 0 <= k < l.len() && l[k] == y;
                    assert(t[k - 1] == y);
                    assert(rec.to_set().contains(y));
                    let m = choose|m: int| 0 <= m < rec.len() && rec[m] == y;
                    assert(r[m + 1] == y);
                }
            }
            assert forall|y: Seq<char>| r.to_set().contains(y) implies l.to_set().insert(x).contains(
                y,
            ) by {
                let k = choose|k: int| 0 <= k < r.len() && r[k] == y;
                assert(r[k] == x || l.contains(r[k]));
            }
        }
    }
}

/// The strings of any list, once each, in increasing order, exist.
pub proof fn lemma_sorted_exists(s: Seq<Seq<char>>)
    ensures
        exists|l: Seq<Seq<char>>| strictly_sorted(l) && l.to_set() == s.to_set(),
    decreases s.len(),
{
    if s.len() == 0 {
        let l = Seq::<Seq<char>>::empty();
        assert(l.to_set() =~= s.to_set());
        assert(strictly_sorted(l));
    } else {
        let p = s.drop_last();
        lemma_sorted_exists(p);
        let l0 = choose|l: Seq<Seq<char>>| strictly_sorted(l) && l.to_set() == p.to_set();
        lemma_sorted_insert(l0, s.last());
        let l = sorted_insert(l0, s.last());
        assert(s =~= p.push(s.last()));
        assert(l.to_set() =~= s.to_set()) by {
            assert forall|y: Seq<char>| s.to_set().contains(y) implies l.to_set().contains(y) by {
                let k = choose|k: int| 0 <= k < s.len() && s[k] == y;
                if k < p.len() {
                    assert(p[k] == y);
                    assert(p.to_set().contains(y));
                }
            }
            assert forall|y: Seq<char>| l.to_set().contains(y) implies s.to_set().contains(y) by {
                if y == s.last() {
                    assert(s[s.len() - 1] == y);
                } else {
                    assert(p.to_set().contains(y));
                    let k = choose|k: int| 0 <= k < p.len() && p[k] == y;
                    assert(s[k] == y);
                }
            }
        }
    }
}

/// The first string of the increasing list of a non-empty set is in the set, and below every
/// other string of it.
pub proof fn lemma_sorted_list_first(s: Seq<Seq<char>>, st: Set<Seq<char>>)
    requires
        s.to_set() == st,
        s.len() > 0,
    ensures
        sorted_list(st).len() > 0,
        st.contains(sorted_list(st)[0]),
        forall|t: Seq<char>| #[trigger] st.contains(t) && t != sorted_list(st)[0] ==> text_lt(
            sorted_list(st)[0],
            t,
        ),
{
    lemma_sorted_exists(s);
    let l = choose|l: Seq<Seq<char>>| strictly_sorted(l) && l.to_set() == s.to_set();
    lemma_sorted_list(l, st);
    assert(st.contains(s[0]));
    assert(l.len() > 0) by {
        if l.len() == 0 {
            assert(l.to_set() =~= Set::<Seq<char>>::empty());
        }
    }
    assert(l.contains(l[0]));
    assert forall|t: Seq<char>| #[trigger] st.contains(t) && t != l[0] implies text_lt(l[0], t) by {
        let k = choose|k: int| 0 <= k < l.len() && l[k] == t;
        assert(k != 0);
    }
}

/// The strings of the increasing list of a set that some list holds: each is in the set, each
/// string of the set is there, and they increase.
pub proof fn lemma_sorted_list_of(s: Seq<Seq<char>>, st: Set<Seq<char>>)
    requires
        s.to_set() == st,
    ensures
        strictly_sorted(sorted_list(st)),
        sorted_list(st).to_set() == st,
{
    lemma_sorted_exists(s);
    let l = choose|l: Seq<Seq<char>>| strictly_sorted(l) && l.to_set() == s.to_set();
    lemma_sorted_list(l, st);
}

} // verus!
