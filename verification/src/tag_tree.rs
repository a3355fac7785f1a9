//! The folder hierarchy of entries: each entry sits at the node that its folder path names.
use vstd::prelude::*;

use crate::app::ref_views;
use crate::entry::{Entry, EntryView};
use crate::sorted_text::strictly_sorted;
use crate::text::{
    compare_text, lemma_split_nonempty, same_text, split_spec, split_terminator,
    split_terminator_spec, text_lt, views, TextOrder,
};

verus! {

/// A node in the folder-based hierarchy.
#[derive(Debug)]
pub struct TagTree {
    /// The sub-folders at this level, by name, in increasing order of names.
    pub subfolders: Vec<(String, TagTree)>,
    /// IDs of entries placed directly at this node.
    pub entry_ids: Vec<u32>,
}

/// The first child named `name`.
pub open spec fn find_child(children: Seq<(String, TagTree)>, name: Seq<char>) -> Option<TagTree>
    decreases children.len(),
{
    if children.len() == 0 {
        None
    } else if children[0].0@ == name {
        Some(children[0].1)
    } else {
        find_child(children.drop_first(), name)
    }
}

/// The node reached from `t` by following the names of `path`.
pub open spec fn node(t: TagTree, path: Seq<Seq<char>>) -> Option<TagTree>
    decreases path.len(),
{
    if path.len() == 0 {
        Some(t)
    } else {
        match find_child(t.subfolders@, path[0]) {
            Some(c) => node(c, path.drop_first()),
            None => None,
        }
    }
}

} // verus!

verus! {

/// A folder path split into its non-empty segments, with the id of an entry placed there.
pub type ItemView = (Seq<Seq<char>>, u32);

/// Whether an item is placed exactly at `p`.
pub open spec fn placed_at(p: Seq<Seq<char>>) -> spec_fn(ItemView) -> bool {
    |it: ItemView| it.0 == p
}

/// The id of an item.
pub open spec fn item_id() -> spec_fn(ItemView) -> u32 {
    |it: ItemView| it.1
}

/// Whether an item's path starts with the segment `name`.
pub open spec fn starts_in(name: Seq<char>) -> spec_fn(ItemView) -> bool {
    |it: ItemView| it.0.len() > 0 && it.0[0] == name
}

/// The item with the first segment of its path taken off.
pub open spec fn strip_first() -> spec_fn(ItemView) -> ItemView {
    |it: ItemView| (it.0.drop_first(), it.1)
}

/// The ids, in order, of the items placed exactly at `p`.
pub open spec fn ids_at(items: Seq<ItemView>, p: Seq<Seq<char>>) -> Seq<u32> {
    items.filter(placed_at(p)).map_values(item_id())
}

/// `p` is a prefix of the path `q`.
pub open spec fn path_prefix(p: Seq<Seq<char>>, q: Seq<Seq<char>>) -> bool {
    p.len() <= q.len() && q.subrange(0, p.len() as int) == p
}

/// The names of the folders directly below `p` that some item lies in or below.
pub open spec fn names_at(items: Seq<ItemView>, p: Seq<Seq<char>>) -> Set<Seq<char>> {
    Set::new(
        |n: Seq<char>|
            exists|i: int|
                0 <= i < items.len() && p.len() < items[i].0.len() && path_prefix(p, items[i].0)
                    && items[i].0[p.len() as int] == n,
    )
}

/// The tree has a node at `p`: the root, or a folder that some item lies in or below.
pub open spec fn reaches(items: Seq<ItemView>, p: Seq<Seq<char>>) -> bool {
    p.len() == 0 || exists|i: int| 0 <= i < items.len() && path_prefix(p, items[i].0)
}

/// The names of a list of sub-folders, in their order.
pub open spec fn names_of(children: Seq<(String, TagTree)>) -> Seq<Seq<char>> {
    children.map_values(|c: (String, TagTree)| c.0@)
}

/// The names of a node's sub-folders, in their order.
pub open spec fn child_names(t: TagTree) -> Seq<Seq<char>> {
    names_of(t.subfolders@)
}

/// The node at `p` holds the ids of the items placed there and, in increasing order, the
/// names of the folders below it.
pub open spec fn node_fits(n: TagTree, items: Seq<ItemView>, p: Seq<Seq<char>>) -> bool {
    &&& n.entry_ids@ == ids_at(items, p)
    &&& strictly_sorted(child_names(n))
    &&& child_names(n).to_set() == names_at(items, p)
}

/// `t` is the tree of `items`: it has a node exactly at the paths that the items reach, and
/// each node fits the items.
pub open spec fn tree_of(t: TagTree, items: Seq<ItemView>) -> bool {
    forall|p: Seq<Seq<char>>|
        (#[trigger] node(t, p) is Some <==> reaches(items, p)) && (node(t, p) is Some ==> node_fits(
            node(t, p).unwrap(),
            items,
            p,
        ))
}

/// The items below the folder `name`, with that first segment taken off their paths.
pub open spec fn sub_items(items: Seq<ItemView>, name: Seq<char>) -> Seq<ItemView> {
    items.filter(starts_in(name)).map_values(strip_first())
}

/// The `j`-th item below `name` comes from the `i`-th item.
pub open spec fn sub_item_from(items: Seq<ItemView>, name: Seq<char>, j: int, i: int) -> bool {
    &&& 0 <= i < items.len()
    &&& items[i].0.len() > 0
    &&& items[i].0[0] == name
    &&& sub_items(items, name)[j].0 == items[i].0.drop_first()
    &&& sub_items(items, name)[j].1 == items[i].1
}

/// The `j`-th item below `name` comes from some item.
pub open spec fn sub_item_sourced(items: Seq<ItemView>, name: Seq<char>, j: int) -> bool {
    exists|i: int| sub_item_from(items, name, j, i)
}

/// The items below `name` are those of `items` whose first segment is `name`.
pub proof fn lemma_sub_items_members(items: Seq<ItemView>, name: Seq<char>)
    ensures
        forall|j: int|
            0 <= j < sub_items(items, name).len() ==> #[trigger] sub_item_sourced(items, name, j),
        forall|i: int|
            0 <= i < items.len() && items[i].0.len() > 0 && #[trigger] items[i].0[0] == name
                ==> sub_items(items, name).contains((items[i].0.drop_first(), items[i].1)),
    decreases items.len(),
{
    reveal(Seq::filter);
    if items.len() > 0 {
        let prev = items.drop_last();
        lemma_sub_items_members(prev, name);
        let it = items.last();
        let pred = starts_in(name);
        let strip = strip_first();
        assert(items.filter(pred) == if pred(it) {
            prev.filter(pred).push(it)
        } else {
            prev.filter(pred)
        });
        if pred(it) {
            assert(sub_items(items, name) =~= sub_items(prev, name).push(strip(it)));
        } else {
            assert(sub_items(items, name) =~= sub_items(prev, name));
        }
        assert forall|j: int| 0 <= j < sub_items(items, name).len() implies #[trigger] sub_item_sourced(
            items,
            name,
            j,
        ) by {
            if j < sub_items(prev, name).len() {
                assert(sub_items(items, name)[j] == sub_items(prev, name)[j]);
                assert(sub_item_sourced(prev, name, j));
                let i = choose|i: int| sub_item_from(prev, name, j, i);
                assert(items[i] == prev[i]);
                assert(sub_item_from(items, name, j, i));
            } else {
                assert(items[items.len() - 1] == it);
                assert(sub_item_from(items, name, j, items.len() - 1));
            }
        }
        assert forall|i: int|
            0 <= i < items.len() && items[i].0.len() > 0 && #[trigger] items[i].0[0] == name
                implies sub_items(items, name).contains((items[i].0.drop_first(), items[i].1)) by {
            if i < prev.len() {
                assert(prev[i] == items[i]);
                assert(prev[i].0[0] == name);
                assert(sub_items(prev, name).contains((prev[i].0.drop_first(), prev[i].1)));
                let j = choose|j: int|
                    0 <= j < sub_items(prev, name).len() && sub_items(prev, name)[j] == (
                        prev[i].0.drop_first(),
                        prev[i].1,
                    );
                assert(sub_items(items, name)[j] == sub_items(prev, name)[j]);
            } else {
                assert(sub_items(items, name)[sub_items(items, name).len() - 1] == strip(it));
            }
        }
    } else {
        assert(items.filter(starts_in(name)) == items);
        assert(sub_items(items, name).len() == 0);
    }
}

/// The ids at `rest` below `name` are the ids at `name` followed by `rest`.
pub proof fn lemma_sub_items_ids(items: Seq<ItemView>, name: Seq<char>, rest: Seq<Seq<char>>)
    ensures
        ids_at(sub_items(items, name), rest) == ids_at(items, seq![name] + rest),
    decreases items.len(),
{
    reveal(Seq::filter);
    let full = seq![name] + rest;
    let at_full = placed_at(full);
    let at_rest = placed_at(rest);
    let id_of = item_id();
    let pred = starts_in(name);
    let strip = strip_first();
    if items.len() > 0 {
        let prev = items.drop_last();
        lemma_sub_items_ids(prev, name, rest);
        let it = items.last();
        let s = sub_items(items, name);
        let sp = sub_items(prev, name);
        let lp = sp.filter(at_rest);
        let rp = prev.filter(at_full);
        assert(lp.map_values(id_of) == rp.map_values(id_of));
        assert(items.filter(pred) == if pred(it) {
            prev.filter(pred).push(it)
        } else {
            prev.filter(pred)
        });
        assert(items.filter(at_full) == if at_full(it) {
            rp.push(it)
        } else {
            rp
        });
        let st = strip(it);
        if pred(it) {
            assert(at_rest(st) == at_full(it)) by {
                if it.0 == full {
                    assert(it.0.drop_first() =~= rest);
                }
                if it.0.drop_first() == rest {
                    assert(it.0 =~= full);
                }
            }
            assert(s =~= sp.push(st));
            assert(s.drop_last() =~= sp);
            assert(s.last() == st);
            assert(s.filter(at_rest) == if at_rest(st) {
                lp.push(st)
            } else {
                lp
            });
            if at_rest(st) {
                assert(lp.push(st).map_values(id_of) =~= lp.map_values(id_of).push(st.1));
                assert(rp.push(it).map_values(id_of) =~= rp.map_values(id_of).push(it.1));
            }
        } else {
            assert(s =~= sp);
            assert(!at_full(it)) by {
                if it.0 == full {
                    assert(it.0[0] == full[0]);
                }
            }
        }
    } else {
        assert(sub_items(items, name) =~= Seq::<ItemView>::empty());
        assert(ids_at(sub_items(items, name), rest) =~= Seq::<u32>::empty());
        assert(ids_at(items, full) =~= Seq::<u32>::empty());
    }
}

/// For a path that starts with `name`, `name` followed by `r` is a prefix of it exactly when
/// `r` is a prefix of the rest of it.
pub proof fn lemma_prefix_cons(name: Seq<char>, r: Seq<Seq<char>>, q: Seq<Seq<char>>)
    requires
        q.len() > 0,
        q[0] == name,
    ensures
        path_prefix(seq![name] + r, q) == path_prefix(r, q.drop_first()),
        forall|k: int| 0 <= k < q.len() - 1 ==> q[k + 1] == #[trigger] q.drop_first()[k],
{
    let full = seq![name] + r;
    let d = q.drop_first();
    if path_prefix(r, d) {
        assert(q.subrange(0, full.len() as int) =~= full) by {
            assert forall|k: int| 0 <= k < full.len() implies q.subrange(0, full.len() as int)[k]
                == full[k] by {
                if k > 0 {
                    assert(q[k] == d[k - 1]);
                    assert(d.subrange(0, r.len() as int)[k - 1] == r[k - 1]);
                }
            }
        }
    }
    if path_prefix(full, q) {
        assert(d.subrange(0, r.len() as int) =~= r) by {
            assert forall|k: int| 0 <= k < r.len() implies d.subrange(0, r.len() as int)[k] == r[k] by {
                assert(q.subrange(0, full.len() as int)[k + 1] == full[k + 1]);
            }
        }
    }
}

/// A path below `name` reaches exactly when the full path does, and has the same names
/// below; a full path that reaches has `name` among the top folders.
pub proof fn lemma_sub_items_paths(items: Seq<ItemView>, name: Seq<char>, rest: Seq<Seq<char>>)
    ensures
        rest.len() > 0 ==> (reaches(sub_items(items, name), rest) <==> reaches(
            items,
            seq![name] + rest,
        )),
        reaches(items, seq![name] + rest) ==> names_at(items, Seq::empty()).contains(name),
        names_at(sub_items(items, name), rest) == names_at(items, seq![name] + rest),
{
    lemma_sub_items_members(items, name);
    let s = sub_items(items, name);
    let full = seq![name] + rest;
    let empty = Seq::<Seq<char>>::empty();
    if reaches(s, rest) && rest.len() > 0 {
        let j = choose|j: int| 0 <= j < s.len() && path_prefix(rest, s[j].0);
        assert(sub_item_sourced(items, name, j));
        let i = choose|i: int| sub_item_from(items, name, j, i);
        lemma_prefix_cons(name, rest, items[i].0);
        assert(reaches(items, full));
    }
    if reaches(items, full) {
        let i = choose|i: int| 0 <= i < items.len() && path_prefix(full, items[i].0);
        assert(items[i].0.subrange(0, full.len() as int)[0] == full[0]);
        assert(items[i].0[0] == name);
        lemma_prefix_cons(name, rest, items[i].0);
        assert(path_prefix(empty, items[i].0)) by {
            assert(items[i].0.subrange(0, 0) =~= empty);
        }
        assert(names_at(items, empty).contains(name));
        assert(s.contains((items[i].0.drop_first(), items[i].1)));
        let j = choose|j: int| 0 <= j < s.len() && s[j] == (items[i].0.drop_first(), items[i].1);
        assert(path_prefix(rest, s[j].0));
    }
    assert forall|n: Seq<char>| names_at(s, rest).contains(n) implies names_at(items, full).contains(
        n,
    ) by {
        let j = choose|j: int|
            0 <= j < s.len() && rest.len() < s[j].0.len() && path_prefix(rest, s[j].0)
                && s[j].0[rest.len() as int] == n;
        assert(sub_item_sourced(items, name, j));
        let i = choose|i: int| sub_item_from(items, name, j, i);
        lemma_prefix_cons(name, rest, items[i].0);
        assert(items[i].0[full.len() as int] == items[i].0.drop_first()[rest.len() as int]);
    }
    assert forall|n: Seq<char>| names_at(items, full).contains(n) implies names_at(s, rest).contains(
        n,
    ) by {
        let i = choose|i: int|
            0 <= i < items.len() && full.len() < items[i].0.len() && path_prefix(full, items[i].0)
                && items[i].0[full.len() as int] == n;
        assert(items[i].0.subrange(0, full.len() as int)[0] == full[0]);
        lemma_prefix_cons(name, rest, items[i].0);
        assert(s.contains((items[i].0.drop_first(), items[i].1)));
        let j = choose|j: int| 0 <= j < s.len() && s[j] == (items[i].0.drop_first(), items[i].1);
        assert(items[i].0[full.len() as int] == items[i].0.drop_first()[rest.len() as int]);
    }
    assert(names_at(s, rest) =~= names_at(items, full));
}


/// The names of `children` are pairwise different.
pub open spec fn names_distinct(children: Seq<(String, TagTree)>) -> bool {
    forall|a: int, b: int|
        0 <= a < children.len() && 0 <= b < children.len() && a != b ==> children[a].0@
            != children[b].0@
}

/// With pairwise different names, the child found by name is the one with that name.
pub proof fn lemma_find_child(children: Seq<(String, TagTree)>, name: Seq<char>)
    requires
        names_distinct(children),
    ensures
        forall|k: int|
            0 <= k < children.len() && children[k].0@ == name ==> find_child(children, name)
                == Some(#[trigger] children[k].1),
        (forall|k: int| 0 <= k < children.len() ==> children[k].0@ != name) ==> find_child(
            children,
            name,
        ) is None,
    decreases children.len(),
{
    if children.len() > 0 {
        let rest = children.drop_first();
        assert(names_distinct(rest)) by {
            assert forall|a: int, b: int|
                0 <= a < rest.len() && 0 <= b < rest.len() && a != b implies rest[a].0@
                != rest[b].0@ by {
                assert(rest[a] == children[a + 1] && rest[b] == children[b + 1]);
            }
        }
        lemma_find_child(rest, name);
        assert forall|k: int|
            0 <= k < children.len() && children[k].0@ == name implies find_child(children, name)
            == Some(#[trigger] children[k].1) by {
            if k > 0 {
                assert(children[0].0@ != name);
                assert(rest[k - 1] == children[k]);
            }
        }
        if forall|k: int| 0 <= k < children.len() ==> children[k].0@ != name {
            assert forall|k: int| 0 <= k < rest.len() implies rest[k].0@ != name by {
                assert(rest[k] == children[k + 1]);
            }
        }
    }
}

/// A node whose ids and child names fit the items placed at and below it, and whose children
/// are the trees of the items below their names, is the tree of the items.
pub proof fn lemma_tree_of_node(t: TagTree, items: Seq<ItemView>)
    requires
        t.entry_ids@ == ids_at(items, Seq::empty()),
        strictly_sorted(child_names(t)),
        child_names(t).to_set() == names_at(items, Seq::empty()),
        names_distinct(t.subfolders@),
        forall|x: int|
            0 <= x < t.subfolders@.len() ==> tree_of(
                (#[trigger] t.subfolders@[x]).1,
                sub_items(items, t.subfolders@[x].0@),
            ),
    ensures
        tree_of(t, items),
{
    let empty = Seq::<Seq<char>>::empty();
    let names = child_names(t);
    assert forall|p: Seq<Seq<char>>|
        (#[trigger] node(t, p) is Some <==> reaches(items, p)) && (node(t, p) is Some ==> node_fits(
            node(t, p).unwrap(),
            items,
            p,
        )) by {
        if p.len() == 0 {
            assert(p =~= empty);
        } else {
            let n = p[0];
            let r = p.drop_first();
            assert(p =~= seq![n] + r);
            lemma_find_child(t.subfolders@, n);
            lemma_sub_items_paths(items, n, r);
            if exists|k: int| 0 <= k < t.subfolders@.len() && t.subfolders@[k].0@ == n {
                let k = choose|k: int| 0 <= k < t.subfolders@.len() && t.subfolders@[k].0@ == n;
                let c = t.subfolders@[k].1;
                let sub = sub_items(items, n);
                assert(find_child(t.subfolders@, n) == Some(c));
                assert(node(t, p) == node(c, r));
                assert(tree_of(c, sub));
                assert(node(c, r) is Some <==> reaches(sub, r));
                lemma_sub_items_ids(items, n, r);
                if r.len() == 0 {
                    assert(names[k] == n);
                    assert(names.to_set().contains(n));
                    assert(names_at(items, empty).contains(n));
                    let i = choose|i: int|
                        0 <= i < items.len() && empty.len() < items[i].0.len() && path_prefix(
                            empty,
                            items[i].0,
                        ) && items[i].0[0] == n;
                    assert(items[i].0.subrange(0, 1) =~= seq![n]);
                    assert(r =~= empty);
                    assert(p =~= seq![n]);
                    assert(path_prefix(p, items[i].0));
                }
            } else {
                assert(!names.to_set().contains(n)) by {
                    if names.to_set().contains(n) {
                        let k = choose|k: int| 0 <= k < names.len() && names[k] == n;
                        assert(t.subfolders@[k].0@ == n);
                    }
                }
                assert(find_child(t.subfolders@, n) is None);
            }
        }
    }
}

/// Names in increasing order are pairwise different.
proof fn lemma_sorted_distinct(children: Seq<(String, TagTree)>)
    requires
        strictly_sorted(names_of(children)),
    ensures
        names_distinct(children),
{
    assert forall|a: int, b: int|
        0 <= a < children.len() && 0 <= b < children.len() && a != b implies children[a].0@
        != children[b].0@ by {
        let names = names_of(children);
        assert(names[a] == children[a].0@ && names[b] == children[b].0@);
        if a < b {
            assert(crate::text::text_lt(names[a], names[b]));
        } else {
            assert(crate::text::text_lt(names[b], names[a]));
        }
        crate::text::lemma_text_lt_irreflexive(names[a]);
    }
}

/// An empty node is the tree of no items.
proof fn lemma_empty_tree(t: TagTree)
    requires
        t.subfolders@.len() == 0,
        t.entry_ids@.len() == 0,
    ensures
        tree_of(t, Seq::empty()),
{
    let items = Seq::<ItemView>::empty();
    let empty = Seq::<Seq<char>>::empty();
    assert(items.filter(placed_at(empty)) =~= items) by {
        reveal(Seq::filter);
    }
    assert(t.entry_ids@ =~= ids_at(items, empty));
    assert(child_names(t).to_set() =~= names_at(items, empty));
    lemma_tree_of_node(t, items);
}

/// The items below `n` after one more item.
proof fn lemma_sub_items_push(items: Seq<ItemView>, n: Seq<char>, it: ItemView)
    ensures
        sub_items(items.push(it), n) == (if starts_in(n)(it) {
            sub_items(items, n).push(strip_first()(it))
        } else {
            sub_items(items, n)
        }),
{
    reveal(Seq::filter);
    assert(items.push(it).drop_last() =~= items);
    let f = items.filter(starts_in(n));
    if starts_in(n)(it) {
        assert(f.push(it).map_values(strip_first()) =~= f.map_values(strip_first()).push(
            strip_first()(it),
        ));
    }
}

/// The ids placed at `p` after one more item.
proof fn lemma_ids_push(items: Seq<ItemView>, it: ItemView, p: Seq<Seq<char>>)
    ensures
        ids_at(items.push(it), p) == (if it.0 == p {
            ids_at(items, p).push(it.1)
        } else {
            ids_at(items, p)
        }),
{
    reveal(Seq::filter);
    assert(items.push(it).drop_last() =~= items);
    let f = items.filter(placed_at(p));
    if it.0 == p {
        assert(f.push(it).map_values(item_id()) =~= f.map_values(item_id()).push(it.1));
    }
}

/// The top folder names after one more item.
proof fn lemma_names_push(items: Seq<ItemView>, it: ItemView)
    ensures
        names_at(items.push(it), Seq::empty()) == (if it.0.len() > 0 {
            names_at(items, Seq::empty()).insert(it.0[0])
        } else {
            names_at(items, Seq::empty())
        }),
{
    let empty = Seq::<Seq<char>>::empty();
    let items2 = items.push(it);
    assert(path_prefix(empty, it.0)) by {
        assert(it.0.subrange(0, 0) =~= empty);
    }
    assert forall|n: Seq<char>| names_at(items2, empty).contains(n) implies (if it.0.len() > 0 {
        names_at(items, empty).insert(it.0[0])
    } else {
        names_at(items, empty)
    }).contains(n) by {
        let i = choose|i: int|
            0 <= i < items2.len() && empty.len() < items2[i].0.len() && path_prefix(
                empty,
                items2[i].0,
            ) && items2[i].0[empty.len() as int] == n;
        if i < items.len() {
            assert(items2[i] == items[i]);
        }
    }
    assert forall|n: Seq<char>| (if it.0.len() > 0 {
        names_at(items, empty).insert(it.0[0])
    } else {
        names_at(items, empty)
    }).contains(n) implies names_at(items2, empty).contains(n) by {
        if names_at(items, empty).contains(n) {
            let i = choose|i: int|
                0 <= i < items.len() && empty.len() < items[i].0.len() && path_prefix(
                    empty,
                    items[i].0,
                ) && items[i].0[empty.len() as int] == n;
            assert(items2[i] == items[i]);
        } else {
            assert(items2[items.len() as int] == it);
        }
    }
    assert(names_at(items2, empty) =~= (if it.0.len() > 0 {
        names_at(items, empty).insert(it.0[0])
    } else {
        names_at(items, empty)
    }));
}

/// A child of the tree of `items` is the tree of the items below its name; the children's
/// names are pairwise different.
proof fn lemma_child_tree(t: TagTree, items: Seq<ItemView>, k: int)
    requires
        tree_of(t, items),
        0 <= k < t.subfolders@.len(),
    ensures
        names_distinct(t.subfolders@),
        tree_of(t.subfolders@[k].1, sub_items(items, t.subfolders@[k].0@)),
{
    let empty = Seq::<Seq<char>>::empty();
    assert(node(t, empty) == Some(t));
    assert(node_fits(t, items, empty));
    lemma_sorted_distinct(t.subfolders@);
    let n = t.subfolders@[k].0@;
    let c = t.subfolders@[k].1;
    let sub = sub_items(items, n);
    lemma_find_child(t.subfolders@, n);
    assert(find_child(t.subfolders@, n) == Some(c));
    assert forall|q: Seq<Seq<char>>|
        (#[trigger] node(c, q) is Some <==> reaches(sub, q)) && (node(c, q) is Some ==> node_fits(
            node(c, q).unwrap(),
            sub,
            q,
        )) by {
        let full = seq![n] + q;
        assert(full.len() > 0);
        assert(full[0] == n);
        assert(full.drop_first() =~= q);
        assert(node(t, full) == node(c, q));
        assert(node(t, full) is Some <==> reaches(items, full));
        lemma_sub_items_paths(items, n, q);
        lemma_sub_items_ids(items, n, q);
    }
}

/// When no item lies below `n`, no item is in `sub_items(items, n)`.
proof fn lemma_sub_items_none(items: Seq<ItemView>, n: Seq<char>)
    requires
        !names_at(items, Seq::empty()).contains(n),
    ensures
        sub_items(items, n) == Seq::<ItemView>::empty(),
{
    let empty = Seq::<Seq<char>>::empty();
    lemma_sub_items_members(items, n);
    if sub_items(items, n).len() > 0 {
        assert(sub_item_sourced(items, n, 0));
        let i = choose|i: int| sub_item_from(items, n, 0, i);
        assert(path_prefix(empty, items[i].0)) by {
            assert(items[i].0.subrange(0, 0) =~= empty);
        }
        assert(names_at(items, empty).contains(n));
    }
    assert(sub_items(items, n) =~= Seq::<ItemView>::empty());
}

/// Adding an id at the root of the tree of `items` gives the tree of `items` with an item at
/// the root.
proof fn lemma_push_at_root(t: TagTree, t2: TagTree, items: Seq<ItemView>, id: u32)
    requires
        tree_of(t, items),
        t2.subfolders@ == t.subfolders@,
        t2.entry_ids@ == t.entry_ids@.push(id),
    ensures
        tree_of(t2, items.push((Seq::empty(), id))),
{
    let empty = Seq::<Seq<char>>::empty();
    let it: ItemView = (empty, id);
    let items2 = items.push(it);
    assert(node(t, empty) == Some(t));
    assert(node_fits(t, items, empty));
    lemma_ids_push(items, it, empty);
    lemma_names_push(items, it);
    lemma_sorted_distinct(t.subfolders@);
    assert forall|x: int| 0 <= x < t2.subfolders@.len() implies tree_of(
        (#[trigger] t2.subfolders@[x]).1,
        sub_items(items2, t2.subfolders@[x].0@),
    ) by {
        lemma_child_tree(t, items, x);
        lemma_sub_items_push(items, t.subfolders@[x].0@, it);
    }
    lemma_tree_of_node(t2, items2);
}

/// Putting a child that is the tree of the items below its name, one more item `(p, id)`
/// among them, into the tree of `items` gives the tree of `items` with that item.
proof fn lemma_insert_step(
    t0: TagTree,
    t1: TagTree,
    mid: Seq<(String, TagTree)>,
    k: int,
    items: Seq<ItemView>,
    p: Seq<Seq<char>>,
    id: u32,
)
    requires
        tree_of(t0, items),
        p.len() > 0,
        0 <= k < mid.len(),
        mid[k].0@ == p[0],
        strictly_sorted(names_of(mid)),
        names_of(t0.subfolders@).contains(p[0]) ==> mid == t0.subfolders@,
        !names_of(t0.subfolders@).contains(p[0]) ==> mid.len() == t0.subfolders@.len() + 1 && mid
            == t0.subfolders@.insert(k, mid[k]),
        t1.entry_ids@ == t0.entry_ids@,
        t1.subfolders@ == mid.update(k, (mid[k].0, t1.subfolders@[k].1)),
        tree_of(t1.subfolders@[k].1, sub_items(items, p[0]).push((p.drop_first(), id))),
    ensures
        tree_of(t1, items.push((p, id))),
{
    let empty = Seq::<Seq<char>>::empty();
    let it: ItemView = (p, id);
    let items2 = items.push(it);
    assert(node(t0, empty) == Some(t0));
    assert(node_fits(t0, items, empty));
    lemma_ids_push(items, it, empty);
    assert(it.0 != empty);
    lemma_names_push(items, it);
    assert(names_of(t1.subfolders@) =~= names_of(mid));
    assert(names_of(mid).to_set() =~= names_of(t0.subfolders@).to_set().insert(p[0])) by {
        if names_of(t0.subfolders@).contains(p[0]) {
        } else {
            assert(names_of(mid) =~= names_of(t0.subfolders@).insert(k, p[0]));
            assert forall|x: Seq<char>| names_of(mid).to_set().contains(x) implies names_of(
                t0.subfolders@,
            ).to_set().insert(p[0]).contains(x) by {
                let i = choose|i: int| 0 <= i < names_of(mid).len() && names_of(mid)[i] == x;
                if i < k {
                    assert(names_of(t0.subfolders@)[i] == x);
                } else if i > k {
                    assert(names_of(t0.subfolders@)[i - 1] == x);
                }
            }
            assert forall|x: Seq<char>| names_of(t0.subfolders@).to_set().insert(p[0]).contains(x) implies names_of(
                mid,
            ).to_set().contains(x) by {
                if x != p[0] {
                    let i = choose|i: int|
                        0 <= i < names_of(t0.subfolders@).len() && names_of(t0.subfolders@)[i] == x;
                    if i < k {
                        assert(names_of(mid)[i] == x);
                    } else {
                        assert(names_of(mid)[i + 1] == x);
                    }
                } else {
                    assert(names_of(mid)[k] == x);
                }
            }
        }
    }
    lemma_sorted_distinct(t1.subfolders@);
    lemma_sorted_distinct(t0.subfolders@);
    assert forall|x: int| 0 <= x < t1.subfolders@.len() implies tree_of(
        (#[trigger] t1.subfolders@[x]).1,
        sub_items(items2, t1.subfolders@[x].0@),
    ) by {
        let name = t1.subfolders@[x].0@;
        lemma_sub_items_push(items, name, it);
        assert(x != k ==> t1.subfolders@[x] == mid[x]);
        if x == k {
            assert(starts_in(name)(it));
            assert(strip_first()(it) == (p.drop_first(), id));
        } else {
            assert(names_of(t1.subfolders@)[x] == name);
            assert(names_of(t1.subfolders@)[k] == p[0]);
            assert(name != p[0]);
            assert(!starts_in(name)(it));
            if names_of(t0.subfolders@).contains(p[0]) {
                assert(mid[x] == t0.subfolders@[x]);
                lemma_child_tree(t0, items, x);
            } else if x < k {
                assert(mid[x] == t0.subfolders@[x]);
                lemma_child_tree(t0, items, x);
            } else {
                assert(mid[x] == t0.subfolders@[x - 1]);
                lemma_child_tree(t0, items, x - 1);
            }
        }
    }
    lemma_tree_of_node(t1, items2);
}

impl Default for TagTree {
    /// A node with no sub-folder and no entry.
    fn default() -> (t: Self)
        ensures
            t.subfolders@.len() == 0,
            t.entry_ids@.len() == 0,
    {
        TagTree { subfolders: Vec::new(), entry_ids: Vec::new() }
    }
}

/// The position of the sub-folder named `name` in `children`, added there as an empty node
/// when missing; the names stay in increasing order.
fn child_index(children: &mut Vec<(String, TagTree)>, name: &String) -> (k: usize)
    requires
        strictly_sorted(names_of(old(children)@)),
    ensures
        k < final(children)@.len(),
        final(children)@[k as int].0@ == name@,
        strictly_sorted(names_of(final(children)@)),
        names_of(old(children)@).contains(name@) ==> final(children)@ == old(children)@,
        !names_of(old(children)@).contains(name@) ==> {
            &&& final(children)@.len() == old(children)@.len() + 1
            &&& final(children)@ == old(children)@.insert(k as int, final(children)@[k as int])
            &&& final(children)@[k as int].1.subfolders@.len() == 0
            &&& final(children)@[k as int].1.entry_ids@.len() == 0
        },
{
    let ghost s = names_of(children@);
    let mut k: usize = 0;
    while k < children.len()
        invariant
            k <= children.len(),
            s == names_of(children@),
            strictly_sorted(s),
            forall|x: int| 0 <= x < k ==> text_lt(#[trigger] s[x], name@),
        ensures
            k <= children.len(),
            s == names_of(children@),
            forall|x: int| 0 <= x < k ==> text_lt(#[trigger] s[x], name@),
            k < children.len() ==> text_lt(name@, s[k as int]) || s[k as int] == name@,
        decreases children.len() - k,
    {
        assert(s[k as int] == children@[k as int].0@);
        match compare_text(children[k].0.as_str(), name.as_str()) {
            TextOrder::Less => {},
            TextOrder::Same => {
                break;
            },
            TextOrder::Greater => {
                break;
            },
        }
        k = k + 1;
    }
    if k < children.len() && same_text(children[k].0.as_str(), name.as_str()) {
        assert(s[k as int] == name@);
        assert(s.contains(name@));
        return k;
    }
    assert(!s.contains(name@)) by {
        if s.contains(name@) {
            let i = choose|i: int| 0 <= i < s.len() && s[i] == name@;
            if i < k {
                crate::text::lemma_text_lt_irreflexive(name@);
            } else {
                assert(text_lt(name@, s[k as int]));
                if i > k {
                    assert(text_lt(s[k as int], s[i]));
                    crate::text::lemma_text_lt_transitive(name@, s[k as int], s[i]);
                }
                crate::text::lemma_text_lt_irreflexive(name@);
            }
        }
    }
    let ghost before = children@;
    children.insert(k, (name.clone(), TagTree::default()));
    let ghost r = names_of(children@);
    assert(r =~= s.insert(k as int, name@));
    assert forall|i: int, j: int| 0 <= i < j < r.len() implies text_lt(
        #[trigger] r[i],
        #[trigger] r[j],
    ) by {
        if j < k {
            assert(r[i] == s[i] && r[j] == s[j]);
        } else if j == k {
            assert(r[i] == s[i]);
        } else if i < k {
            assert(r[i] == s[i] && r[j] == s[j - 1]);
            assert(text_lt(name@, s[k as int]));
            if j - 1 > k {
                assert(text_lt(s[k as int], s[j - 1]));
                crate::text::lemma_text_lt_transitive(name@, s[k as int], s[j - 1]);
            }
            crate::text::lemma_text_lt_transitive(s[i], name@, s[j - 1]);
        } else if i == k {
            assert(r[j] == s[j - 1]);
            if j - 1 > k {
                assert(text_lt(s[k as int], s[j - 1]));
                crate::text::lemma_text_lt_transitive(name@, s[k as int], s[j - 1]);
            }
        } else {
            assert(r[i] == s[i - 1] && r[j] == s[j - 1]);
        }
    }
    assert(children@ =~= before.insert(k as int, children@[k as int]));
    k
}

/// Every node of `t` lists its sub-folders in strictly increasing order of names, as a map
/// from names to sub-trees keeps them.
pub open spec fn sorted_everywhere(t: TagTree) -> bool {
    forall|q: Seq<Seq<char>>| #[trigger]
        node(t, q) is Some ==> strictly_sorted(child_names(node(t, q).unwrap()))
}

/// The ids at the node of `t` at `q`; none where `t` has no node there.
pub open spec fn ids_or_none(t: TagTree, q: Seq<Seq<char>>) -> Seq<u32> {
    match node(t, q) {
        Some(n) => n.entry_ids@,
        None => Seq::empty(),
    }
}

/// What placing `id` at the path `p` of `t1`, giving `t2`, means at the path `q`: at `p` the
/// ids grow by `id`; a node that was there stays, with its ids (off `p`) and at least its
/// sub-folders; a node that is new lies on the way to `p` and holds no ids (off `p`).
pub open spec fn placed_at_path(
    t1: TagTree,
    t2: TagTree,
    p: Seq<Seq<char>>,
    id: u32,
    q: Seq<Seq<char>>,
) -> bool {
    &&& q == p ==> node(t2, q) is Some && node(t2, q).unwrap().entry_ids@ == ids_or_none(
        t1,
        q,
    ).push(id)
    &&& node(t1, q) is Some ==> node(t2, q) is Some && child_names(
        node(t1, q).unwrap(),
    ).to_set().subset_of(child_names(node(t2, q).unwrap()).to_set())
    &&& node(t1, q) is Some && q != p ==> node(t2, q).unwrap().entry_ids@ == node(
        t1,
        q,
    ).unwrap().entry_ids@
    &&& node(t1, q) is None && node(t2, q) is Some ==> path_prefix(q, p) && (q != p ==> node(
        t2,
        q,
    ).unwrap().entry_ids@.len() == 0)
}

/// `t2` is `t1` with `id` placed at the path `p`, as `placed_at_path` says at every path.
pub open spec fn placed(t1: TagTree, t2: TagTree, p: Seq<Seq<char>>, id: u32) -> bool {
    forall|q: Seq<Seq<char>>| #[trigger] placed_at_path(t1, t2, p, id, q)
}

/// The node at a path that starts with `n` is found below the child named `n`.
proof fn lemma_node_cons(t: TagTree, n: Seq<char>, r: Seq<Seq<char>>)
    ensures
        node(t, seq![n] + r) == (match find_child(t.subfolders@, n) {
            Some(c) => node(c, r),
            None => None::<TagTree>,
        }),
{
    let q = seq![n] + r;
    assert(q.len() > 0);
    assert(q[0] == n);
    assert(q.drop_first() =~= r);
}

/// A tree with neither sub-folders nor ids has its only node at the root.
proof fn lemma_empty_nodes(t: TagTree, q: Seq<Seq<char>>)
    requires
        t.subfolders@.len() == 0,
    ensures
        node(t, q) is Some <==> q.len() == 0,
        q.len() == 0 ==> node(t, q) == Some(t),
{
    if q.len() > 0 {
        assert(find_child(t.subfolders@, q[0]) is None);
    }
}

/// The tree of some items has its names in order everywhere.
proof fn lemma_tree_sorted(t: TagTree, items: Seq<ItemView>)
    requires
        tree_of(t, items),
    ensures
        sorted_everywhere(t),
{
    assert forall|q: Seq<Seq<char>>| #[trigger] node(t, q) is Some implies strictly_sorted(
        child_names(node(t, q).unwrap()),
    ) by {
        assert(node_fits(node(t, q).unwrap(), items, q));
    }
}

/// Adding an id at the root places it at the empty path.
proof fn lemma_placed_root(t0: TagTree, t1: TagTree, id: u32)
    requires
        sorted_everywhere(t0),
        t1.subfolders@ == t0.subfolders@,
        t1.entry_ids@ == t0.entry_ids@.push(id),
    ensures
        placed(t0, t1, Seq::empty(), id),
        sorted_everywhere(t1),
{
    let empty = Seq::<Seq<char>>::empty();
    assert forall|q: Seq<Seq<char>>| #[trigger] placed_at_path(t0, t1, empty, id, q) by {
        if q.len() == 0 {
            assert(q =~= empty);
            assert(node(t0, q) == Some(t0) && node(t1, q) == Some(t1));
        } else {
            assert(q != empty);
            assert(node(t1, q) == node(t0, q));
        }
    }
    assert forall|q: Seq<Seq<char>>| #[trigger] node(t1, q) is Some implies strictly_sorted(
        child_names(node(t1, q).unwrap()),
    ) by {
        if q.len() == 0 {
            assert(node(t0, q) == Some(t0) && node(t1, q) == Some(t1));
        } else {
            assert(node(t1, q) == node(t0, q));
        }
    }
}

/// Looking up a name other than the changed child's finds the same sub-tree before and after.
proof fn lemma_find_other(
    t0: Seq<(String, TagTree)>,
    mid: Seq<(String, TagTree)>,
    t1: Seq<(String, TagTree)>,
    k: int,
    n: Seq<char>,
    c1: TagTree,
    m: Seq<char>,
)
    requires
        0 <= k < mid.len(),
        mid[k].0@ == n,
        strictly_sorted(names_of(t0)),
        strictly_sorted(names_of(mid)),
        names_of(t0).contains(n) ==> mid == t0,
        !names_of(t0).contains(n) ==> mid.len() == t0.len() + 1 && mid == t0.insert(k, mid[k]),
        t1 == mid.update(k, (mid[k].0, c1)),
    ensures
        m != n ==> find_child(t1, m) == find_child(t0, m),
        find_child(t1, n) == Some(c1),
        find_child(mid, n) == Some(mid[k].1),
{
    lemma_sorted_distinct(t0);
    lemma_sorted_distinct(mid);
    assert(names_of(t1) =~= names_of(mid)) by {
        assert forall|i: int| 0 <= i < t1.len() implies names_of(t1)[i] == names_of(mid)[i] by {
            if i == k {
            } else {
                assert(t1[i] == mid[i]);
            }
        }
    }
    assert(names_distinct(t1)) by {
        assert forall|a: int, b: int|
            0 <= a < t1.len() && 0 <= b < t1.len() && a != b implies t1[a].0@ != t1[b].0@ by {
            assert(names_of(t1)[a] == t1[a].0@ && names_of(t1)[b] == t1[b].0@);
            assert(names_of(mid)[a] == mid[a].0@ && names_of(mid)[b] == mid[b].0@);
        }
    }
    lemma_find_child(t0, m);
    lemma_find_child(mid, m);
    lemma_find_child(t1, m);
    lemma_find_child(t1, n);
    lemma_find_child(mid, n);
    assert(t1[k].0@ == n && t1[k].1 == c1);
    if m == n {
    } else if exists|i: int| 0 <= i < t0.len() && t0[i].0@ == m {
        let i = choose|i: int| 0 <= i < t0.len() && t0[i].0@ == m;
        let j = if names_of(t0).contains(n) || i < k {
            i
        } else {
            i + 1
        };
        assert(mid[j] == t0[i]);
        assert(j != k);
        assert(t1[j] == t0[i]);
        assert(find_child(t1, m) == Some(t1[j].1));
        assert(find_child(t0, m) == Some(t0[i].1));
    } else {
        assert forall|j: int| 0 <= j < t1.len() implies t1[j].0@ != m by {
            if j != k {
                assert(t1[j] == mid[j]);
                if !names_of(t0).contains(n) {
                    if j < k {
                        assert(mid[j] == t0[j]);
                    } else {
                        assert(mid[j] == t0[j - 1]);
                    }
                }
            }
        }
        assert(find_child(t1, m) is None);
        assert(find_child(t0, m) is None);
    }
}

/// Putting back, at position `k`, a child `c1` that is `c0` with `id` placed at the rest of
/// `p` places `id` at `p` in the tree.
proof fn lemma_placed_step(
    t0: TagTree,
    t1: TagTree,
    mid: Seq<(String, TagTree)>,
    k: int,
    p: Seq<Seq<char>>,
    id: u32,
    c1: TagTree,
)
    requires
        sorted_everywhere(t0),
        p.len() > 0,
        0 <= k < mid.len(),
        mid[k].0@ == p[0],
        strictly_sorted(names_of(mid)),
        names_of(t0.subfolders@).contains(p[0]) ==> mid == t0.subfolders@,
        !names_of(t0.subfolders@).contains(p[0]) ==> mid.len() == t0.subfolders@.len() + 1 && mid
            == t0.subfolders@.insert(k, mid[k]) && mid[k].1.subfolders@.len() == 0 && mid[k].1.entry_ids@.len() == 0,
        t1.entry_ids@ == t0.entry_ids@,
        t1.subfolders@ == mid.update(k, (mid[k].0, c1)),
        placed(mid[k].1, c1, p.drop_first(), id),
        sorted_everywhere(c1),
    ensures
        placed(t0, t1, p, id),
        sorted_everywhere(t1),
{
    let n = p[0];
    let rest = p.drop_first();
    let c0 = mid[k].1;
    let empty = Seq::<Seq<char>>::empty();
    assert(node(t0, empty) == Some(t0));
    assert(strictly_sorted(names_of(t0.subfolders@)));
    let contained = names_of(t0.subfolders@).contains(n);
    assert(p =~= seq![n] + rest);
    assert(names_of(t1.subfolders@) =~= names_of(mid)) by {
        assert forall|i: int| 0 <= i < mid.len() implies names_of(t1.subfolders@)[i] == names_of(
            mid,
        )[i] by {
            if i != k {
                assert(t1.subfolders@[i] == mid[i]);
            }
        }
    }
    lemma_find_other(t0.subfolders@, mid, t1.subfolders@, k, n, c1, n);
    if contained {
        assert(find_child(t0.subfolders@, n) == Some(c0));
    } else {
        lemma_sorted_distinct(t0.subfolders@);
        lemma_find_child(t0.subfolders@, n);
        assert forall|i: int| 0 <= i < t0.subfolders@.len() implies t0.subfolders@[i].0@ != n by {
            assert(names_of(t0.subfolders@)[i] == t0.subfolders@[i].0@);
        }
        assert(find_child(t0.subfolders@, n) is None);
    }
    assert forall|q: Seq<Seq<char>>| #[trigger] placed_at_path(t0, t1, p, id, q) by {
        if q.len() == 0 {
            assert(q =~= empty);
            assert(node(t0, q) == Some(t0) && node(t1, q) == Some(t1));
            assert(q != p);
            assert forall|x: Seq<char>| child_names(t0).to_set().contains(x) implies child_names(
                t1,
            ).to_set().contains(x) by {
                let i = choose|i: int| 0 <= i < child_names(t0).len() && child_names(t0)[i] == x;
                if contained {
                    assert(names_of(mid)[i] == x);
                } else if i < k {
                    assert(mid[i] == t0.subfolders@[i]);
                    assert(names_of(mid)[i] == x);
                } else {
                    assert(mid[i + 1] == t0.subfolders@[i]);
                    assert(names_of(mid)[i + 1] == x);
                }
            }
        } else {
            let m = q[0];
            let r = q.drop_first();
            assert(q =~= seq![m] + r);
            lemma_node_cons(t0, m, r);
            lemma_node_cons(t1, m, r);
            if m != n {
                lemma_find_other(t0.subfolders@, mid, t1.subfolders@, k, n, c1, m);
                assert(node(t1, q) == node(t0, q));
                assert(q != p);
            } else {
                assert(placed_at_path(c0, c1, rest, id, r));
                assert(node(t1, q) == node(c1, r));
                lemma_prefix_cons(n, r, p);
                assert((q == p) == (r == rest));
                if contained {
                    assert(node(t0, q) == node(c0, r));
                    assert(ids_or_none(t0, q) == ids_or_none(c0, r));
                } else {
                    assert(node(t0, q) is None);
                    lemma_empty_nodes(c0, r);
                    lemma_empty_nodes(c0, rest);
                    assert(ids_or_none(t0, q) =~= Seq::<u32>::empty());
                    assert(ids_or_none(c0, rest) =~= Seq::<u32>::empty());
                    if node(t1, q) is Some {
                        if node(c0, r) is Some {
                            assert(r.len() == 0);
                            assert(rest.subrange(0, 0) =~= r);
                            assert(path_prefix(r, rest));
                            if q != p {
                                assert(node(c1, r).unwrap().entry_ids@ == c0.entry_ids@);
                            }
                        }
                    }
                }
            }
        }
    }
    assert forall|q: Seq<Seq<char>>| #[trigger] node(t1, q) is Some implies strictly_sorted(
        child_names(node(t1, q).unwrap()),
    ) by {
        if q.len() == 0 {
            assert(node(t1, q) == Some(t1));
        } else {
            let m = q[0];
            let r = q.drop_first();
            assert(q =~= seq![m] + r);
            lemma_node_cons(t0, m, r);
            lemma_node_cons(t1, m, r);
            if m != n {
                lemma_find_other(t0.subfolders@, mid, t1.subfolders@, k, n, c1, m);
            }
        }
    }
}

/// The child at the name `n` of a tree with its names in order has its names in order.
proof fn lemma_child_sorted(t: TagTree, n: Seq<char>, c: TagTree)
    requires
        sorted_everywhere(t),
        find_child(t.subfolders@, n) == Some(c),
    ensures
        sorted_everywhere(c),
{
    assert forall|r: Seq<Seq<char>>| #[trigger] node(c, r) is Some implies strictly_sorted(
        child_names(node(c, r).unwrap()),
    ) by {
        lemma_node_cons(t, n, r);
        assert(node(t, seq![n] + r) is Some);
    }
}

impl TagTree {
    /// Places the id `entry_id` at the node that the folder names `path` lead to, making the
    /// nodes on the way that are missing; an empty `path` places it at this node. Every other
    /// node keeps its ids and sub-folders, and the tree of some items becomes the tree of those
    /// items with this one more.
    fn insert_entry(&mut self, entry_id: u32, path: &[String], Ghost(items): Ghost<Seq<ItemView>>)
        requires
            sorted_everywhere(*old(self)),
        ensures
            placed(*old(self), *final(self), views(path@), entry_id),
            sorted_everywhere(*final(self)),
            tree_of(*old(self), items) ==> tree_of(*final(self), items.push((views(path@), entry_id))),
        decreases path@.len(),
    {
        let ghost t0 = *self;
        let ghost p = views(path@);
        let ghost was_tree = tree_of(t0, items);
        if path.len() == 0 {
            self.entry_ids.push(entry_id);
            proof {
                assert(p =~= Seq::<Seq<char>>::empty());
                lemma_placed_root(t0, *self, entry_id);
                if was_tree {
                    lemma_push_at_root(t0, *self, items, entry_id);
                }
            }
            return;
        }
        let ghost empty = Seq::<Seq<char>>::empty();
        proof {
            assert(node(t0, empty) == Some(t0));
        }
        assert(p[0] == path@[0]@);
        let k = child_index(&mut self.subfolders, &path[0]);
        let ghost mid = self.subfolders@;
        let (name, mut child) = self.subfolders.remove(k);
        let ghost c0 = child;
        let ghost sub = sub_items(items, p[0]);
        proof {
            assert(mid[k as int].1 == c0);
            if names_of(t0.subfolders@).contains(p[0]) {
                lemma_sorted_distinct(t0.subfolders@);
                lemma_find_child(t0.subfolders@, p[0]);
                assert(t0.subfolders@[k as int].0@ == p[0]);
                lemma_child_sorted(t0, p[0], c0);
            } else {
                assert forall|r: Seq<Seq<char>>| #[trigger] node(c0, r) is Some implies strictly_sorted(
                    child_names(node(c0, r).unwrap()),
                ) by {
                    lemma_empty_nodes(c0, r);
                }
            }
            if was_tree {
                assert(node_fits(t0, items, empty));
                if names_of(t0.subfolders@).contains(p[0]) {
                    lemma_child_tree(t0, items, k as int);
                } else {
                    assert(!names_at(items, empty).contains(p[0]));
                    lemma_sub_items_none(items, p[0]);
                    lemma_empty_tree(c0);
                }
                assert(tree_of(c0, sub));
            }
        }
        if path.len() == 1 {
            child.entry_ids.push(entry_id);
            proof {
                assert(p.drop_first() =~= empty);
                lemma_placed_root(c0, child, entry_id);
                if was_tree {
                    lemma_push_at_root(c0, child, sub, entry_id);
                }
            }
        } else {
            let rest = vstd::slice::slice_subrange(path, 1, path.len());
            assert(views(rest@) =~= p.drop_first());
            child.insert_entry(entry_id, rest, Ghost(sub));
        }
        self.subfolders.insert(k, (name, child));
        proof {
            assert(self.subfolders@ =~= mid.update(k as int, (mid[k as int].0, child)));
            lemma_placed_step(t0, *self, mid, k as int, p, entry_id, child);
            if was_tree {
                lemma_insert_step(t0, *self, mid, k as int, items, p, entry_id);
            }
        }
    }

    /// The tree of `entries`: each entry's id sits at the node that its folder's non-empty
    /// segments name (the root for an empty folder), in the order of `entries`, and each
    /// node lists its sub-folders in increasing order of names.
    pub fn build(entries: &Vec<&Entry>) -> (t: TagTree)
        ensures
            tree_of(t, entry_items(ref_views(entries@))),
    {
        let ghost all = entry_items(ref_views(entries@));
        let mut root = TagTree::default();
        proof {
            lemma_empty_tree(root);
            assert(all.take(0) =~= Seq::<ItemView>::empty());
        }
        let mut i: usize = 0;
        while i < entries.len()
            invariant
                i <= entries.len(),
                all == entry_items(ref_views(entries@)),
                tree_of(root, all.take(i as int)),
            decreases entries.len() - i,
        {
            let entry = entries[i];
            let segments = folder_segments_of(entry.folder.as_str());
            assert(all[i as int] == (folder_segments(entries@[i as int]@.folder), entries@[i as int].id));
            assert(all.take(i + 1) =~= all.take(i as int).push(all[i as int]));
            if segments.len() == 0 {
                let ghost before = root;
                root.entry_ids.push(entry.id);
                proof {
                    assert(views(segments@) =~= Seq::<Seq<char>>::empty());
                    lemma_push_at_root(before, root, all.take(i as int), entry.id);
                }
            } else {
                proof {
                    lemma_tree_sorted(root, all.take(i as int));
                }
                root.insert_entry(entry.id, segments.as_slice(), Ghost(all.take(i as int)));
            }
            i = i + 1;
        }
        assert(all.take(entries.len() as int) =~= all);
        root
    }
}

/// Whether a piece of text is not empty.
pub open spec fn non_empty() -> spec_fn(Seq<char>) -> bool {
    |piece: Seq<char>| piece.len() > 0
}

/// The non-empty `/`-separated segments of a folder path.
pub open spec fn folder_segments(folder: Seq<char>) -> Seq<Seq<char>> {
    split_spec(folder, '/').filter(non_empty())
}

/// The items of entries: the segments of each entry's folder with the entry's id, in order.
pub open spec fn entry_items(entries: Seq<EntryView>) -> Seq<ItemView> {
    entries.map_values(|e: EntryView| (folder_segments(e.folder), e.id))
}

/// Leaving out an empty last piece does not change the non-empty pieces.
proof fn lemma_segments_terminator(s: Seq<char>)
    ensures
        split_terminator_spec(s, '/').filter(non_empty()) == folder_segments(s),
{
    reveal(Seq::filter);
    lemma_split_nonempty(s, '/');
    let p = split_spec(s, '/');
    if p.last().len() == 0 {
        assert(p.filter(non_empty()) == p.drop_last().filter(non_empty()));
    }
}

/// The non-empty `/`-separated segments of `folder`.
fn folder_segments_of(folder: &str) -> (r: Vec<String>)
    ensures
        views(r@) == folder_segments(folder@),
{
    let pieces = split_terminator(folder, '/');
    let ghost pv = views(pieces@);
    let mut r: Vec<String> = Vec::new();
    let mut i: usize = 0;
    while i < pieces.len()
        invariant
            i <= pieces.len(),
            pv == views(pieces@),
            views(r@) == pv.take(i as int).filter(non_empty()),
        decreases pieces.len() - i,
    {
        proof {
            reveal(Seq::filter);
            assert(pv.take(i + 1).drop_last() =~= pv.take(i as int));
        }
        assert(pv[i as int] == pieces@[i as int]@);
        if pieces[i].unicode_len() > 0 {
            let ghost before = r@;
            r.push(pieces[i].clone());
            assert(views(r@) =~= views(before).push(pv[i as int]));
        }
        i = i + 1;
    }
    assert(pv.take(pieces.len() as int) =~= pv);
    proof {
        lemma_segments_terminator(folder@);
    }
    r
}

impl TagTree {
    /// The first sub-folder named `name`.
    pub fn subfolder(&self, name: &str) -> (r: Option<&TagTree>)
        ensures
            match r {
                Some(c) => find_child(self.subfolders@, name@) == Some(*c),
                None => find_child(self.subfolders@, name@) is None,
            },
    {
        let ghost ch = self.subfolders@;
        let mut k: usize = 0;
        assert(ch.skip(0) =~= ch);
        while k < self.subfolders.len()
            invariant
                k <= self.subfolders.len(),
                ch == self.subfolders@,
                find_child(ch, name@) == find_child(ch.skip(k as int), name@),
            decreases self.subfolders.len() - k,
        {
            assert(ch.skip(k as int)[0] == ch[k as int]);
            if same_text(self.subfolders[k].0.as_str(), name) {
                return Some(&self.subfolders[k].1);
            }
            assert(ch.skip(k as int).drop_first() =~= ch.skip(k + 1));
            k = k + 1;
        }
        None
    }

    /// The node reached by following the folder names of `path`; `None` where some name is
    /// missing on the way.
    pub fn get_node(&self, path: &[String]) -> (r: Option<&TagTree>)
        ensures
            match r {
                Some(n) => node(*self, views(path@)) == Some(*n),
                None => node(*self, views(path@)) is None,
            },
    {
        let ghost p = views(path@);
        let mut cur: &TagTree = self;
        let mut i: usize = 0;
        assert(p.skip(0) =~= p);
        while i < path.len()
            invariant
                i <= path.len(),
                p == views(path@),
                node(*self, p) == node(*cur, p.skip(i as int)),
            decreases path.len() - i,
        {
            let ghost q = p.skip(i as int);
            assert(q[0] == path@[i as int]@);
            assert(q.drop_first() =~= p.skip(i + 1));
            match cur.subfolder(path[i].as_str()) {
                Some(c) => {
                    cur = c;
                },
                None => {
                    return None;
                },
            }
            i = i + 1;
        }
        assert(p.skip(path.len() as int) =~= Seq::<Seq<char>>::empty());
        Some(cur)
    }

    /// The names of the sub-folders at this node, in increasing order. A tree keeps its
    /// sub-folders in strictly increasing order of names (every tree that `build` makes does),
    /// so the names come out once each, in that order.
    pub fn subfolder_names(&self) -> (r: Vec<&str>)
        requires
            strictly_sorted(child_names(*self)),
        ensures
            r@.map_values(|n: &str| n@) == child_names(*self),
            r@.len() == self.subfolders@.len(),
            strictly_sorted(r@.map_values(|n: &str| n@)),
            forall|k: int| 0 <= k < self.subfolders@.len() ==> r@.map_values(|n: &str| n@).contains(
                #[trigger] self.subfolders@[k].0@,
            ),
    {
        let mut r: Vec<&str> = Vec::new();
        let mut k: usize = 0;
        while k < self.subfolders.len()
            invariant
                k <= self.subfolders.len(),
                r@.map_values(|n: &str| n@) == child_names(*self).take(k as int),
            decreases self.subfolders.len() - k,
        {
            let ghost before = r@;
            let name = self.subfolders[k].0.as_str();
            assert(name@ == self.subfolders@[k as int].0@);
            r.push(name);
            assert(r@ == before.push(name));
            assert(r@.map_values(|n: &str| n@) =~= before.map_values(|n: &str| n@).push(name@));
            assert(child_names(*self).take(k + 1) =~= child_names(*self).take(k as int).push(
                self.subfolders@[k as int].0@,
            ));
            k = k + 1;
        }
        assert(child_names(*self).take(k as int) =~= child_names(*self));
        assert forall|k: int| 0 <= k < self.subfolders@.len() implies r@.map_values(
            |n: &str| n@,
        ).contains(#[trigger] self.subfolders@[k].0@) by {
            assert(r@.map_values(|n: &str| n@)[k] == child_names(*self)[k]);
        }
        r
    }
}

/// In the tree of `items`, each item's id is among the ids of the node that its path names.
pub proof fn law_entry_at_its_folder(t: TagTree, items: Seq<ItemView>, k: int)
    requires
        tree_of(t, items),
        0 <= k < items.len(),
    ensures
        node(t, items[k].0) is Some,
        node(t, items[k].0).unwrap().entry_ids@.contains(items[k].1),
{
    let p = items[k].0;
    assert(path_prefix(p, items[k].0)) by {
        assert(items[k].0.subrange(0, p.len() as int) =~= p);
    }
    assert(reaches(items, p));
    assert(node(t, p) is Some);
    assert(node_fits(node(t, p).unwrap(), items, p));
    let f = items.filter(placed_at(p));
    items.lemma_filter_contains(placed_at(p), k);
    let j = choose|j: int| 0 <= j < f.len() && f[j] == items[k];
    assert(f.map_values(item_id())[j] == items[k].1);
}

} // verus!
