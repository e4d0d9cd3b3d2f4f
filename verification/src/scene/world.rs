//! World: hierarchical scene graph.
//!
//! Entities are nodes of a forest stored in a vector and addressed by index; the entity with
//! index 0 is the root. Every node has at most one parent and an ordered list of children. A
//! node detached by `World::remove` stays in storage but is no longer reachable from the root.

use vstd::prelude::*;

use super::entity::EntityId;
use super::node_data::{same_node_data, spec_default_node_data, NodeData};
use super::primitive::Primitive;
use super::transform::Transform;

verus! {

/// One node of the world graph.
pub struct Node {
    data: NodeData,
    parent: Option<usize>,
    children: Vec<usize>,
}

/// World: forest of entities with `NodeData`, rooted at entity 0.
///
/// The ghost `heights` give every node a rank strictly larger than the ranks of its children;
/// they witness that the parent relation has no cycle and bound every descent through the graph.
pub struct World {
    nodes: Vec<Node>,
    heights: Ghost<Seq<nat>>,
    height_bound: Ghost<nat>,
}

/// Child lists admit the ranks `hs`: every child index is in range and ranks strictly below
/// its parent.
pub open spec fn heights_ok(ch: Seq<Seq<usize>>, hs: Seq<nat>) -> bool {
    &&& ch.len() <= usize::MAX
    &&& hs.len() == ch.len()
    &&& forall|i: int, j: int|
        0 <= i < ch.len() && 0 <= j < ch[i].len() ==> #[trigger] ch[i][j] < ch.len() && hs[ch[i][j] as int]
            < hs[i]
}

/// Depth-first preorder of the subtree rooted at `a`: `a`, then the subtrees of its children in
/// order.
pub open spec fn dfs_seq(ch: Seq<Seq<usize>>, hs: Seq<nat>, a: int) -> Seq<usize>
    decreases hs[a], ch[a].len() + 1,
    when heights_ok(ch, hs) && 0 <= a < ch.len()
{
    seq![a as usize] + dfs_children(ch, hs, a, ch[a].len() as int)
}

/// Concatenated preorders of the subtrees of the first `k` children of `a`.
pub open spec fn dfs_children(ch: Seq<Seq<usize>>, hs: Seq<nat>, a: int, k: int) -> Seq<usize>
    decreases hs[a], k,
    when heights_ok(ch, hs) && 0 <= a < ch.len() && k <= ch[a].len()
{
    if k <= 0 {
        seq![]
    } else {
        dfs_children(ch, hs, a, k - 1) + dfs_seq(ch, hs, ch[a][k - 1] as int)
    }
}

/// The ids of `order` whose node is active, in order.
pub open spec fn active_only(order: Seq<usize>, data: Seq<NodeData>) -> Seq<EntityId>
    decreases order.len(),
{
    if order.len() == 0 {
        seq![]
    } else {
        let rest = active_only(order.drop_last(), data);
        if data[order.last() as int].active {
            rest.push(EntityId(order.last()))
        } else {
            rest
        }
    }
}

/// Members of `active_only(order, data)` are exactly the active nodes of `order`; when the first
/// node of `order` is active it comes first.
pub proof fn lemma_active_only(order: Seq<usize>, data: Seq<NodeData>)
    requires
        forall|m: int| 0 <= m < order.len() ==> #[trigger] order[m] < data.len(),
    ensures
        forall|e: EntityId|
            #[trigger] active_only(order, data).contains(e) <==> (order.contains(e.0)
                && data[e.0 as int].active),
        order.len() > 0 && data[order[0] as int].active ==> active_only(order, data).len() > 0
            && active_only(order, data)[0] == EntityId(order[0]),
    decreases order.len(),
{
    if order.len() > 0 {
        let t = order.drop_last();
        lemma_active_only(t, data);
        let r = active_only(t, data);
        let last = order.last();
        assert(active_only(order, data) == if data[last as int].active {
            r.push(EntityId(last))
        } else {
            r
        });
        assert forall|e: EntityId| #[trigger] active_only(order, data).contains(e) <==> (order.contains(e.0)
            && data[e.0 as int].active) by {
            if order.contains(e.0) && data[e.0 as int].active {
                let k = choose|k: int| 0 <= k < order.len() && order[k] == e.0;
                if k < t.len() {
                    assert(t[k] == e.0);
                    assert(r.contains(e));
                    let m = choose|m: int| 0 <= m < r.len() && r[m] == e;
                    if data[last as int].active {
                        assert(r.push(EntityId(last))[m] == e);
                    }
                } else {
                    assert(e == EntityId(last));
                    assert(r.push(EntityId(last))[r.len() as int] == e);
                }
            }
            if active_only(order, data).contains(e) {
                let m = choose|m: int| 0 <= m < active_only(order, data).len() && active_only(order, data)[m] == e;
                if data[last as int].active && m == r.len() {
                    assert(order[order.len() - 1] == e.0);
                } else {
                    assert(r[m] == e);
                    assert(r.contains(e));
                    let k = choose|k: int| 0 <= k < t.len() && t[k] == e.0;
                    assert(order[k] == e.0);
                }
            }
        }
        if data[order[0] as int].active {
            if t.len() > 0 {
                assert(t[0] == order[0]);
                if data[last as int].active {
                    assert(r.push(EntityId(last))[0] == r[0]);
                }
            } else {
                assert(last == order[0]);
            }
        }
    }
}

/// Keeping the active nodes of a duplicate-free order keeps it duplicate-free.
pub proof fn lemma_active_only_unique(order: Seq<usize>, data: Seq<NodeData>)
    requires
        order.no_duplicates(),
        forall|m: int| 0 <= m < order.len() ==> #[trigger] order[m] < data.len(),
    ensures
        active_only(order, data).no_duplicates(),
    decreases order.len(),
{
    if order.len() > 0 {
        let t = order.drop_last();
        assert(t.no_duplicates());
        assert forall|m: int| 0 <= m < t.len() implies #[trigger] t[m] < data.len() by {
            assert(t[m] == order[m]);
        }
        lemma_active_only_unique(t, data);
        lemma_active_only(t, data);
        let r = active_only(t, data);
        let last = order.last();
        if data[last as int].active {
            assert(!r.contains(EntityId(last))) by {
                if r.contains(EntityId(last)) {
                    let k = choose|k: int| 0 <= k < t.len() && t[k] == last;
                    assert(order[k] == order[order.len() - 1]);
                }
            }
            assert forall|i: int, j: int| 0 <= i < j < r.push(EntityId(last)).len() implies r.push(
                EntityId(last),
            )[i] != r.push(EntityId(last))[j] by {
                if j == r.len() {
                    assert(r.contains(r[i]));
                }
            }
        }
    }
}

/// `s` with every occurrence of `x` removed, order kept.
pub open spec fn without(s: Seq<usize>, x: usize) -> Seq<usize>
    decreases s.len(),
{
    if s.len() == 0 {
        s
    } else {
        let r = without(s.drop_last(), x);
        if s.last() == x {
            r
        } else {
            r.push(s.last())
        }
    }
}

/// Membership in `without(s, x)`: exactly the elements of `s` other than `x`.
pub proof fn lemma_without(s: Seq<usize>, x: usize)
    ensures
        forall|y: usize| #[trigger] without(s, x).contains(y) <==> (s.contains(y) && y != x),
        without(s, x).len() <= s.len(),
    decreases s.len(),
{
    if s.len() > 0 {
        let t = s.drop_last();
        lemma_without(t, x);
        let r = without(t, x);
        assert(without(s, x) == if s.last() == x {
            r
        } else {
            r.push(s.last())
        });
        assert forall|y: usize| #[trigger] without(s, x).contains(y) <==> (s.contains(y) && y != x) by {
            if s.contains(y) && y != x {
                let k = choose|k: int| 0 <= k < s.len() && s[k] == y;
                if k < t.len() {
                    assert(t[k] == y);
                    assert(t.contains(y));
                    assert(without(t, x).contains(y));
                    let m = choose|m: int| 0 <= m < r.len() && r[m] == y;
                    if s.last() != x {
                        assert(r.push(s.last())[m] == y);
                    }
                } else {
                    assert(s.last() == y);
                    assert(r.push(s.last())[r.len() as int] == y);
                }
            }
            if without(s, x).contains(y) {
                let m = choose|m: int| 0 <= m < without(s, x).len() && without(s, x)[m] == y;
                if s.last() != x && m == r.len() {
                    assert(y == s.last());
                    assert(s[s.len() - 1] == y);
                } else {
                    assert(r[m] == y);
                    assert(r.contains(y));
                    assert(without(t, x).contains(y));
                    assert(t.contains(y));
                    let k = choose|k: int| 0 <= k < t.len() && t[k] == y;
                    assert(s[k] == y);
                }
            }
        }
    }
}


/// Dropping the occurrences of `x` keeps a sequence free of duplicates.
pub proof fn lemma_without_unique(s: Seq<usize>, x: usize)
    requires
        s.no_duplicates(),
    ensures
        without(s, x).no_duplicates(),
    decreases s.len(),
{
    if s.len() > 0 {
        let t = s.drop_last();
        assert(t.no_duplicates());
        lemma_without_unique(t, x);
        lemma_without(t, x);
        if s.last() != x {
            assert(!t.contains(s.last())) by {
                if t.contains(s.last()) {
                    let k = choose|k: int| 0 <= k < t.len() && t[k] == s.last();
                    assert(s[k] == s[s.len() - 1]);
                }
            }
            assert(!without(t, x).contains(s.last()));
            let r = without(t, x);
            assert forall|i: int, j: int| 0 <= i < j < r.push(s.last()).len() implies r.push(s.last())[i]
                != r.push(s.last())[j] by {
                if j == r.len() {
                    assert(r.contains(r[i]));
                }
            }
        }
    }
}

/// `s` without the entries that `sub` contains, order kept.
pub open spec fn without_all(s: Seq<usize>, sub: Seq<usize>) -> Seq<usize>
    decreases s.len(),
{
    if s.len() == 0 {
        s
    } else {
        let r = without_all(s.drop_last(), sub);
        if sub.contains(s.last()) {
            r
        } else {
            r.push(s.last())
        }
    }
}

/// `s` without the entities whose index `sub` contains, order kept.
pub open spec fn without_ids(s: Seq<EntityId>, sub: Seq<usize>) -> Seq<EntityId>
    decreases s.len(),
{
    if s.len() == 0 {
        s
    } else {
        let r = without_ids(s.drop_last(), sub);
        if sub.contains(s.last().0) {
            r
        } else {
            r.push(s.last())
        }
    }
}

/// Dropping entries distributes over concatenation.
proof fn lemma_without_all_add(a: Seq<usize>, b: Seq<usize>, sub: Seq<usize>)
    ensures
        without_all(a + b, sub) == without_all(a, sub) + without_all(b, sub),
    decreases b.len(),
{
    if b.len() == 0 {
        assert(a + b =~= a);
        assert(without_all(a, sub) + without_all(b, sub) =~= without_all(a, sub));
    } else {
        lemma_without_all_add(a, b.drop_last(), sub);
        assert((a + b).drop_last() =~= a + b.drop_last());
        assert((a + b).last() == b.last());
        if !sub.contains(b.last()) {
            assert(without_all(a, sub) + without_all(b, sub) =~= (without_all(a, sub) + without_all(
                b.drop_last(),
                sub,
            )).push(b.last()));
        }
    }
}

/// Dropping every entry of `sub` from a sequence of entries of `sub` leaves nothing.
proof fn lemma_without_all_inside(s: Seq<usize>, sub: Seq<usize>)
    requires
        forall|k: int| 0 <= k < s.len() ==> sub.contains(#[trigger] s[k]),
    ensures
        without_all(s, sub) == Seq::<usize>::empty(),
    decreases s.len(),
{
    if s.len() > 0 {
        assert(sub.contains(s[s.len() - 1]));
        lemma_without_all_inside(s.drop_last(), sub);
    }
}

/// Keeping the active nodes commutes with dropping the entries of `sub`.
proof fn lemma_active_without_all(order: Seq<usize>, data: Seq<NodeData>, sub: Seq<usize>)
    ensures
        active_only(without_all(order, sub), data) == without_ids(active_only(order, data), sub),
    decreases order.len(),
{
    if order.len() > 0 {
        let t = order.drop_last();
        let last = order.last();
        lemma_active_without_all(t, data, sub);
        let r = without_all(t, sub);
        if !sub.contains(last) {
            assert(r.push(last).drop_last() =~= r);
        }
        if data[last as int].active {
            assert(active_only(t, data).push(EntityId(last)).drop_last() =~= active_only(t, data));
        }
    }
}

/// Marking one node inactive drops exactly that node from the active listing.
proof fn lemma_active_deactivated(order: Seq<usize>, data0: Seq<NodeData>, data1: Seq<NodeData>, id: usize)
    requires
        forall|m: int| 0 <= m < order.len() ==> #[trigger] order[m] < data0.len(),
        data1.len() == data0.len(),
        id < data0.len(),
        !data1[id as int].active,
        forall|x: int| 0 <= x < data0.len() && x != id ==> #[trigger] data1[x] == data0[x],
    ensures
        active_only(order, data1) == without_ids(active_only(order, data0), seq![id]),
    decreases order.len(),
{
    if order.len() > 0 {
        let t = order.drop_last();
        let last = order.last();
        assert(last == order[order.len() - 1]);
        assert forall|m: int| 0 <= m < t.len() implies #[trigger] t[m] < data0.len() by {
            assert(t[m] == order[m]);
        }
        lemma_active_deactivated(t, data0, data1, id);
        let r0 = active_only(t, data0);
        assert(seq![id].contains(id)) by {
            assert(seq![id][0] == id);
        }
        if last != id {
            assert(!seq![id].contains(last));
            assert(data1[last as int] == data0[last as int]);
        }
        if data0[last as int].active {
            assert(r0.push(EntityId(last)).drop_last() =~= r0);
            assert(r0.push(EntityId(last)).last() == EntityId(last));
        }
    }
}

/// The preorders of the nodes of `l`, concatenated in order.
pub open spec fn dfs_list(ch: Seq<Seq<usize>>, hs: Seq<nat>, l: Seq<usize>) -> Seq<usize>
    decreases l.len(),
{
    if l.len() == 0 {
        Seq::<usize>::empty()
    } else {
        dfs_list(ch, hs, l.drop_last()) + dfs_seq(ch, hs, l.last() as int)
    }
}

/// The preorders of the first `k` children of `a` are those of the first `k` entries of its
/// child list.
proof fn lemma_dfs_children_list(ch: Seq<Seq<usize>>, hs: Seq<nat>, a: int, k: int)
    requires
        heights_ok(ch, hs),
        0 <= a < ch.len(),
        0 <= k <= ch[a].len(),
    ensures
        dfs_children(ch, hs, a, k) == dfs_list(ch, hs, ch[a].take(k)),
    decreases k,
{
    if k > 0 {
        lemma_dfs_children_list(ch, hs, a, k - 1);
        assert(ch[a].take(k).drop_last() =~= ch[a].take(k - 1));
    }
}

/// Dropping a value that does not occur changes nothing.
proof fn lemma_without_absent(s: Seq<usize>, x: usize)
    requires
        !s.contains(x),
    ensures
        without(s, x) == s,
    decreases s.len(),
{
    if s.len() > 0 {
        let t = s.drop_last();
        assert(!t.contains(x)) by {
            if t.contains(x) {
                let k = choose|k: int| 0 <= k < t.len() && t[k] == x;
                assert(s[k] == x);
            }
        }
        lemma_without_absent(t, x);
        assert(s.last() != x);
        assert(t.push(s.last()) =~= s);
    }
}

/// The preorders of a child list with `id` dropped are the preorders of the whole list with the
/// entries of `sub` dropped, when `id`'s own preorder lies in `sub` and every other child's new
/// preorder is its old one without `sub`.
proof fn lemma_dfs_list_without(
    ch0: Seq<Seq<usize>>,
    ch1: Seq<Seq<usize>>,
    hs: Seq<nat>,
    sub: Seq<usize>,
    id: usize,
    l: Seq<usize>,
)
    requires
        heights_ok(ch0, hs),
        heights_ok(ch1, hs),
        ch1.len() == ch0.len(),
        id < ch0.len(),
        without_all(dfs_seq(ch0, hs, id as int), sub) == Seq::<usize>::empty(),
        forall|k: int| 0 <= k < l.len() ==> #[trigger] l[k] < ch0.len(),
        forall|k: int|
            0 <= k < l.len() && l[k] != id ==> dfs_seq(ch1, hs, #[trigger] l[k] as int) == without_all(
                dfs_seq(ch0, hs, l[k] as int),
                sub,
            ),
    ensures
        dfs_list(ch1, hs, without(l, id)) == without_all(dfs_list(ch0, hs, l), sub),
    decreases l.len(),
{
    if l.len() > 0 {
        let t = l.drop_last();
        let last = l.last();
        assert(last == l[l.len() - 1]);
        assert forall|k: int| 0 <= k < t.len() implies #[trigger] t[k] < ch0.len() by {
            assert(t[k] == l[k]);
        }
        assert forall|k: int| 0 <= k < t.len() && t[k] != id implies dfs_seq(ch1, hs, #[trigger] t[k] as int)
            == without_all(dfs_seq(ch0, hs, t[k] as int), sub) by {
            assert(t[k] == l[k]);
        }
        lemma_dfs_list_without(ch0, ch1, hs, sub, id, t);
        lemma_without_all_add(dfs_list(ch0, hs, t), dfs_seq(ch0, hs, last as int), sub);
        if last != id {
            let wt = without(t, id);
            assert(wt.push(last).drop_last() =~= wt);
            assert(dfs_list(ch1, hs, wt.push(last)) == dfs_list(ch1, hs, wt) + dfs_seq(ch1, hs, last as int));
        } else {
            assert(without_all(dfs_list(ch0, hs, t), sub) + Seq::<usize>::empty() =~= without_all(
                dfs_list(ch0, hs, t),
                sub,
            ));
        }
    }
}

/// After a subtree `sub` (the preorder of `id`) is cut off and `id` dropped from the child lists
/// of the nodes outside it, the preorder of every node outside `sub` is its old preorder without
/// `sub`.
proof fn lemma_dfs_after_cut(
    ch0: Seq<Seq<usize>>,
    ch1: Seq<Seq<usize>>,
    hs: Seq<nat>,
    par0: Seq<Option<usize>>,
    sub: Seq<usize>,
    id: usize,
    x: int,
)
    requires
        heights_ok(ch0, hs),
        heights_ok(ch1, hs),
        ch1.len() == ch0.len(),
        parents_ok(ch0, par0),
        par0.len() == ch0.len(),
        id < ch0.len(),
        sub == dfs_seq(ch0, hs, id as int),
        forall|y: int|
            0 <= y < ch0.len() && !sub.contains(y as usize) ==> #[trigger] ch1[y] == without(ch0[y], id),
        0 <= x < ch0.len(),
        !sub.contains(x as usize),
    ensures
        dfs_seq(ch1, hs, x) == without_all(dfs_seq(ch0, hs, x), sub),
    decreases hs[x],
{
    let l0 = ch0[x];
    assert forall|k: int| 0 <= k < l0.len() implies #[trigger] l0[k] < ch0.len() by {
        assert(ch0[x][k] < ch0.len());
    }
    assert forall|k: int| 0 <= k < l0.len() && l0[k] != id implies dfs_seq(ch1, hs, #[trigger] l0[k] as int)
        == without_all(dfs_seq(ch0, hs, l0[k] as int), sub) by {
        let c = ch0[x][k];
        assert(c < ch0.len() && hs[c as int] < hs[x]);
        assert(par0[c as int] == Some(x as usize));
        if sub.contains(c) {
            lemma_dfs_parent_closed(ch0, hs, par0, id as int, c);
        }
        lemma_dfs_after_cut(ch0, ch1, hs, par0, sub, id, c as int);
    }
    assert forall|k: int| 0 <= k < sub.len() implies sub.contains(#[trigger] sub[k]) by {}
    lemma_without_all_inside(sub, sub);
    lemma_dfs_list_without(ch0, ch1, hs, sub, id, l0);
    lemma_dfs_children_list(ch0, hs, x, l0.len() as int);
    lemma_dfs_children_list(ch1, hs, x, ch1[x].len() as int);
    assert(l0.take(l0.len() as int) =~= l0);
    assert(ch1[x].take(ch1[x].len() as int) =~= ch1[x]);
    let rest = dfs_list(ch0, hs, l0);
    assert(dfs_seq(ch0, hs, x) == seq![x as usize] + rest);
    assert(dfs_seq(ch1, hs, x) == seq![x as usize] + dfs_list(ch1, hs, without(l0, id)));
    lemma_without_all_add(seq![x as usize], rest, sub);
    assert(seq![x as usize].drop_last() =~= Seq::<usize>::empty());
    assert(without_all(seq![x as usize], sub) == seq![x as usize]) by {
        let s1 = seq![x as usize];
        assert(s1.drop_last() =~= Seq::<usize>::empty());
        assert(without_all(s1.drop_last(), sub) == Seq::<usize>::empty());
        assert(s1.last() == x as usize);
        assert(without_all(s1, sub) == without_all(s1.drop_last(), sub).push(x as usize));
        assert(Seq::<usize>::empty().push(x as usize) =~= s1);
    }
}

/// Every node in the preorder of `a` is in range.
pub proof fn lemma_dfs_in_range(ch: Seq<Seq<usize>>, hs: Seq<nat>, a: int)
    requires
        heights_ok(ch, hs),
        0 <= a < ch.len(),
    ensures
        forall|k: int| 0 <= k < dfs_seq(ch, hs, a).len() ==> #[trigger] dfs_seq(ch, hs, a)[k] < ch.len(),
    decreases hs[a], ch[a].len() + 1,
{
    let x = dfs_children(ch, hs, a, ch[a].len() as int);
    lemma_dfs_children_in_range(ch, hs, a, ch[a].len() as int);
    let s = dfs_seq(ch, hs, a);
    assert(s == seq![a as usize] + x);
    assert forall|k: int| 0 <= k < s.len() implies #[trigger] s[k] < ch.len() by {
        if k > 0 {
            assert(s[k] == x[k - 1]);
        }
    }
}

/// Every node in the preorders of the first `k` children of `a` is in range.
pub proof fn lemma_dfs_children_in_range(ch: Seq<Seq<usize>>, hs: Seq<nat>, a: int, k: int)
    requires
        heights_ok(ch, hs),
        0 <= a < ch.len(),
        0 <= k <= ch[a].len(),
    ensures
        forall|m: int|
            0 <= m < dfs_children(ch, hs, a, k).len() ==> #[trigger] dfs_children(ch, hs, a, k)[m]
                < ch.len(),
    decreases hs[a], k,
{
    if k > 0 {
        lemma_dfs_children_in_range(ch, hs, a, k - 1);
        let c = ch[a][k - 1] as int;
        assert(c < ch.len() && hs[c] < hs[a]);
        lemma_dfs_in_range(ch, hs, c);
        let x = dfs_children(ch, hs, a, k - 1);
        let y = dfs_seq(ch, hs, c);
        let s = dfs_children(ch, hs, a, k);
        assert(s == x + y);
        assert forall|m: int| 0 <= m < s.len() implies #[trigger] s[m] < ch.len() by {
            if m < x.len() {
                assert(s[m] == x[m]);
            } else {
                assert(s[m] == y[m - x.len()]);
            }
        }
    }
}

/// Nodes in the preorder of `a` rank no higher than `a`.
pub proof fn lemma_dfs_heights(ch: Seq<Seq<usize>>, hs: Seq<nat>, a: int)
    requires
        heights_ok(ch, hs),
        0 <= a < ch.len(),
    ensures
        forall|k: int|
            0 <= k < dfs_seq(ch, hs, a).len() ==> hs[#[trigger] dfs_seq(ch, hs, a)[k] as int] <= hs[a],
    decreases hs[a], ch[a].len() + 1,
{
    let x = dfs_children(ch, hs, a, ch[a].len() as int);
    lemma_dfs_children_heights(ch, hs, a, ch[a].len() as int);
    let s = dfs_seq(ch, hs, a);
    assert(s == seq![a as usize] + x);
    assert forall|k: int| 0 <= k < s.len() implies hs[#[trigger] s[k] as int] <= hs[a] by {
        if k > 0 {
            assert(s[k] == x[k - 1]);
        }
    }
}

/// Nodes in the preorders of the first `k` children of `a` rank strictly below `a`.
pub proof fn lemma_dfs_children_heights(ch: Seq<Seq<usize>>, hs: Seq<nat>, a: int, k: int)
    requires
        heights_ok(ch, hs),
        0 <= a < ch.len(),
        0 <= k <= ch[a].len(),
    ensures
        forall|m: int|
            0 <= m < dfs_children(ch, hs, a, k).len() ==> hs[#[trigger] dfs_children(ch, hs, a, k)[m] as int]
                < hs[a],
    decreases hs[a], k,
{
    if k > 0 {
        lemma_dfs_children_heights(ch, hs, a, k - 1);
        let c = ch[a][k - 1] as int;
        assert(c < ch.len() && hs[c] < hs[a]);
        lemma_dfs_heights(ch, hs, c);
        let x = dfs_children(ch, hs, a, k - 1);
        let y = dfs_seq(ch, hs, c);
        let s = dfs_children(ch, hs, a, k);
        assert(s == x + y);
        assert forall|m: int| 0 <= m < s.len() implies hs[#[trigger] s[m] as int] < hs[a] by {
            if m < x.len() {
                assert(s[m] == x[m]);
            } else {
                assert(s[m] == y[m - x.len()]);
            }
        }
    }
}

/// A node in the preorders of the first `k` children of `a` lies in the preorder of one of them.
pub proof fn lemma_children_member(ch: Seq<Seq<usize>>, hs: Seq<nat>, a: int, k: int, x: usize) -> (i: int)
    requires
        heights_ok(ch, hs),
        0 <= a < ch.len(),
        0 <= k <= ch[a].len(),
        dfs_children(ch, hs, a, k).contains(x),
    ensures
        0 <= i < k,
        dfs_seq(ch, hs, ch[a][i] as int).contains(x),
    decreases k,
{
    let l = dfs_children(ch, hs, a, k - 1);
    let y = dfs_seq(ch, hs, ch[a][k - 1] as int);
    let s = dfs_children(ch, hs, a, k);
    assert(s == l + y);
    let m = choose|m: int| 0 <= m < s.len() && s[m] == x;
    if m < l.len() {
        assert(l[m] == x);
        lemma_children_member(ch, hs, a, k - 1, x)
    } else {
        assert(y[m - l.len()] == x);
        k - 1
    }
}

/// The preorder of child `i` of `a` is part of the preorders of the first `k > i` children.
pub proof fn lemma_children_include(ch: Seq<Seq<usize>>, hs: Seq<nat>, a: int, k: int, i: int, x: usize)
    requires
        heights_ok(ch, hs),
        0 <= a < ch.len(),
        0 <= i < k <= ch[a].len(),
        dfs_seq(ch, hs, ch[a][i] as int).contains(x),
    ensures
        dfs_children(ch, hs, a, k).contains(x),
    decreases k,
{
    let l = dfs_children(ch, hs, a, k - 1);
    let y = dfs_seq(ch, hs, ch[a][k - 1] as int);
    let s = dfs_children(ch, hs, a, k);
    assert(s == l + y);
    if i < k - 1 {
        lemma_children_include(ch, hs, a, k - 1, i, x);
        let m = choose|m: int| 0 <= m < l.len() && l[m] == x;
        assert(s[m] == x);
    } else {
        let m = choose|m: int| 0 <= m < y.len() && y[m] == x;
        assert(s[l.len() + m] == x);
    }
}

/// The preorder of a child of `a` is part of the preorder of `a`.
pub proof fn lemma_child_subtree(ch: Seq<Seq<usize>>, hs: Seq<nat>, a: int, i: int, x: usize)
    requires
        heights_ok(ch, hs),
        0 <= a < ch.len(),
        0 <= i < ch[a].len(),
        dfs_seq(ch, hs, ch[a][i] as int).contains(x),
    ensures
        dfs_seq(ch, hs, a).contains(x),
{
    lemma_children_include(ch, hs, a, ch[a].len() as int, i, x);
    let l = dfs_children(ch, hs, a, ch[a].len() as int);
    let s = dfs_seq(ch, hs, a);
    assert(s == seq![a as usize] + l);
    let m = choose|m: int| 0 <= m < l.len() && l[m] == x;
    assert(s[m + 1] == x);
}

/// A node is the first entry of its own preorder.
pub proof fn lemma_dfs_self(ch: Seq<Seq<usize>>, hs: Seq<nat>, a: int)
    requires
        heights_ok(ch, hs),
        0 <= a < ch.len(),
    ensures
        dfs_seq(ch, hs, a).contains(a as usize),
        dfs_seq(ch, hs, a)[0] == a as usize,
{
    assert(dfs_seq(ch, hs, a)[0] == a as usize);
}

/// The preorder of `a` is closed under children: a child of a member is a member.
pub proof fn lemma_dfs_child_closed(ch: Seq<Seq<usize>>, hs: Seq<nat>, a: int, x: usize, j: int)
    requires
        heights_ok(ch, hs),
        0 <= a < ch.len(),
        dfs_seq(ch, hs, a).contains(x),
        x < ch.len(),
        0 <= j < ch[x as int].len(),
    ensures
        dfs_seq(ch, hs, a).contains(ch[x as int][j]),
    decreases hs[a],
{
    let c = ch[x as int][j];
    assert(c < ch.len());
    if x == a as usize {
        lemma_dfs_self(ch, hs, c as int);
        lemma_child_subtree(ch, hs, a, j, c);
    } else {
        let s = dfs_seq(ch, hs, a);
        let l = dfs_children(ch, hs, a, ch[a].len() as int);
        assert(s == seq![a as usize] + l);
        let m = choose|m: int| 0 <= m < s.len() && s[m] == x;
        assert(l[m - 1] == x);
        let i = lemma_children_member(ch, hs, a, ch[a].len() as int, x);
        let b = ch[a][i] as int;
        assert(b < ch.len() && hs[b] < hs[a]);
        lemma_dfs_child_closed(ch, hs, b, x, j);
        lemma_child_subtree(ch, hs, a, i, c);
    }
}

/// Parent links agree with child links.
pub open spec fn parents_ok(ch: Seq<Seq<usize>>, par: Seq<Option<usize>>) -> bool {
    forall|i: int, j: int|
        0 <= i < ch.len() && 0 <= j < ch[i].len() ==> par[#[trigger] ch[i][j] as int] == Some(i as usize)
}

/// The preorder of `a` is closed under parents, except at `a` itself: every other member has a
/// parent, and that parent is a member.
pub proof fn lemma_dfs_parent_closed(
    ch: Seq<Seq<usize>>,
    hs: Seq<nat>,
    par: Seq<Option<usize>>,
    a: int,
    c: usize,
)
    requires
        heights_ok(ch, hs),
        parents_ok(ch, par),
        0 <= a < ch.len(),
        dfs_seq(ch, hs, a).contains(c),
        c != a as usize,
    ensures
        par[c as int] is Some,
        dfs_seq(ch, hs, a).contains(par[c as int].unwrap()),
    decreases hs[a],
{
    let s = dfs_seq(ch, hs, a);
    let l = dfs_children(ch, hs, a, ch[a].len() as int);
    assert(s == seq![a as usize] + l);
    let m = choose|m: int| 0 <= m < s.len() && s[m] == c;
    assert(l[m - 1] == c);
    let i = lemma_children_member(ch, hs, a, ch[a].len() as int, c);
    let b = ch[a][i];
    assert(b < ch.len() && hs[b as int] < hs[a]);
    if c == b {
        assert(par[c as int] == Some(a as usize));
        lemma_dfs_self(ch, hs, a);
    } else {
        lemma_dfs_parent_closed(ch, hs, par, b as int, c);
        lemma_child_subtree(ch, hs, a, i, par[c as int].unwrap());
    }
}

/// Every parent lists its children: a node with a parent appears in that parent's child list.
pub open spec fn listed_by_parent(ch: Seq<Seq<usize>>, par: Seq<Option<usize>>) -> bool {
    forall|c: int|
        0 <= c < par.len() && (#[trigger] par[c]) is Some ==> par[c]->0 < ch.len() && ch[par[c]->0 as int].contains(
            c as usize,
        )
}

/// No child list names a node twice.
pub open spec fn lists_unique(ch: Seq<Seq<usize>>) -> bool {
    forall|i: int| 0 <= i < ch.len() ==> (#[trigger] ch[i]).no_duplicates()
}

/// The preorders of two different children of a node share no entry.
proof fn lemma_sibling_subtrees_disjoint(
    ch: Seq<Seq<usize>>,
    hs: Seq<nat>,
    par: Seq<Option<usize>>,
    a: int,
    c1: usize,
    c2: usize,
    x: usize,
)
    requires
        heights_ok(ch, hs),
        parents_ok(ch, par),
        listed_by_parent(ch, par),
        par.len() == ch.len(),
        0 <= a < ch.len(),
        ch[a].contains(c1),
        ch[a].contains(c2),
        c1 != c2,
    ensures
        !(dfs_seq(ch, hs, c1 as int).contains(x) && dfs_seq(ch, hs, c2 as int).contains(x)),
    decreases hs[a] - hs[x as int],
{
    if !(dfs_seq(ch, hs, c1 as int).contains(x) && dfs_seq(ch, hs, c2 as int).contains(x)) {
        return;
    }
    let i1 = choose|i: int| 0 <= i < ch[a].len() && ch[a][i] == c1;
    let i2 = choose|i: int| 0 <= i < ch[a].len() && ch[a][i] == c2;
    assert(ch[a][i1] == c1 && ch[a][i2] == c2);
    assert(c1 < ch.len() && hs[c1 as int] < hs[a] && par[c1 as int] == Some(a as usize));
    assert(c2 < ch.len() && hs[c2 as int] < hs[a] && par[c2 as int] == Some(a as usize));
    lemma_dfs_heights(ch, hs, c1 as int);
    lemma_dfs_heights(ch, hs, c2 as int);
    lemma_dfs_in_range(ch, hs, c1 as int);
    if x == c1 {
        lemma_dfs_parent_closed(ch, hs, par, c2 as int, x);
        let k = choose|k: int| 0 <= k < dfs_seq(ch, hs, c2 as int).len() && dfs_seq(ch, hs, c2 as int)[k] == a as usize;
        assert(hs[dfs_seq(ch, hs, c2 as int)[k] as int] <= hs[c2 as int]);
    } else if x == c2 {
        lemma_dfs_parent_closed(ch, hs, par, c1 as int, x);
        let k = choose|k: int| 0 <= k < dfs_seq(ch, hs, c1 as int).len() && dfs_seq(ch, hs, c1 as int)[k] == a as usize;
        assert(hs[dfs_seq(ch, hs, c1 as int)[k] as int] <= hs[c1 as int]);
    } else {
        lemma_dfs_parent_closed(ch, hs, par, c1 as int, x);
        lemma_dfs_parent_closed(ch, hs, par, c2 as int, x);
        let p = par[x as int]->0;
        let kx = choose|k: int| 0 <= k < dfs_seq(ch, hs, c1 as int).len() && dfs_seq(ch, hs, c1 as int)[k] == x;
        assert(dfs_seq(ch, hs, c1 as int)[kx] < ch.len());
        assert(ch[p as int].contains(x));
        let j = choose|j: int| 0 <= j < ch[p as int].len() && ch[p as int][j] == x;
        assert(ch[p as int][j] == x);
        assert(hs[x as int] < hs[p as int]);
        let kp = choose|k: int| 0 <= k < dfs_seq(ch, hs, c1 as int).len() && dfs_seq(ch, hs, c1 as int)[k] == p;
        assert(hs[dfs_seq(ch, hs, c1 as int)[kp] as int] <= hs[c1 as int]);
        lemma_sibling_subtrees_disjoint(ch, hs, par, a, c1, c2, p);
    }
}

/// The preorders of the first `k` children of `a` name no node twice.
proof fn lemma_dfs_children_unique(ch: Seq<Seq<usize>>, hs: Seq<nat>, par: Seq<Option<usize>>, a: int, k: int)
    requires
        heights_ok(ch, hs),
        parents_ok(ch, par),
        listed_by_parent(ch, par),
        lists_unique(ch),
        par.len() == ch.len(),
        0 <= a < ch.len(),
        0 <= k <= ch[a].len(),
    ensures
        dfs_children(ch, hs, a, k).no_duplicates(),
    decreases hs[a], k,
{
    if k > 0 {
        lemma_dfs_children_unique(ch, hs, par, a, k - 1);
        let c = ch[a][k - 1] as int;
        assert(c < ch.len() && hs[c] < hs[a]);
        lemma_dfs_unique(ch, hs, par, c);
        let l = dfs_children(ch, hs, a, k - 1);
        let y = dfs_seq(ch, hs, c);
        assert(dfs_children(ch, hs, a, k) == l + y);
        assert forall|m: int, n: int| 0 <= m < l.len() && 0 <= n < y.len() implies l[m] != y[n] by {
            if l[m] == y[n] {
                let x = l[m];
                assert(l.contains(x));
                let i = lemma_children_member(ch, hs, a, k - 1, x);
                let ci = ch[a][i];
                assert(ch[a].contains(ci));
                assert(ch[a].contains(ch[a][k - 1]));
                assert(ch[a].no_duplicates());
                assert(ci != ch[a][k - 1]);
                assert(y.contains(x));
                lemma_sibling_subtrees_disjoint(ch, hs, par, a, ci, ch[a][k - 1], x);
            }
        }
        vstd::seq_lib::lemma_no_dup_in_concat(l, y);
    }
}

/// The preorder of `a` names no node twice.
pub proof fn lemma_dfs_unique(ch: Seq<Seq<usize>>, hs: Seq<nat>, par: Seq<Option<usize>>, a: int)
    requires
        heights_ok(ch, hs),
        parents_ok(ch, par),
        listed_by_parent(ch, par),
        lists_unique(ch),
        par.len() == ch.len(),
        0 <= a < ch.len(),
    ensures
        dfs_seq(ch, hs, a).no_duplicates(),
    decreases hs[a], ch[a].len() + 1,
{
    let l = dfs_children(ch, hs, a, ch[a].len() as int);
    lemma_dfs_children_unique(ch, hs, par, a, ch[a].len() as int);
    lemma_dfs_children_heights(ch, hs, a, ch[a].len() as int);
    assert(dfs_seq(ch, hs, a) == seq![a as usize] + l);
    let head = seq![a as usize];
    assert forall|m: int, n: int| 0 <= m < head.len() && 0 <= n < l.len() implies #[trigger] head[m] != #[trigger] l[n] by {
        assert(hs[l[n] as int] < hs[a]);
    }
    vstd::seq_lib::lemma_no_dup_in_concat(head, l);
}

impl World {
    /// Number of nodes in storage (reachable or detached).
    pub closed spec fn node_count(self) -> nat {
        self.nodes@.len()
    }

    /// Parent of each node.
    pub closed spec fn parents(self) -> Seq<Option<usize>> {
        self.nodes@.map_values(|n: Node| n.parent)
    }

    /// Ordered children of each node.
    pub closed spec fn child_lists(self) -> Seq<Seq<usize>> {
        self.nodes@.map_values(|n: Node| n.children@)
    }

    /// Data of each node.
    pub closed spec fn node_data(self) -> Seq<NodeData> {
        self.nodes@.map_values(|n: Node| n.data)
    }

    /// Whether `id` names a node in storage.
    pub open spec fn contains(self, id: EntityId) -> bool {
        id.0 < self.node_count()
    }

    /// Ranks of the nodes: every child ranks strictly below its parent (see `World::wf`).
    pub closed spec fn ranks(self) -> Seq<nat> {
        self.heights@
    }

    /// Depth-first preorder of the nodes reachable from `a` (including `a`).
    pub open spec fn subtree(self, a: int) -> Seq<usize> {
        dfs_seq(self.child_lists(), self.ranks(), a)
    }

    /// A well-formed world's child lists admit its ranks and its links agree.
    pub proof fn lemma_wf_ranks(self)
        requires
            self.wf(),
        ensures
            heights_ok(self.child_lists(), self.ranks()),
            parents_ok(self.child_lists(), self.parents()),
            self.node_count() >= 1,
            self.parents().len() == self.node_count(),
            self.child_lists().len() == self.node_count(),
            self.node_data().len() == self.node_count(),
    {
    }

    /// Depth-first preorder of all nodes reachable from the root, including inactive ones.
    pub open spec fn dfs_order(self) -> Seq<usize> {
        self.subtree(0)
    }

    /// Structural well-formedness: a non-empty forest whose parent and child links agree, whose
    /// child lists name no node twice, and whose child links never form a cycle.
    pub closed spec fn wf(self) -> bool {
        let n = self.nodes@.len();
        let ch = self.child_lists();
        let par = self.parents();
        &&& n >= 1
        &&& heights_ok(ch, self.heights@)
        &&& lists_unique(ch)
        &&& forall|i: int| 0 <= i < n ==> #[trigger] self.heights@[i] < self.height_bound@
        &&& forall|i: int, j: int|
            0 <= i < n && 0 <= j < ch[i].len() ==> par[#[trigger] ch[i][j] as int] == Some(
                i as usize,
            )
        &&& forall|c: int|
            0 <= c < n && (#[trigger] par[c]) is Some ==> par[c].unwrap() < n && ch[par[c].unwrap() as int].contains(
                c as usize,
            )
    }

    /// Create a new world holding only the root (index 0) with default data.
    pub fn new() -> (w: Self)
        ensures
            w.wf(),
            w.node_count() == 1,
            w.parents() == seq![None::<usize>],
            w.child_lists() == seq![Seq::<usize>::empty()],
            spec_default_node_data(w.node_data()[0]),
    {
        let mut nodes: Vec<Node> = Vec::new();
        nodes.push(Node { data: NodeData::default(), parent: None, children: Vec::new() });
        let ghost hs = seq![0nat];
        let ghost hb = 1nat;
        let w = World { nodes, heights: Ghost(hs), height_bound: Ghost(hb) };
        assert(w.child_lists() =~= seq![Seq::<usize>::empty()]);
        assert(w.parents() =~= seq![None::<usize>]);
        w
    }

    /// Spawn a new entity as the last child of `parent`. Returns the new entity id, which is the
    /// next free index.
    pub fn spawn(&mut self, parent: EntityId) -> (id: EntityId)
        requires
            old(self).wf(),
            old(self).contains(parent),
            old(self).node_count() < usize::MAX,
        ensures
            final(self).wf(),
            id.0 == old(self).node_count(),
            final(self).node_count() == old(self).node_count() + 1,
            final(self).parents() == old(self).parents().push(Some(parent.0)),
            final(self).child_lists() == old(self).child_lists().update(
                parent.0 as int,
                old(self).child_lists()[parent.0 as int].push(id.0),
            ).push(Seq::<usize>::empty()),
            final(self).node_data().drop_last() == old(self).node_data(),
            spec_default_node_data(final(self).node_data()[id.0 as int]),
    {
        let ghost old_self = *self;
        let id = self.nodes.len();
        self.nodes.push(Node { data: NodeData::default(), parent: Some(parent.0), children: Vec::new() });
        self.nodes[parent.0].children.push(id);
        proof {
            let n = old_self.nodes@.len();
            let p = parent.0 as int;
            self.heights = Ghost(
                Seq::new(n + 1, |i: int| if i < n { old_self.heights@[i] + 1 } else { 0nat }),
            );
            self.height_bound = Ghost(old_self.height_bound@ + 1);
            let ch0 = old_self.child_lists();
            let ch = self.child_lists();
            assert(self.nodes@.len() == n + 1);
            assert(ch =~= ch0.update(p, ch0[p].push(id)).push(Seq::<usize>::empty()));
            assert(self.parents() =~= old_self.parents().push(Some(parent.0)));
            assert(self.node_data().drop_last() =~= old_self.node_data());
            let hs = self.heights@;
            let par = self.parents();
            let par0 = old_self.parents();
            assert forall|i: int, j: int| 0 <= i < ch.len() && 0 <= j < ch[i].len() implies #[trigger] ch[i][j]
                < ch.len() && hs[ch[i][j] as int] < hs[i] && par[ch[i][j] as int] == Some(i as usize) by {
                if i == p && j == ch0[p].len() {
                    assert(ch[i][j] == id);
                } else {
                    assert(ch[i][j] == ch0[i][j]);
                }
            }
            assert forall|c: int| 0 <= c < n + 1 && (#[trigger] par[c]) is Some implies par[c].unwrap() < n + 1
                && ch[par[c].unwrap() as int].contains(c as usize) by {
                if c == n {
                    assert(ch[p][ch0[p].len() as int] == c as usize);
                } else {
                    let q = par0[c].unwrap() as int;
                    assert(ch0[q].contains(c as usize));
                    let k = choose|k: int| 0 <= k < ch0[q].len() && ch0[q][k] == c as usize;
                    assert(ch[q][k] == c as usize);
                }
            }
        }
        EntityId(id)
    }

    /// Data of `id` with the fields rewritten by `f`, or the world's data unchanged when `id` is
    /// not in storage.
    pub open spec fn data_updated(self, id: EntityId, d: NodeData) -> Seq<NodeData> {
        if self.contains(id) {
            self.node_data().update(id.0 as int, d)
        } else {
            self.node_data()
        }
    }

    /// The graph structure of `self` and `other` is the same (links, ranks and storage size).
    pub closed spec fn same_graph(self, other: World) -> bool {
        &&& self.nodes@.len() == other.nodes@.len()
        &&& self.parents() == other.parents()
        &&& self.child_lists() == other.child_lists()
        &&& self.heights@ == other.heights@
        &&& self.height_bound@ == other.height_bound@
    }

    /// Worlds with the same graph are equally well-formed and traverse alike.
    pub proof fn lemma_same_graph(self, other: World)
        requires
            self.same_graph(other),
        ensures
            self.wf() == other.wf(),
            self.node_count() == other.node_count(),
            self.parents() == other.parents(),
            self.child_lists() == other.child_lists(),
            forall|a: int| #[trigger] self.subtree(a) == other.subtree(a),
            self.dfs_order() == other.dfs_order(),
    {
    }

    /// Having the same graph is an equivalence.
    pub proof fn lemma_same_graph_equiv(self, b: World, c: World)
        ensures
            self.same_graph(self),
            self.same_graph(b) ==> b.same_graph(self),
            self.same_graph(b) && b.same_graph(c) ==> self.same_graph(c),
    {
    }

    /// A world that differs from `self` at most in the data of node `id` has the same graph, and
    /// its data is `self`'s with that one entry replaced.
    proof fn lemma_field_update(self, other: World, id: EntityId)
        requires
            other.nodes@.len() == self.nodes@.len(),
            other.heights == self.heights,
            other.height_bound == self.height_bound,
            forall|i: int|
                0 <= i < self.nodes@.len() && i != id.0 ==> #[trigger] other.nodes@[i] == self.nodes@[i],
            self.contains(id) ==> other.nodes@[id.0 as int].parent == self.nodes@[id.0 as int].parent
                && other.nodes@[id.0 as int].children@ == self.nodes@[id.0 as int].children@,
            !self.contains(id) ==> other.nodes@ == self.nodes@,
        ensures
            other.same_graph(self),
            other.node_data() == self.data_updated(id, other.node_data()[id.0 as int]),
    {
        assert(other.parents() =~= self.parents());
        assert(other.child_lists() =~= self.child_lists());
        if self.contains(id) {
            assert(other.node_data() =~= self.node_data().update(
                id.0 as int,
                other.node_data()[id.0 as int],
            ));
        } else {
            assert(other.node_data() =~= self.node_data());
        }
    }

    /// Get node data for an entity; `None` when the id is not in storage.
    pub fn get(&self, id: EntityId) -> (r: Option<&NodeData>)
        ensures
            r is Some <==> self.contains(id),
            r matches Some(d) ==> *d == self.node_data()[id.0 as int],
    {
        if id.0 < self.nodes.len() {
            Some(&self.nodes[id.0].data)
        } else {
            None
        }
    }

    /// Get mutable node data for an entity; `None` when the id is not in storage. Changes made
    /// through the reference touch only that entity's data, never the graph.
    pub fn get_mut(&mut self, id: EntityId) -> (r: Option<&mut NodeData>)
        ensures
            r is Some <==> old(self).contains(id),
            r is None ==> *final(self) == *old(self),
            r is Some ==> *r->0 == old(self).node_data()[id.0 as int],
            r is Some ==> final(self).same_graph(*old(self)),
            r is Some ==> final(self).node_data() == old(self).node_data().update(
                id.0 as int,
                *final(r->0),
            ),
    {
        let ghost old_self = *self;
        proof {
            assert forall|other: World|
                other.nodes@.len() == old_self.nodes@.len() && other.heights == old_self.heights
                    && other.height_bound == old_self.height_bound && (forall|i: int|
                    0 <= i < old_self.nodes@.len() && i != id.0 ==> #[trigger] other.nodes@[i]
                        == old_self.nodes@[i]) && (old_self.contains(id) ==> other.nodes@[id.0 as int].parent
                    == old_self.nodes@[id.0 as int].parent && other.nodes@[id.0 as int].children@
                    == old_self.nodes@[id.0 as int].children@) && (!old_self.contains(id) ==> other.nodes@
                    == old_self.nodes@) implies #[trigger] other.same_graph(old_self) by {
                old_self.lemma_field_update(other, id);
            }
        }
        if id.0 < self.nodes.len() {
            let r = &mut self.nodes[id.0].data;
            Some(r)
        } else {
            None
        }
    }

    /// Set transform for an entity. No-op when the id is not in storage.
    pub fn set_transform(&mut self, id: EntityId, transform: Transform)
        ensures
            final(self).same_graph(*old(self)),
            final(self).node_data() == old(self).data_updated(
                id,
                NodeData { transform, ..old(self).node_data()[id.0 as int] },
            ),
    {
        let ghost old_self = *self;
        if id.0 < self.nodes.len() {
            self.nodes[id.0].data.transform = transform;
        }
        proof {
            old_self.lemma_field_update(*self, id);
        }
    }

    /// Set primitive for an entity. No-op when the id is not in storage.
    pub fn set_primitive(&mut self, id: EntityId, primitive: Primitive)
        ensures
            final(self).same_graph(*old(self)),
            final(self).node_data() == old(self).data_updated(
                id,
                NodeData { primitive: Some(primitive), ..old(self).node_data()[id.0 as int] },
            ),
    {
        let ghost old_self = *self;
        if id.0 < self.nodes.len() {
            self.nodes[id.0].data.primitive = Some(primitive);
        }
        proof {
            old_self.lemma_field_update(*self, id);
        }
    }

    /// Set color (RGBA as `f32` bit patterns) for an entity. No-op when the id is not in storage.
    pub fn set_color(&mut self, id: EntityId, color: [u32; 4])
        ensures
            final(self).same_graph(*old(self)),
            final(self).node_data() == old(self).data_updated(
                id,
                NodeData { color: color, ..old(self).node_data()[id.0 as int] },
            ),
    {
        let ghost old_self = *self;
        if id.0 < self.nodes.len() {
            self.nodes[id.0].data.color = color;
        }
        proof {
            old_self.lemma_field_update(*self, id);
        }
    }

    /// Set material for an entity. Pass `None` for vertex color mode. No-op when the id is not in storage.
    pub fn set_material(&mut self, id: EntityId, material: Option<String>)
        ensures
            final(self).same_graph(*old(self)),
            final(self).node_data() == old(self).data_updated(
                id,
                NodeData { material: material, ..old(self).node_data()[id.0 as int] },
            ),
    {
        let ghost old_self = *self;
        if id.0 < self.nodes.len() {
            self.nodes[id.0].data.material = material;
        }
        proof {
            old_self.lemma_field_update(*self, id);
        }
    }

    /// Number of entities in storage, reachable or detached (the next spawned id).
    pub fn len(&self) -> (n: usize)
        ensures
            n == self.node_count(),
    {
        self.nodes.len()
    }

    /// Root entity (index 0). Use with `Self::children` to traverse the graph.
    pub fn root_entity(&self) -> (r: EntityId)
        ensures
            r == EntityId(0),
    {
        EntityId(0)
    }

    /// Children of an entity, in order. Returns an empty vec if the entity is not in storage.
    pub fn children(&self, id: EntityId) -> (r: Vec<EntityId>)
        ensures
            r@ == if self.contains(id) {
                self.child_lists()[id.0 as int].map_values(|c: usize| EntityId(c))
            } else {
                Seq::<EntityId>::empty()
            },
    {
        let mut out: Vec<EntityId> = Vec::new();
        if id.0 < self.nodes.len() {
            let ch = &self.nodes[id.0].children;
            let mut k: usize = 0;
            while k < ch.len()
                invariant
                    k <= ch@.len(),
                    ch@ == self.child_lists()[id.0 as int],
                    out@ == ch@.take(k as int).map_values(|c: usize| EntityId(c)),
                decreases ch@.len() - k,
            {
                out.push(EntityId(ch[k]));
                k = k + 1;
                assert(out@ =~= ch@.take(k as int).map_values(|c: usize| EntityId(c)));
            }
            assert(ch@.take(ch@.len() as int) =~= ch@);
        }
        out
    }

    /// Parent of an entity, if any. The root and detached entities have no parent.
    pub fn parent(&self, id: EntityId) -> (r: Option<EntityId>)
        ensures
            r == if self.contains(id) {
                match self.parents()[id.0 as int] {
                    Some(p) => Some(EntityId(p)),
                    None => None,
                }
            } else {
                None
            },
    {
        if id.0 < self.nodes.len() {
            match self.nodes[id.0].parent {
                Some(p) => Some(EntityId(p)),
                None => None,
            }
        } else {
            None
        }
    }

    /// Append the depth-first preorder of the subtree at `a` to `out`.
    fn dfs_visit(&self, a: usize, out: &mut Vec<usize>)
        requires
            self.wf(),
            a < self.nodes@.len(),
        ensures
            final(out)@ == old(out)@ + self.subtree(a as int),
        decreases self.heights@[a as int],
    {
        let ghost start = out@;
        let ghost ch = self.child_lists();
        let ghost hs = self.heights@;
        out.push(a);
        let n = self.nodes[a].children.len();
        let mut i: usize = 0;
        while i < n
            invariant
                self.wf(),
                ch == self.child_lists(),
                hs == self.heights@,
                a < self.nodes@.len(),
                n == ch[a as int].len(),
                i <= n,
                out@ == start + seq![a] + dfs_children(ch, hs, a as int, i as int),
            decreases n - i,
        {
            let c = self.nodes[a].children[i];
            assert(ch[a as int][i as int] == c);
            assert(c < ch.len() && hs[c as int] < hs[a as int]);
            self.dfs_visit(c, out);
            i = i + 1;
            assert(out@ =~= start + seq![a] + dfs_children(ch, hs, a as int, i as int));
        }
        assert(out@ =~= start + self.subtree(a as int));
    }

    /// Entities in depth-first preorder (root, then descendants), excluding inactive entities.
    /// Children of an inactive entity are still listed when they are active.
    pub fn entities_dfs(&self) -> (r: Vec<EntityId>)
        requires
            self.wf(),
        ensures
            r@ == active_only(self.dfs_order(), self.node_data()),
            r@.no_duplicates(),
            self.node_data()[0].active ==> r@.len() > 0 && r@[0] == EntityId(0),
    {
        proof {
            self.lemma_dfs_order_unique();
        }
        proof {
            lemma_dfs_in_range(self.child_lists(), self.heights@, 0);
            lemma_dfs_self(self.child_lists(), self.heights@, 0);
            lemma_active_only(self.dfs_order(), self.node_data());
        }
        let mut order: Vec<usize> = Vec::new();
        self.dfs_visit(0, &mut order);
        proof {
            lemma_dfs_in_range(self.child_lists(), self.heights@, 0);
            assert(order@ =~= self.dfs_order());
        }
        let mut out: Vec<EntityId> = Vec::new();
        let mut k: usize = 0;
        while k < order.len()
            invariant
                order@ == self.dfs_order(),
                forall|m: int| 0 <= m < order@.len() ==> #[trigger] order@[m] < self.nodes@.len(),
                k <= order@.len(),
                out@ == active_only(order@.take(k as int), self.node_data()),
            decreases order@.len() - k,
        {
            let i = order[k];
            let ghost prefix = order@.take(k as int + 1);
            assert(prefix.drop_last() =~= order@.take(k as int));
            assert(prefix.last() == i);
            if self.nodes[i].data.active {
                out.push(EntityId(i));
            }
            k = k + 1;
        }
        assert(order@.take(order@.len() as int) =~= order@);
        out
    }

    /// Whether `x` lies in the subtree rooted at `a` (including `a` itself). `false` when either
    /// id is not in storage.
    pub fn subtree_contains(&self, a: EntityId, x: EntityId) -> (r: bool)
        requires
            self.wf(),
        ensures
            r == (self.contains(a) && self.subtree(a.0 as int).contains(x.0)),
    {
        if a.0 >= self.nodes.len() {
            return false;
        }
        let mut sub: Vec<usize> = Vec::new();
        self.dfs_visit(a.0, &mut sub);
        assert(sub@ =~= self.subtree(a.0 as int));
        let mut k: usize = 0;
        while k < sub.len()
            invariant
                k <= sub@.len(),
                sub@ == self.subtree(a.0 as int),
                self.contains(a),
                forall|m: int| 0 <= m < k ==> sub@[m] != x.0,
            decreases sub@.len() - k,
        {
            if sub[k] == x.0 {
                assert(sub@[k as int] == x.0);
                return true;
            }
            k = k + 1;
        }
        false
    }

    /// Hard-remove an entity: it and all its descendants are detached (no parent, no children)
    /// and the entity leaves its parent's child list, so none of them is reachable from the root
    /// any more. Node data is kept. Entities that are not in storage or have no parent are left
    /// as they are. The root cannot be removed.
    pub fn remove(&mut self, id: EntityId)
        requires
            old(self).wf(),
            id.0 != 0,
        ensures
            final(self).wf(),
            final(self).node_count() == old(self).node_count(),
            final(self).node_data() == old(self).node_data(),
            !old(self).contains(id) || old(self).parents()[id.0 as int] is None ==> final(self).same_graph(*old(self)),
            old(self).contains(id) && old(self).parents()[id.0 as int] is Some ==> {
                let sub = old(self).subtree(id.0 as int);
                let p = old(self).parents()[id.0 as int].unwrap();
                &&& forall|x: int|
                    0 <= x < old(self).node_count() ==> #[trigger] final(self).parents()[x] == if sub.contains(
                        x as usize,
                    ) {
                        None
                    } else {
                        old(self).parents()[x]
                    }
                &&& forall|x: int|
                    0 <= x < old(self).node_count() ==> #[trigger] final(self).child_lists()[x] == if sub.contains(
                        x as usize,
                    ) {
                        Seq::<usize>::empty()
                    } else if x == p {
                        without(old(self).child_lists()[x], id.0)
                    } else {
                        old(self).child_lists()[x]
                    }
                &&& !sub.contains(0usize) ==> final(self).dfs_order() == without_all(old(self).dfs_order(), sub)
                &&& !sub.contains(0usize) ==> active_only(final(self).dfs_order(), final(self).node_data())
                    == without_ids(active_only(old(self).dfs_order(), old(self).node_data()), sub)
            },
            !final(self).dfs_order().contains(id.0),
    {
        let ghost old_self = *self;
        proof {
            if !old_self.contains(id) {
                lemma_dfs_in_range(old_self.child_lists(), old_self.heights@, 0);
                if old_self.dfs_order().contains(id.0) {
                    let m = choose|m: int| 0 <= m < old_self.dfs_order().len() && old_self.dfs_order()[m] == id.0;
                    assert(old_self.dfs_order()[m] < old_self.node_count());
                }
            } else if old_self.parents()[id.0 as int] is None {
                if old_self.dfs_order().contains(id.0) {
                    lemma_dfs_parent_closed(old_self.child_lists(), old_self.heights@, old_self.parents(), 0, id.0);
                }
            }
        }
        if id.0 >= self.nodes.len() {
            proof {
                assert(self.same_graph(old_self));
            }
            return;
        }
        let p = match self.nodes[id.0].parent {
            Some(p) => p,
            None => {
                proof {
                    assert(self.same_graph(old_self));
                }
                return;
            },
        };
        let mut sub: Vec<usize> = Vec::new();
        self.dfs_visit(id.0, &mut sub);
        let ghost ch0 = old_self.child_lists();
        let ghost par0 = old_self.parents();
        let ghost hs = old_self.heights@;
        let ghost n = old_self.nodes@.len();
        assert(sub@ =~= old_self.subtree(id.0 as int));
        proof {
            lemma_dfs_in_range(ch0, hs, id.0 as int);
            lemma_dfs_heights(ch0, hs, id.0 as int);
        }
        let mut k: usize = 0;
        while k < sub.len()
            invariant
                sub@ == dfs_seq(ch0, hs, id.0 as int),
                forall|m: int| 0 <= m < sub@.len() ==> #[trigger] sub@[m] < n,
                k <= sub@.len(),
                self.nodes@.len() == n,
                n <= usize::MAX,
                self.heights == old_self.heights,
                self.height_bound == old_self.height_bound,
                forall|x: int|
                    0 <= x < n ==> (#[trigger] self.nodes@[x]).data == old_self.nodes@[x].data,
                forall|x: int|
                    0 <= x < n ==> (#[trigger] self.nodes@[x]).parent == if sub@.take(k as int).contains(
                        x as usize,
                    ) {
                        None
                    } else {
                        old_self.nodes@[x].parent
                    },
                forall|x: int|
                    0 <= x < n ==> (#[trigger] self.nodes@[x]).children@ == if sub@.take(
                        k as int,
                    ).contains(x as usize) {
                        Seq::<usize>::empty()
                    } else {
                        old_self.nodes@[x].children@
                    },
            decreases sub@.len() - k,
        {
            let x = sub[k];
            let ghost mid = self.nodes@;
            self.nodes[x].parent = None;
            self.nodes[x].children = Vec::new();
            proof {
                assert forall|y: int| 0 <= y < n && y != x implies #[trigger] self.nodes@[y] == mid[y] by {}
                let t0 = sub@.take(k as int);
                let t1 = sub@.take(k as int + 1);
                assert(t1 =~= t0.push(x));
                assert forall|y: usize| #[trigger] t1.contains(y) <==> (t0.contains(y) || y == x) by {
                    if t1.contains(y) && y != x {
                        let m = choose|m: int| 0 <= m < t1.len() && t1[m] == y;
                        assert(t0[m] == y);
                    }
                    if t0.contains(y) {
                        let m = choose|m: int| 0 <= m < t0.len() && t0[m] == y;
                        assert(t1[m] == y);
                    }
                    if y == x {
                        assert(t1[k as int] == y);
                    }
                }
                assert forall|y: int| 0 <= y < n implies (#[trigger] self.nodes@[y]).parent == if t1.contains(
                    y as usize,
                ) {
                    None
                } else {
                    old_self.nodes@[y].parent
                } && self.nodes@[y].children@ == if t1.contains(y as usize) {
                    Seq::<usize>::empty()
                } else {
                    old_self.nodes@[y].children@
                } by {
                    if y != x {
                        assert(self.nodes@[y] == mid[y]);
                        assert(t1.contains(y as usize) == t0.contains(y as usize));
                    }
                }
            }
            k = k + 1;
        }
        proof {
            assert(sub@.take(sub@.len() as int) =~= sub@);
        }
        let kept = without_vec(&self.nodes[p].children, id.0);
        self.nodes[p].children = kept;
        proof {
            let sub_s = sub@;
            let ch = self.child_lists();
            let par = self.parents();
            lemma_dfs_self(ch0, hs, id.0 as int);
            lemma_without(ch0[p as int], id.0);
            assert(par0[id.0 as int] == Some(p));
            assert(p < n && ch0[p as int].contains(id.0));
            let jj = choose|jj: int| 0 <= jj < ch0[p as int].len() && ch0[p as int][jj] == id.0;
            assert(hs[id.0 as int] < hs[p as int]);
            assert(!sub_s.contains(p)) by {
                if sub_s.contains(p) {
                    let m = choose|m: int| 0 <= m < sub_s.len() && sub_s[m] == p;
                    assert(hs[sub_s[m] as int] <= hs[id.0 as int]);
                }
            }
            assert forall|x: int| 0 <= x < n implies #[trigger] ch[x] == if sub_s.contains(x as usize) {
                Seq::<usize>::empty()
            } else if x == p {
                without(ch0[x], id.0)
            } else {
                ch0[x]
            } by {
                assert(self.nodes@[x].children@ == ch[x]);
            }
            assert forall|x: int| 0 <= x < n implies #[trigger] par[x] == if sub_s.contains(x as usize) {
                None
            } else {
                par0[x]
            } by {
                assert(self.nodes@[x].parent == par[x]);
            }
            assert(self.node_data() =~= old_self.node_data());
            lemma_without_unique(ch0[p as int], id.0);
            assert forall|x: int| 0 <= x < ch.len() implies (#[trigger] ch[x]).no_duplicates() by {
                if !sub_s.contains(x as usize) && x != p {
                    assert(ch0[x].no_duplicates());
                }
            }
            // heights_ok and parent consistency for the new links
            assert forall|i: int, j: int| 0 <= i < ch.len() && 0 <= j < ch[i].len() implies #[trigger] ch[i][j]
                < ch.len() && hs[ch[i][j] as int] < hs[i] && par[ch[i][j] as int] == Some(i as usize) by {
                let c = ch[i][j];
                assert(!sub_s.contains(i as usize));
                if i == p as int {
                    assert(without(ch0[i], id.0).contains(c));
                    let jj2 = choose|jj2: int| 0 <= jj2 < ch0[i].len() && ch0[i][jj2] == c;
                    assert(ch0[i][jj2] == c);
                    assert(c != id.0);
                } else {
                    assert(ch0[i][j] == c);
                }
                let j0 = choose|j0: int| 0 <= j0 < ch0[i].len() && ch0[i][j0] == c;
                assert(ch0[i][j0] == c);
                assert(par0[c as int] == Some(i as usize));
                if sub_s.contains(c) {
                    if c != id.0 {
                        lemma_dfs_parent_closed(ch0, hs, par0, id.0 as int, c);
                    } else {
                        assert(i == p as int);
                    }
                }
            }
            assert forall|c: int| 0 <= c < n && (#[trigger] par[c]) is Some implies par[c].unwrap() < n
                && ch[par[c].unwrap() as int].contains(c as usize) by {
                assert(!sub_s.contains(c as usize));
                let q = par0[c].unwrap();
                assert(par[c] == par0[c]);
                assert(q < n && ch0[q as int].contains(c as usize));
                if sub_s.contains(q) {
                    let jq = choose|jq: int| 0 <= jq < ch0[q as int].len() && ch0[q as int][jq] == c as usize;
                    lemma_dfs_child_closed(ch0, hs, id.0 as int, q, jq);
                }
                if q == p {
                    assert(c as usize != id.0);
                    assert(without(ch0[q as int], id.0).contains(c as usize));
                }
            }
            assert(par[id.0 as int] is None);
            if self.dfs_order().contains(id.0) {
                lemma_dfs_parent_closed(ch, self.heights@, par, 0, id.0);
            }
            if !sub_s.contains(0usize) {
                old_self.lemma_wf_ranks();
                assert(heights_ok(ch, hs));
                assert forall|y: int| 0 <= y < ch0.len() && !sub_s.contains(y as usize) implies #[trigger] ch[y]
                    == without(ch0[y], id.0) by {
                    if y != p as int {
                        assert(!ch0[y].contains(id.0)) by {
                            if ch0[y].contains(id.0) {
                                let j = choose|j: int| 0 <= j < ch0[y].len() && ch0[y][j] == id.0;
                                assert(par0[ch0[y][j] as int] == Some(y as usize));
                            }
                        }
                        lemma_without_absent(ch0[y], id.0);
                    }
                }
                lemma_dfs_after_cut(ch0, ch, hs, par0, sub_s, id.0, 0);
                lemma_active_without_all(old_self.dfs_order(), old_self.node_data(), sub_s);
            }
        }
    }

    /// Child list of `x` after `reparent(id, new_parent)`: `id` leaves its old parent's list and
    /// is appended to the new parent's list.
    pub open spec fn reparented_children(self, id: usize, new_parent: usize, x: int) -> Seq<usize> {
        let old_list = if self.parents()[id as int] == Some(x as usize) {
            without(self.child_lists()[x], id)
        } else {
            self.child_lists()[x]
        };
        if x == new_parent {
            old_list.push(id)
        } else {
            old_list
        }
    }

    /// Reparent an entity: the entity and its subtree move under `new_parent`, appended as its
    /// last child. The new parent must not lie in the entity's subtree (that would create a
    /// cycle); in particular an entity cannot become its own parent.
    pub fn reparent(&mut self, id: EntityId, new_parent: EntityId)
        requires
            old(self).wf(),
            old(self).contains(id),
            old(self).contains(new_parent),
            !old(self).subtree(id.0 as int).contains(new_parent.0),
        ensures
            final(self).wf(),
            final(self).node_count() == old(self).node_count(),
            final(self).node_data() == old(self).node_data(),
            final(self).parents() == old(self).parents().update(id.0 as int, Some(new_parent.0)),
            forall|x: int|
                0 <= x < old(self).node_count() ==> #[trigger] final(self).child_lists()[x]
                    == old(self).reparented_children(id.0, new_parent.0, x),
    {
        let ghost old_self = *self;
        let ghost ch0 = old_self.child_lists();
        let ghost par0 = old_self.parents();
        let ghost hs0 = old_self.heights@;
        let ghost n = old_self.nodes@.len();
        let ghost sub = old_self.subtree(id.0 as int);
        let ghost q = par0[id.0 as int];
        if let Some(p) = self.nodes[id.0].parent {
            let kept = without_vec(&self.nodes[p].children, id.0);
            self.nodes[p].children = kept;
        }
        self.nodes[new_parent.0].children.push(id.0);
        self.nodes[id.0].parent = Some(new_parent.0);
        proof {
            let k = hs0[id.0 as int] + 1;
            self.heights = Ghost(
                Seq::new(n, |i: int| if sub.contains(i as usize) { hs0[i] } else { hs0[i] + k }),
            );
            self.height_bound = Ghost(old_self.height_bound@ + k);
            let hs = self.heights@;
            let ch = self.child_lists();
            let par = self.parents();
            let a = id.0;
            let np = new_parent.0;
            lemma_dfs_self(ch0, hs0, a as int);
            assert(np != a);
            assert forall|x: int| 0 <= x < n implies #[trigger] ch[x] == old_self.reparented_children(a, np, x) by {
                assert(self.nodes@[x].children@ == ch[x]);
            }
            assert(par =~= par0.update(a as int, Some(np)));
            assert(self.node_data() =~= old_self.node_data());
            assert forall|x: int| 0 <= x < ch.len() implies (#[trigger] ch[x]).no_duplicates() by {
                assert(ch0[x].no_duplicates());
                let old_list = if par0[a as int] == Some(x as usize) {
                    without(ch0[x], a)
                } else {
                    ch0[x]
                };
                lemma_without_unique(ch0[x], a);
                lemma_without(ch0[x], a);
                assert(old_list.no_duplicates());
                if x == np as int {
                    assert(!old_list.contains(a)) by {
                        if old_list.contains(a) && par0[a as int] != Some(x as usize) {
                            let j = choose|j: int| 0 <= j < ch0[x].len() && ch0[x][j] == a;
                            assert(ch0[x][j] == a);
                        }
                    }
                    assert forall|i: int, j: int| 0 <= i < j < old_list.push(a).len() implies old_list.push(a)[i]
                        != old_list.push(a)[j] by {
                        if j == old_list.len() {
                            assert(old_list.contains(old_list[i]));
                        }
                    }
                    assert(ch[x] == old_list.push(a));
                } else {
                    assert(ch[x] == old_list);
                }
            }
            if q is Some {
                lemma_without(ch0[q.unwrap() as int], a);
            }
            // every old link into `a` comes from `q`
            assert forall|i: int, j: int| 0 <= i < n && 0 <= j < ch0[i].len() && #[trigger] ch0[i][j] == a
                implies q == Some(i as usize) by {}
            assert forall|i: int, j: int| 0 <= i < ch.len() && 0 <= j < ch[i].len() implies #[trigger] ch[i][j]
                < ch.len() && hs[ch[i][j] as int] < hs[i] && par[ch[i][j] as int] == Some(i as usize) by {
                let c = ch[i][j];
                let base = if q == Some(i as usize) {
                    without(ch0[i], a)
                } else {
                    ch0[i]
                };
                if i == np as int && j == base.len() {
                    assert(c == a);
                    assert(!sub.contains(np));
                } else {
                    assert(base[j] == c);
                    assert(base.contains(c));
                    if q == Some(i as usize) {
                        lemma_without(ch0[i], a);
                        assert(c != a);
                    }
                    assert(ch0[i].contains(c));
                    let j0 = choose|j0: int| 0 <= j0 < ch0[i].len() && ch0[i][j0] == c;
                    assert(ch0[i][j0] == c);
                    assert(c != a);
                    assert(par0[c as int] == Some(i as usize));
                    if sub.contains(c) {
                        lemma_dfs_parent_closed(ch0, hs0, par0, a as int, c);
                    } else if sub.contains(i as usize) {
                        lemma_dfs_child_closed(ch0, hs0, a as int, i as usize, j0);
                    }
                }
            }
            assert forall|c: int| 0 <= c < n && (#[trigger] par[c]) is Some implies par[c].unwrap() < n
                && ch[par[c].unwrap() as int].contains(c as usize) by {
                if c == a as int {
                    let l = ch[np as int];
                    assert(l[l.len() - 1] == a);
                } else {
                    let r = par0[c].unwrap();
                    assert(par[c] == par0[c]);
                    assert(ch0[r as int].contains(c as usize));
                    let base = if q == Some(r) {
                        without(ch0[r as int], a)
                    } else {
                        ch0[r as int]
                    };
                    if q == Some(r) {
                        lemma_without(ch0[r as int], a);
                    }
                    assert(base.contains(c as usize));
                    let m = choose|m: int| 0 <= m < base.len() && base[m] == c as usize;
                    if r == np {
                        assert(base.push(a)[m] == c as usize);
                    }
                    assert(ch[r as int][m] == c as usize);
                }
            }
        }
    }

    /// Law: the depth-first order of a world lists every reachable entity once; so does
    /// `entities_dfs`.
    pub proof fn lemma_dfs_order_unique(self)
        requires
            self.wf(),
        ensures
            self.dfs_order().no_duplicates(),
            active_only(self.dfs_order(), self.node_data()).no_duplicates(),
    {
        let ch = self.child_lists();
        let par = self.parents();
        assert(listed_by_parent(ch, par)) by {
            assert forall|c: int| 0 <= c < par.len() && (#[trigger] par[c]) is Some implies par[c]->0 < ch.len()
                && ch[par[c]->0 as int].contains(c as usize) by {
                assert(self.nodes@[c].parent == par[c]);
            }
        }
        lemma_dfs_unique(ch, self.heights@, par, 0);
        lemma_dfs_in_range(ch, self.heights@, 0);
        lemma_active_only_unique(self.dfs_order(), self.node_data());
    }

    /// Parent and child links agree: `x` is listed among the children of `p` exactly when the
    /// parent of `x` is `p`.
    pub proof fn lemma_links_agree(self)
        requires
            self.wf(),
        ensures
            forall|p: int, x: int|
                0 <= p < self.node_count() && 0 <= x < self.node_count() ==> (#[trigger] self.child_lists()[p].contains(
                    x as usize,
                ) <==> #[trigger] self.parents()[x] == Some(p as usize)),
    {
        let ch = self.child_lists();
        let par = self.parents();
        assert forall|p: int, x: int|
            0 <= p < self.node_count() && 0 <= x < self.node_count() implies (#[trigger] ch[p].contains(
                x as usize,
            ) <==> #[trigger] par[x] == Some(p as usize)) by {
            if ch[p].contains(x as usize) {
                let j = choose|j: int| 0 <= j < ch[p].len() && ch[p][j] == x as usize;
                assert(par[ch[p][j] as int] == Some(p as usize));
            }
        }
    }

    /// The entities on the parent chain of `id`, from its topmost ancestor (an entity without a
    /// parent, normally the root) down to `id` itself.
    pub fn path_from_root(&self, id: EntityId) -> (path: Vec<EntityId>)
        requires
            self.wf(),
            self.contains(id),
        ensures
            path@.len() >= 1,
            path@.last() == id,
            self.parents()[path@[0].0 as int] is None,
            forall|k: int|
                0 <= k < path@.len() - 1 ==> self.parents()[#[trigger] path@[k + 1].0 as int] == Some(
                    path@[k].0,
                ),
            forall|k: int| 0 <= k < path@.len() ==> self.contains(#[trigger] path@[k]),
    {
        let ghost par = self.parents();
        let ghost ch = self.child_lists();
        let ghost hs = self.heights@;
        let mut up: Vec<EntityId> = Vec::new();
        let mut cur: usize = id.0;
        up.push(id);
        loop
            invariant
                self.wf(),
                par == self.parents(),
                ch == self.child_lists(),
                hs == self.heights@,
                cur < self.nodes@.len(),
                up@.len() >= 1,
                up@[0] == id,
                up@.last() == EntityId(cur),
                forall|k: int| 0 <= k < up@.len() ==> self.contains(#[trigger] up@[k]),
                forall|k: int|
                    0 <= k < up@.len() - 1 ==> par[#[trigger] up@[k].0 as int] == Some(up@[k + 1].0),
            ensures
                cur < self.nodes@.len(),
                par[cur as int] is None,
                up@.len() >= 1,
                up@[0] == id,
                up@.last() == EntityId(cur),
                forall|k: int| 0 <= k < up@.len() ==> self.contains(#[trigger] up@[k]),
                forall|k: int|
                    0 <= k < up@.len() - 1 ==> par[#[trigger] up@[k].0 as int] == Some(up@[k + 1].0),
            decreases self.height_bound@ - hs[cur as int],
        {
            match self.nodes[cur].parent {
                Some(p) => {
                    proof {
                        assert(par[cur as int] == Some(p));
                        let j = choose|j: int| 0 <= j < ch[p as int].len() && ch[p as int][j] == cur;
                        assert(ch[p as int][j] == cur);
                        assert(hs[p as int] < self.height_bound@);
                    }
                    up.push(EntityId(p));
                    cur = p;
                },
                None => {
                    break;
                },
            }
        }
        let n = up.len();
        let mut path: Vec<EntityId> = Vec::new();
        let mut k: usize = 0;
        while k < n
            invariant
                n == up@.len(),
                k <= n,
                path@ == up@.reverse().take(k as int),
            decreases n - k,
        {
            path.push(up[n - 1 - k]);
            k = k + 1;
            assert(path@ =~= up@.reverse().take(k as int));
        }
        assert(path@ =~= up@.reverse());
        path
    }

    /// Remove one entity from the scene by marking it inactive, so it is excluded from
    /// `Self::entities_dfs` and rendering. The graph is unchanged. The root cannot be despawned.
    pub fn despawn(&mut self, id: EntityId)
        ensures
            final(self).same_graph(*old(self)),
            final(self).node_data() == if id.0 == 0 {
                old(self).node_data()
            } else {
                old(self).data_updated(id, NodeData { active: false, ..old(self).node_data()[id.0 as int] })
            },
            old(self).wf() && id.0 != 0 && old(self).contains(id) ==> !active_only(
                final(self).dfs_order(),
                final(self).node_data(),
            ).contains(id),
            old(self).wf() && id.0 != 0 && old(self).contains(id) ==> active_only(
                final(self).dfs_order(),
                final(self).node_data(),
            ) == without_ids(active_only(old(self).dfs_order(), old(self).node_data()), seq![id.0]),
    {
        let ghost old_self = *self;
        if id.0 == 0 {
            proof {
                old_self.lemma_field_update(*self, id);
                assert(self.node_data() =~= old_self.node_data());
            }
            return;
        }
        if id.0 < self.nodes.len() {
            self.nodes[id.0].data.active = false;
        }
        proof {
            old_self.lemma_field_update(*self, id);
            if old_self.wf() && old_self.contains(id) {
                self.lemma_same_graph(old_self);
                lemma_dfs_in_range(self.child_lists(), self.heights@, 0);
                lemma_active_only(self.dfs_order(), self.node_data());
                lemma_active_deactivated(self.dfs_order(), old_self.node_data(), self.node_data(), id.0);
            }
        }
    }
}

/// A copy of `v` without the occurrences of `x`.
fn without_vec(v: &Vec<usize>, x: usize) -> (r: Vec<usize>)
    ensures
        r@ == without(v@, x),
{
    let mut out: Vec<usize> = Vec::new();
    let mut k: usize = 0;
    while k < v.len()
        invariant
            k <= v@.len(),
            out@ == without(v@.take(k as int), x),
        decreases v@.len() - k,
    {
        let ghost t = v@.take(k as int + 1);
        assert(t.drop_last() =~= v@.take(k as int));
        if v[k] != x {
            out.push(v[k]);
        }
        k = k + 1;
    }
    assert(v@.take(v@.len() as int) =~= v@);
    out
}


/// Number of parent links followed from `i` up to a node without a parent, when at most `fuel`
/// links may be followed; `None` when the chain is longer or leaves the index range.
pub open spec fn parent_depth(par: Seq<Option<usize>>, i: int, fuel: nat) -> Option<nat>
    decreases fuel,
{
    if !(0 <= i < par.len()) {
        None
    } else {
        match par[i] {
            None => Some(0nat),
            Some(p) => if fuel == 0 {
                None
            } else {
                match parent_depth(par, p as int, (fuel - 1) as nat) {
                    Some(d) => Some(d + 1),
                    None => None,
                }
            },
        }
    }
}

/// The `k`-th entry of the parent chain of `i` (`i` itself for `k == 0`).
pub open spec fn ancestor(par: Seq<Option<usize>>, i: int, k: nat) -> int
    decreases k,
{
    if k == 0 {
        i
    } else {
        match par[i] {
            Some(p) => ancestor(par, p as int, (k - 1) as nat),
            None => -1,
        }
    }
}

/// Parent and child lists that make a well-formed world of `n` nodes: the lists agree both
/// ways, every index is in range, no child list names a node twice, and every parent chain
/// reaches a node without a parent within `n` links.
pub open spec fn parts_ok(par: Seq<Option<usize>>, ch: Seq<Seq<usize>>, n: nat) -> bool {
    &&& n >= 1
    &&& n <= usize::MAX
    &&& par.len() == n
    &&& ch.len() == n
    &&& lists_unique(ch)
    &&& forall|i: int, j: int|
        0 <= i < n && 0 <= j < ch[i].len() ==> #[trigger] ch[i][j] < n && par[ch[i][j] as int] == Some(
            i as usize,
        )
    &&& forall|c: int|
        0 <= c < n && (#[trigger] par[c]) is Some ==> par[c]->0 < n && ch[par[c]->0 as int].contains(
            c as usize,
        )
    &&& forall|i: int| 0 <= i < n ==> (#[trigger] parent_depth(par, i, n)) is Some
}

/// A depth found with some fuel is found with any larger fuel, and is at most the fuel.
proof fn lemma_depth_mono(par: Seq<Option<usize>>, i: int, f: nat, g: nat)
    requires
        f <= g,
        parent_depth(par, i, f) is Some,
    ensures
        parent_depth(par, i, g) == parent_depth(par, i, f),
        parent_depth(par, i, f)->0 <= f,
    decreases f,
{
    if par[i] is Some && f > 0 {
        lemma_depth_mono(par, par[i]->0 as int, (f - 1) as nat, (g - 1) as nat);
    }
}

/// A parent chain that does not end within `f` links climbs through `f + 1` nodes of strictly
/// increasing rank.
proof fn lemma_long_chain(ch: Seq<Seq<usize>>, hs: Seq<nat>, par: Seq<Option<usize>>, i: int, f: nat)
    requires
        heights_ok(ch, hs),
        par.len() == ch.len(),
        forall|c: int|
            0 <= c < par.len() && (#[trigger] par[c]) is Some ==> par[c]->0 < par.len()
                && ch[par[c]->0 as int].contains(c as usize),
        0 <= i < par.len(),
        parent_depth(par, i, f) is None,
    ensures
        forall|k: nat| k <= f ==> 0 <= #[trigger] ancestor(par, i, k) < par.len(),
        forall|k: nat| k < f ==> hs[#[trigger] ancestor(par, i, k)] < hs[ancestor(par, i, k + 1)],
    decreases f,
{
    let p = par[i]->0 as int;
    assert(par[i] is Some);
    assert(ch[p].contains(i as usize));
    let j = choose|j: int| 0 <= j < ch[p].len() && ch[p][j] == i as usize;
    assert(ch[p][j] == i as usize);
    assert(hs[i] < hs[p]);
    if f > 0 {
        lemma_long_chain(ch, hs, par, p, (f - 1) as nat);
        assert forall|k: nat| k <= f implies 0 <= #[trigger] ancestor(par, i, k) < par.len() by {
            if k > 0 {
                assert(ancestor(par, i, k) == ancestor(par, p, (k - 1) as nat));
            }
        }
        assert forall|k: nat| k < f implies hs[#[trigger] ancestor(par, i, k)] < hs[ancestor(par, i, k + 1)] by {
            assert(ancestor(par, i, k + 1) == ancestor(par, p, k));
            if k > 0 {
                assert(ancestor(par, i, k) == ancestor(par, p, (k - 1) as nat));
            } else {
                assert(ancestor(par, p, 0) == p);
            }
        }
    }
}

/// Distinct integers of `[0, n)` number at most `n`.
proof fn lemma_distinct_in_range(s: Seq<int>, n: int)
    requires
        n >= 0,
        s.no_duplicates(),
        forall|k: int| 0 <= k < s.len() ==> 0 <= #[trigger] s[k] < n,
    ensures
        s.len() <= n,
{
    s.unique_seq_to_set();
    vstd::set_lib::lemma_int_range(0, n);
    assert forall|x: int| s.to_set().contains(x) implies vstd::set_lib::set_int_range(0, n).contains(x) by {
        assert(s.contains(x));
    }
    vstd::set_lib::lemma_len_subset(s.to_set(), vstd::set_lib::set_int_range(0, n));
}

/// In a world whose child lists admit ranks, every parent chain reaches a node without a parent
/// within as many links as there are nodes.
proof fn lemma_chains_end(ch: Seq<Seq<usize>>, hs: Seq<nat>, par: Seq<Option<usize>>, i: int)
    requires
        heights_ok(ch, hs),
        par.len() == ch.len(),
        forall|c: int|
            0 <= c < par.len() && (#[trigger] par[c]) is Some ==> par[c]->0 < par.len()
                && ch[par[c]->0 as int].contains(c as usize),
        0 <= i < par.len(),
    ensures
        parent_depth(par, i, par.len()) is Some,
{
    let n = par.len();
    if parent_depth(par, i, n) is None {
        lemma_long_chain(ch, hs, par, i, n);
        let s = Seq::new(n + 1, |k: int| ancestor(par, i, k as nat));
        assert forall|a: int, b: int| 0 <= a < b < s.len() implies hs[s[a]] < hs[s[b]] by {
            lemma_rank_climbs(hs, par, i, n, a as nat, b as nat);
        }
        assert forall|a: int, b: int| 0 <= a < s.len() && 0 <= b < s.len() && a != b implies s[a] != s[b] by {
            if a < b {
                lemma_rank_climbs(hs, par, i, n, a as nat, b as nat);
            } else {
                lemma_rank_climbs(hs, par, i, n, b as nat, a as nat);
            }
        }
        assert(s.no_duplicates());
        assert forall|k: int| 0 <= k < s.len() implies 0 <= #[trigger] s[k] < n by {
            assert(s[k] == ancestor(par, i, k as nat));
        }
        lemma_distinct_in_range(s, n as int);
    }
}

/// Along a chain of strictly increasing ranks, a later entry ranks above an earlier one.
proof fn lemma_rank_climbs(hs: Seq<nat>, par: Seq<Option<usize>>, i: int, f: nat, a: nat, b: nat)
    requires
        a < b <= f,
        forall|k: nat| k <= f ==> 0 <= #[trigger] ancestor(par, i, k) < par.len(),
        forall|k: nat| k < f ==> hs[#[trigger] ancestor(par, i, k)] < hs[ancestor(par, i, k + 1)],
    ensures
        hs[ancestor(par, i, a)] < hs[ancestor(par, i, b)],
    decreases b - a,
{
    if b > a + 1 {
        lemma_rank_climbs(hs, par, i, f, a, (b - 1) as nat);
        assert(hs[ancestor(par, i, (b - 1) as nat)] < hs[ancestor(par, i, ((b - 1) as nat + 1) as nat)]);
    }
}


/// A world taken apart into plain vectors, one entry per node: the parent, the ordered child
/// list and the node data. This is the form in which worlds are stored and loaded.
pub struct WorldParts {
    /// Parent of each node.
    pub parents: Vec<Option<usize>>,
    /// Ordered children of each node.
    pub children: Vec<Vec<usize>>,
    /// Data of each node.
    pub data: Vec<NodeData>,
}

impl WorldParts {
    /// The child lists as sequences.
    pub open spec fn child_views(self) -> Seq<Seq<usize>> {
        self.children@.map_values(|v: Vec<usize>| v@)
    }

    /// The parts form a well-formed world: as many data entries as nodes, and parent and child
    /// lists that satisfy `parts_ok`.
    pub open spec fn acceptable(self) -> bool {
        &&& self.data@.len() == self.parents@.len()
        &&& parts_ok(self.parents@, self.child_views(), self.parents@.len())
    }
}

/// `parts` describe `w` exactly: the same links and the same node data.
pub open spec fn parts_describe(parts: WorldParts, w: World) -> bool {
    &&& w.parents() == parts.parents@
    &&& w.child_lists() == parts.child_views()
    &&& w.node_data() == parts.data@
}

/// `parts` hold a copy of `w`: the same links, and node data that agree with `w`'s entry by
/// entry (material names by their text).
pub open spec fn parts_copy(parts: WorldParts, w: World) -> bool {
    &&& w.parents() == parts.parents@
    &&& w.child_lists() == parts.child_views()
    &&& parts.data@.len() == w.node_count()
    &&& forall|i: int| 0 <= i < w.node_count() ==> same_node_data(#[trigger] parts.data@[i], w.node_data()[i])
}

/// Whether `v` holds `x`.
fn vec_contains(v: &Vec<usize>, x: usize) -> (r: bool)
    ensures
        r == v@.contains(x),
{
    let mut k: usize = 0;
    while k < v.len()
        invariant
            k <= v@.len(),
            forall|m: int| 0 <= m < k ==> v@[m] != x,
        decreases v@.len() - k,
    {
        if v[k] == x {
            assert(v@[k as int] == x);
            return true;
        }
        k = k + 1;
    }
    false
}

/// Whether no entry of `v` occurs twice.
fn vec_unique(v: &Vec<usize>) -> (r: bool)
    ensures
        r == v@.no_duplicates(),
{
    let n = v.len();
    let mut i: usize = 0;
    while i < n
        invariant
            n == v@.len(),
            i <= n,
            forall|a: int, b: int| 0 <= a < i && a < b < n ==> v@[a] != v@[b],
        decreases n - i,
    {
        let mut j: usize = i + 1;
        while j < n
            invariant
                n == v@.len(),
                i < n,
                i + 1 <= j <= n,
                forall|a: int, b: int| 0 <= a < i && a < b < n ==> v@[a] != v@[b],
                forall|b: int| i < b < j ==> v@[i as int] != v@[b],
            decreases n - j,
        {
            if v[i] == v[j] {
                return false;
            }
            j = j + 1;
        }
        i = i + 1;
    }
    true
}

/// Whether the parent chain of `i` reaches a node without a parent within as many links as
/// there are nodes.
fn chain_ends(par: &Vec<Option<usize>>, i: usize) -> (r: bool)
    requires
        i < par@.len(),
        forall|c: int| 0 <= c < par@.len() && (#[trigger] par@[c]) is Some ==> par@[c]->0 < par@.len(),
    ensures
        r == parent_depth(par@, i as int, par@.len()) is Some,
{
    let n = par.len();
    let mut cur = i;
    let mut fuel = n;
    loop
        invariant
            n == par@.len(),
            cur < n,
            fuel <= n,
            forall|c: int| 0 <= c < par@.len() && (#[trigger] par@[c]) is Some ==> par@[c]->0 < par@.len(),
            (parent_depth(par@, i as int, n as nat) is Some) == (parent_depth(par@, cur as int, fuel as nat) is Some),
        decreases fuel,
    {
        match par[cur] {
            None => {
                return true;
            },
            Some(p) => {
                if fuel == 0 {
                    return false;
                }
                assert(par@[cur as int] is Some);
                cur = p;
                fuel = fuel - 1;
            },
        }
    }
}

impl World {
    /// A copy of this world taken apart into parent, child and data vectors.
    pub fn to_parts(&self) -> (parts: WorldParts)
        requires
            self.wf(),
        ensures
            parts_copy(parts, *self),
            parts.acceptable(),
    {
        let n = self.nodes.len();
        let mut parents: Vec<Option<usize>> = Vec::new();
        let mut children: Vec<Vec<usize>> = Vec::new();
        let mut data: Vec<NodeData> = Vec::new();
        let mut k: usize = 0;
        while k < n
            invariant
                n == self.nodes@.len(),
                k <= n,
                parents@ == self.parents().take(k as int),
                children@.map_values(|v: Vec<usize>| v@) == self.child_lists().take(k as int),
                data@.len() == k,
                forall|i: int| 0 <= i < k ==> same_node_data(#[trigger] data@[i], self.node_data()[i]),
            decreases n - k,
        {
            let node = &self.nodes[k];
            parents.push(node.parent);
            let mut list: Vec<usize> = Vec::new();
            let mut j: usize = 0;
            while j < node.children.len()
                invariant
                    j <= node.children@.len(),
                    list@ == node.children@.take(j as int),
                decreases node.children@.len() - j,
            {
                list.push(node.children[j]);
                j = j + 1;
                assert(list@ =~= node.children@.take(j as int));
            }
            assert(node.children@.take(node.children@.len() as int) =~= node.children@);
            assert(self.child_lists()[k as int] == node.children@);
            let ghost before_push = children@;
            children.push(list);
            assert(children@.map_values(|v: Vec<usize>| v@) =~= before_push.map_values(|v: Vec<usize>| v@).push(
                list@,
            ));
            data.push(node.data.duplicate());
            k = k + 1;
            assert(parents@ =~= self.parents().take(k as int));
            assert(children@.map_values(|v: Vec<usize>| v@) =~= self.child_lists().take(k as int));
        }
        assert(self.parents().take(n as int) =~= self.parents());
        assert(self.child_lists().take(n as int) =~= self.child_lists());
        let parts = WorldParts { parents, children, data };
        proof {
            lemma_parts_accepted(*self, parts);
        }
        parts
    }

    /// Rebuild a world from its parts. `None` when the parts do not form a well-formed world
    /// (see `WorldParts::acceptable`): mismatched lengths, no nodes, an index out of range,
    /// parent and child lists that disagree, or a cycle of parent links.
    pub fn from_parts(parts: WorldParts) -> (r: Option<World>)
        ensures
            r is Some <==> parts.acceptable(),
            r matches Some(w) ==> w.wf() && parts_describe(parts, w),
    {
        let ghost orig = parts;
        let WorldParts { parents, mut children, mut data } = parts;
        let ghost par = parents@;
        let ghost ch = orig.child_views();
        let n = parents.len();
        if n == 0 || children.len() != n || data.len() != n {
            return None;
        }
        // Child links: in range and matched by the parent links.
        let mut i: usize = 0;
        while i < n
            invariant
                n == par.len(),
                n == children@.len(),
                parents@ == par,
                children@.map_values(|v: Vec<usize>| v@) == ch,
                orig == parts,
                orig.parents@ == par,
                orig.child_views() == ch,
                orig.data@.len() == n,
                i <= n,
                forall|a: int, j: int|
                    0 <= a < i && 0 <= j < ch[a].len() ==> #[trigger] ch[a][j] < n && par[ch[a][j] as int]
                        == Some(a as usize),
            decreases n - i,
        {
            let m = children[i].len();
            let mut j: usize = 0;
            while j < m
                invariant
                    n == par.len(),
                    n == children@.len(),
                    parents@ == par,
                    children@.map_values(|v: Vec<usize>| v@) == ch,
                    orig == parts,
                    orig.parents@ == par,
                    orig.child_views() == ch,
                    orig.data@.len() == n,
                    i < n,
                    m == ch[i as int].len(),
                    j <= m,
                    forall|a: int, jj: int|
                        0 <= a < i && 0 <= jj < ch[a].len() ==> #[trigger] ch[a][jj] < n && par[ch[a][jj] as int]
                            == Some(a as usize),
                    forall|jj: int|
                        0 <= jj < j ==> #[trigger] ch[i as int][jj] < n && par[ch[i as int][jj] as int] == Some(
                            i as usize,
                        ),
                decreases m - j,
            {
                let c = children[i][j];
                assert(c == ch[i as int][j as int]);
                if c >= n {
                    return None;
                }
                match parents[c] {
                    Some(p) => {
                        if p != i {
                            return None;
                        }
                    },
                    None => {
                        return None;
                    },
                }
                j = j + 1;
            }
            i = i + 1;
        }
        // Child lists: no node listed twice.
        let mut u: usize = 0;
        while u < n
            invariant
                n == children@.len(),
                children@.map_values(|v: Vec<usize>| v@) == ch,
                orig == parts,
                orig.parents@ == par,
                orig.child_views() == ch,
                orig.data@.len() == n,
                n == par.len(),
                u <= n,
                forall|a: int| 0 <= a < u ==> (#[trigger] ch[a]).no_duplicates(),
            decreases n - u,
        {
            if !vec_unique(&children[u]) {
                assert(ch[u as int] == children@[u as int]@);
                return None;
            }
            u = u + 1;
        }
        // Parent links: in range and matched by the child lists.
        let mut c: usize = 0;
        while c < n
            invariant
                n == par.len(),
                n == children@.len(),
                parents@ == par,
                children@.map_values(|v: Vec<usize>| v@) == ch,
                orig == parts,
                orig.parents@ == par,
                orig.child_views() == ch,
                orig.data@.len() == n,
                forall|a: int, j: int|
                    0 <= a < n && 0 <= j < ch[a].len() ==> #[trigger] ch[a][j] < n && par[ch[a][j] as int]
                        == Some(a as usize),
                c <= n,
                forall|x: int|
                    0 <= x < c && (#[trigger] par[x]) is Some ==> par[x]->0 < n && ch[par[x]->0 as int].contains(
                        x as usize,
                    ),
            decreases n - c,
        {
            match parents[c] {
                Some(p) => {
                    if p >= n {
                        return None;
                    }
                    if !vec_contains(&children[p], c) {
                        return None;
                    }
                },
                None => {},
            }
            c = c + 1;
        }
        // Every parent chain ends.
        let mut k: usize = 0;
        while k < n
            invariant
                n == par.len(),
                parents@ == par,
                orig == parts,
                orig.parents@ == par,
                orig.child_views() == ch,
                orig.data@.len() == n,
                forall|a: int, j: int|
                    0 <= a < n && 0 <= j < ch[a].len() ==> #[trigger] ch[a][j] < n && par[ch[a][j] as int]
                        == Some(a as usize),
                forall|x: int|
                    0 <= x < n && (#[trigger] par[x]) is Some ==> par[x]->0 < n && ch[par[x]->0 as int].contains(
                        x as usize,
                    ),
                k <= n,
                forall|x: int| 0 <= x < k ==> (#[trigger] parent_depth(par, x, n as nat)) is Some,
            decreases n - k,
        {
            if !chain_ends(&parents, k) {
                return None;
            }
            k = k + 1;
        }
        assert(orig.acceptable());
        let ghost dat = data@;
        let mut nodes: Vec<Node> = Vec::new();
        let mut k: usize = 0;
        while k < n
            invariant
                n == par.len(),
                n == children@.len(),
                n == data@.len(),
                parents@ == par,
                k <= n,
                forall|x: int| k <= x < n ==> (#[trigger] children@[x])@ == ch[x],
                forall|x: int| k <= x < n ==> #[trigger] data@[x] == dat[x],
                nodes@.len() == k,
                forall|x: int|
                    0 <= x < k ==> (#[trigger] nodes@[x]).parent == par[x] && nodes@[x].children@ == ch[x]
                        && nodes@[x].data == dat[x],
            decreases n - k,
        {
            let mut d = NodeData::default();
            std::mem::swap(&mut d, &mut data[k]);
            let mut list: Vec<usize> = Vec::new();
            std::mem::swap(&mut list, &mut children[k]);
            nodes.push(Node { data: d, parent: parents[k], children: list });
            k = k + 1;
        }
        let ghost hs = Seq::new(n as nat, |x: int| (n - parent_depth(par, x, n as nat)->0) as nat);
        let w = World { nodes, heights: Ghost(hs), height_bound: Ghost(n as nat + 1) };
        proof {
            assert(w.parents() =~= par);
            assert(w.child_lists() =~= ch);
            assert(w.node_data() =~= dat);
            assert forall|x: int| 0 <= x < n implies #[trigger] hs[x] <= n by {
                lemma_depth_mono(par, x, n as nat, n as nat);
            }
            assert forall|a: int, j: int| 0 <= a < ch.len() && 0 <= j < ch[a].len() implies #[trigger] ch[a][j]
                < ch.len() && hs[ch[a][j] as int] < hs[a] by {
                let c = ch[a][j] as int;
                assert(par[c] == Some(a as usize));
                assert(parent_depth(par, c, n as nat) is Some);
                lemma_depth_mono(par, a, (n - 1) as nat, n as nat);
                lemma_depth_mono(par, c, n as nat, n as nat);
            }
        }
        Some(w)
    }
}

/// Law: a copy of a well-formed world taken apart is always accepted by `World::from_parts`,
/// so a stored world always loads back.
pub proof fn lemma_parts_accepted(w: World, parts: WorldParts)
    requires
        w.wf(),
        parts_copy(parts, w),
    ensures
        parts.acceptable(),
{
    w.lemma_wf_ranks();
    let par = w.parents();
    let ch = w.child_lists();
    let n = w.node_count();
    assert forall|c: int| 0 <= c < n && (#[trigger] par[c]) is Some implies par[c]->0 < n
        && ch[par[c]->0 as int].contains(c as usize) by {
        assert(w.nodes@[c].parent == par[c]);
    }
    assert forall|i: int| 0 <= i < n implies (#[trigger] parent_depth(par, i, n)) is Some by {
        lemma_chains_end(ch, w.heights@, par, i);
    }
    assert(parts_ok(par, ch, n));
}

/// Law: the world rebuilt from a copy of a world's parts has that world's links, and node data
/// that agree with that world's entry by entry.
pub proof fn lemma_parts_round_trip(w: World, parts: WorldParts, rebuilt: World)
    requires
        parts_copy(parts, w),
        parts_describe(parts, rebuilt),
    ensures
        rebuilt.parents() == w.parents(),
        rebuilt.child_lists() == w.child_lists(),
        rebuilt.node_count() == w.node_count(),
        forall|i: int|
            0 <= i < w.node_count() ==> same_node_data(#[trigger] rebuilt.node_data()[i], w.node_data()[i]),
{
    assert(rebuilt.node_data().len() == parts.data@.len());
}

} // verus!
