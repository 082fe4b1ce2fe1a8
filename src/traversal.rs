use std::collections::VecDeque;
use vstd::prelude::*;

use crate::expr::{
    children, lemma_node_count_children, node_count, children_count, ComputeFunction,
};

verus! {

/// The `(child, parent)` pairs of the children of `f`, in operand order.
pub open spec fn child_pairs(f: ComputeFunction) -> Seq<(ComputeFunction, ComputeFunction)> {
    children(f).map_values(|c: ComputeFunction| (c, f))
}

/// Number of nodes in the trees whose roots stand in the queue `q`.
pub open spec fn queue_weight(q: Seq<(ComputeFunction, ComputeFunction)>) -> nat
    decreases q.len(),
{
    if q.len() == 0 {
        0
    } else {
        node_count(q[0].0) + queue_weight(q.drop_first())
    }
}

/// The `(node, parent)` pairs that a breadth-first walk yields when it starts
/// from the queue `q`: the front is taken out, reported, and its children are
/// queued at the back, first operand first.
pub open spec fn bfs_order(q: Seq<(ComputeFunction, ComputeFunction)>) -> Seq<
    (ComputeFunction, ComputeFunction),
>
    decreases queue_weight(q),
    via bfs_order_decreases
{
    if q.len() == 0 {
        Seq::empty()
    } else {
        seq![q[0]] + bfs_order(q.drop_first() + child_pairs(q[0].0))
    }
}

#[via_fn]
proof fn bfs_order_decreases(q: Seq<(ComputeFunction, ComputeFunction)>) {
    if q.len() > 0 {
        lemma_weight_concat(q.drop_first(), child_pairs(q[0].0));
        lemma_weight_children(q[0].0);
    }
}

/// The walk of a whole tree: it starts with the root as its own parent.
pub open spec fn tree_bfs(root: ComputeFunction) -> Seq<(ComputeFunction, ComputeFunction)> {
    bfs_order(seq![(root, root)])
}

/// Whether `p.0` is one of the children of `p.1`.
pub open spec fn is_child_pair(p: (ComputeFunction, ComputeFunction)) -> bool {
    exists|k: int| 0 <= k < children(p.1).len() && children(p.1)[k] == p.0
}

/// Whether the parent of entry `i` of a walk is the node of an earlier entry.
pub open spec fn parent_reported_before(w: Seq<(ComputeFunction, ComputeFunction)>, i: int) -> bool {
    exists|j: int| 0 <= j < i && w[j].0 == w[i].1
}

/// The pairs behind a sequence of borrowed pairs.
pub open spec fn pairs_view<'a>(s: Seq<(&'a ComputeFunction, &'a ComputeFunction)>) -> Seq<
    (ComputeFunction, ComputeFunction),
> {
    s.map_values(|p: (&'a ComputeFunction, &'a ComputeFunction)| (*p.0, *p.1))
}

proof fn lemma_weight_concat(
    a: Seq<(ComputeFunction, ComputeFunction)>,
    b: Seq<(ComputeFunction, ComputeFunction)>,
)
    ensures
        queue_weight(a + b) == queue_weight(a) + queue_weight(b),
    decreases a.len(),
{
    if a.len() == 0 {
        assert(a + b =~= b);
    } else {
        assert((a + b).drop_first() =~= a.drop_first() + b);
        lemma_weight_concat(a.drop_first(), b);
    }
}

proof fn lemma_weight_children(f: ComputeFunction)
    ensures
        queue_weight(child_pairs(f)) + 1 == node_count(f),
{
    lemma_node_count_children(f);
    reveal_with_fuel(queue_weight, 3);
    reveal_with_fuel(children_count, 3);
    let c = children(f);
    let q = child_pairs(f);
    if c.len() > 0 {
        assert(q.drop_first() =~= child_pairs_of(c.drop_first(), f));
    }
    if c.len() > 1 {
        assert(q.drop_first().drop_first().len() == 0);
        assert(c.drop_first().drop_first().len() == 0);
    }
}

spec fn child_pairs_of(c: Seq<ComputeFunction>, f: ComputeFunction) -> Seq<
    (ComputeFunction, ComputeFunction),
> {
    c.map_values(|x: ComputeFunction| (x, f))
}

/// A walk from a queue reports as many pairs as the queued trees hold nodes.
pub proof fn lemma_bfs_len(q: Seq<(ComputeFunction, ComputeFunction)>)
    ensures
        bfs_order(q).len() == queue_weight(q),
    decreases queue_weight(q),
{
    if q.len() > 0 {
        let next = q.drop_first() + child_pairs(q[0].0);
        lemma_weight_concat(q.drop_first(), child_pairs(q[0].0));
        lemma_weight_children(q[0].0);
        lemma_bfs_len(next);
    }
}

/// First in, first out: a walk reports the queued pairs first, in queue
/// order, and every pair after them is a child with its parent, where that
/// parent was itself reported earlier in the walk.
pub proof fn lemma_bfs_fifo(q: Seq<(ComputeFunction, ComputeFunction)>)
    ensures
        bfs_order(q).len() >= q.len(),
        forall|i: int| 0 <= i < q.len() ==> #[trigger] bfs_order(q)[i] == q[i],
        forall|i: int| q.len() <= i < bfs_order(q).len() ==> is_child_pair(#[trigger] bfs_order(q)[i]),
        forall|i: int|
            q.len() <= i < bfs_order(q).len() ==> #[trigger] parent_reported_before(bfs_order(q), i),
    decreases queue_weight(q),
{
    if q.len() > 0 {
        let cp = child_pairs(q[0].0);
        let next = q.drop_first() + cp;
        lemma_weight_concat(q.drop_first(), cp);
        lemma_weight_children(q[0].0);
        lemma_bfs_fifo(next);
        let w = bfs_order(q);
        assert(w == seq![q[0]] + bfs_order(next));
        assert forall|i: int| q.len() <= i < w.len() implies is_child_pair(#[trigger] w[i]) by {
            assert(w[i] == bfs_order(next)[i - 1]);
            if i - 1 < next.len() {
                let k = i - 1 - (q.len() - 1);
                assert(next[i - 1] == cp[k]);
                assert(bfs_order(next)[i - 1] == next[i - 1]);
                assert(0 <= k < children(q[0].0).len());
                assert(w[i] == (children(q[0].0)[k], q[0].0));
                assert(children(w[i].1)[k] == w[i].0);
            }
        }
        assert forall|i: int| q.len() <= i < w.len() implies #[trigger] parent_reported_before(w, i) by {
            assert(w[i] == bfs_order(next)[i - 1]);
            if i - 1 < next.len() {
                let k = i - 1 - (q.len() - 1);
                assert(next[i - 1] == cp[k]);
                assert(bfs_order(next)[i - 1] == next[i - 1]);
                assert(w[0] == q[0]);
                assert(w[0].0 == w[i].1);
            } else {
                assert(parent_reported_before(bfs_order(next), i - 1));
                let j = choose|j: int|
                    0 <= j < i - 1 && bfs_order(next)[j].0 == bfs_order(next)[i - 1].1;
                assert(w[j + 1] == bfs_order(next)[j]);
            }
        }
        assert forall|i: int| 0 <= i < q.len() implies #[trigger] w[i] == q[i] by {
            if i > 0 {
                assert(w[i] == bfs_order(next)[i - 1]);
                assert(next[i - 1] == q[i]);
            }
        }
    } else {
        assert(bfs_order(q).len() == 0);
    }
}

/// Number of children of the nodes of the first `i` entries of a walk.
pub open spec fn children_before(w: Seq<(ComputeFunction, ComputeFunction)>, i: int) -> nat
    decreases i,
{
    if i <= 0 {
        0
    } else {
        children_before(w, i - 1) + children(w[i - 1].0).len()
    }
}

/// Whether the `k`-th child of the node of entry `i` stands, with that node
/// as its parent, at position `start + children_before(w, i) + k` of `w`.
pub open spec fn child_in_slot(
    w: Seq<(ComputeFunction, ComputeFunction)>,
    start: int,
    i: int,
    k: int,
) -> bool {
    let p = start + children_before(w, i) + k;
    &&& p < w.len()
    &&& w[p] == (children(w[i].0)[k], w[i].0)
}

proof fn lemma_children_before_shift(w: Seq<(ComputeFunction, ComputeFunction)>, i: int)
    requires
        1 <= i <= w.len(),
    ensures
        children_before(w, i) == children(w[0].0).len() + children_before(w.drop_first(), i - 1),
    decreases i,
{
    if i > 1 {
        lemma_children_before_shift(w, i - 1);
        assert(w.drop_first()[i - 2] == w[i - 1]);
    } else {
        reveal_with_fuel(children_before, 2);
    }
}

/// Children are queued in operand order as their parents leave the queue:
/// after the `start` queued pairs, the walk reports the children of entry 0,
/// then those of entry 1, and so on, each paired with its parent.
pub proof fn lemma_bfs_child_slots(q: Seq<(ComputeFunction, ComputeFunction)>)
    ensures
        forall|i: int, k: int|
            0 <= i < bfs_order(q).len() && 0 <= k < children(bfs_order(q)[i].0).len()
                ==> #[trigger] child_in_slot(bfs_order(q), q.len() as int, i, k),
    decreases queue_weight(q),
{
    if q.len() > 0 {
        let cp = child_pairs(q[0].0);
        let next = q.drop_first() + cp;
        lemma_weight_concat(q.drop_first(), cp);
        lemma_weight_children(q[0].0);
        lemma_bfs_child_slots(next);
        lemma_bfs_fifo(next);
        let w = bfs_order(q);
        let w2 = bfs_order(next);
        assert(w == seq![q[0]] + w2);
        assert(w.drop_first() =~= w2);
        assert forall|i: int, k: int|
            0 <= i < w.len() && 0 <= k < children(w[i].0).len() implies #[trigger] child_in_slot(
            w,
            q.len() as int,
            i,
            k,
        ) by {
            lemma_children_before_shift(w, i + 1);
            if i == 0 {
                reveal_with_fuel(children_before, 1);
                let p = q.len() + k;
                assert(w[p] == w2[p - 1]);
                assert(w2[p - 1] == next[p - 1]);
                assert(next[p - 1] == cp[k]);
            } else {
                lemma_children_before_shift(w, i);
                assert(w[i] == w2[i - 1]);
                assert(child_in_slot(w2, next.len() as int, i - 1, k));
                let p2 = next.len() + children_before(w2, i - 1) + k;
                assert(w[p2 + 1] == w2[p2]);
            }
        }
    }
}

/// The walk of a tree of `N` nodes reports `N` pairs: the root with itself
/// first, then each further node with a parent, a one- or two-argument node
/// reported earlier, that has it as a child; the children of the node of
/// entry `i` follow, in operand order, from position
/// `1 + children_before(walk, i)`.
pub proof fn lemma_bfs_visits_tree(root: ComputeFunction)
    ensures
        tree_bfs(root).len() == node_count(root),
        tree_bfs(root)[0] == (root, root),
        forall|i: int| 1 <= i < tree_bfs(root).len() ==> is_child_pair(#[trigger] tree_bfs(root)[i]),
        forall|i: int|
            1 <= i < tree_bfs(root).len() ==> (#[trigger] tree_bfs(root)[i]).1 is One || tree_bfs(
                root,
            )[i].1 is Two,
        forall|i: int|
            1 <= i < tree_bfs(root).len() ==> #[trigger] parent_reported_before(tree_bfs(root), i),
        forall|i: int, k: int|
            0 <= i < tree_bfs(root).len() && 0 <= k < children(tree_bfs(root)[i].0).len()
                ==> #[trigger] child_in_slot(tree_bfs(root), 1, i, k),
{
    let q = seq![(root, root)];
    reveal_with_fuel(queue_weight, 2);
    assert(q.drop_first().len() == 0);
    lemma_bfs_len(q);
    lemma_bfs_fifo(q);
    lemma_bfs_child_slots(q);
    assert forall|i: int| 1 <= i < tree_bfs(root).len() implies (#[trigger] tree_bfs(root)[i]).1 is One
        || tree_bfs(root)[i].1 is Two by {
        assert(is_child_pair(tree_bfs(root)[i]));
    }
}

impl ComputeFunction {
    /// Breadth-first walk through the tree rooted at `self`.
    ///
    /// Returns every node with its parent, in the order of the walk; the root
    /// comes first, paired with itself.
    pub fn bfs(&self) -> (r: Vec<(&ComputeFunction, &ComputeFunction)>)
        ensures
            pairs_view(r@) == tree_bfs(*self),
    {
        let mut frontier: VecDeque<(&ComputeFunction, &ComputeFunction)> = VecDeque::new();
        frontier.push_back((self, self));
        let mut nodes: Vec<(&ComputeFunction, &ComputeFunction)> = Vec::new();
        assert(pairs_view(frontier@) =~= seq![(*self, *self)]);
        assert(pairs_view(nodes@) + tree_bfs(*self) =~= tree_bfs(*self));
        while frontier.len() > 0
            invariant
                pairs_view(nodes@) + bfs_order(pairs_view(frontier@)) == tree_bfs(*self),
            decreases queue_weight(pairs_view(frontier@)),
        {
            let ghost before = pairs_view(frontier@);
            let ghost done = pairs_view(nodes@);
            let (current, parent) = frontier.pop_front().unwrap();
            let ghost rest = pairs_view(frontier@);
            assert(rest =~= before.drop_first());
            nodes.push((current, parent));
            match current {
                ComputeFunction::One(inner) => {
                    frontier.push_back((inner.arg(), current));
                },
                ComputeFunction::Two(inner) => {
                    let (first, second) = inner.args();
                    frontier.push_back((first, current));
                    frontier.push_back((second, current));
                },
                _ => {},
            }
            assert(pairs_view(frontier@) =~= rest + child_pairs(*current));
            assert(pairs_view(nodes@) =~= done.push((*current, *parent)));
            assert(pairs_view(nodes@) + bfs_order(pairs_view(frontier@)) =~= done + bfs_order(
                before,
            ));
            proof {
                lemma_weight_concat(rest, child_pairs(*current));
                lemma_weight_children(*current);
            }
        }
        assert(pairs_view(frontier@) =~= Seq::<(ComputeFunction, ComputeFunction)>::empty());
        assert(pairs_view(nodes@) + Seq::<(ComputeFunction, ComputeFunction)>::empty()
            =~= pairs_view(nodes@));
        nodes
    }
}

} // verus!
