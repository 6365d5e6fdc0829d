use vstd::prelude::*;

use crate::arrival::{first_come_first_out, lemma_sweep_order_unique, sweep_order};
use crate::frontier::{
    lemma_queue_touch, lemma_readers_join, lemma_readers_next, lemma_sweep_advance,
    lemma_sweep_done, lemma_sweep_start, lemma_sweep_touch, lists_readers, queued, swept,
};
use crate::graph_builder::{indices, Node, NodeData};
use crate::tensor::Tensor;
use crate::topology::{edges_ascend, is_topological_order, lemma_distinct_len, reads_once};

verus! {

/// What each record reads.
pub open spec fn parents_of<T: Tensor>(nodes: Seq<NodeData<T>>) -> Seq<Seq<int>> {
    Seq::new(nodes.len(), |v: int| nodes[v]@.parents)
}

/// The successor lists as lists of positions.
spec fn reader_lists(children: Seq<Vec<Node>>) -> Seq<Seq<int>> {
    children.map_values(|c: Vec<Node>| indices(c@))
}

/// The counts as integers.
spec fn counts(remaining: Seq<usize>) -> Seq<int> {
    remaining.map_values(|r: usize| r as int)
}

/// One topological order of the nodes, by a successor-counting sweep: the
/// frontier starts with the nodes that read nothing; the node that leaves
/// it joins the order and takes one off the count of each node that reads
/// it; a node whose count reaches zero joins the frontier, which is served
/// first come, first out. Edges lead from older to newer nodes, so the
/// frontier cannot run dry before every node has left it.
pub(crate) fn sweep<T: Tensor>(nodes: &Vec<NodeData<T>>) -> (order: Vec<Node>)
    requires
        edges_ascend(parents_of(nodes@)),
        reads_once(parents_of(nodes@)),
    ensures
        is_topological_order(parents_of(nodes@), indices(order@)),
        first_come_first_out(parents_of(nodes@), indices(order@)),
        indices(order@) == sweep_order(parents_of(nodes@)),
{
    let ghost parents = parents_of(nodes@);
    let n: usize = nodes.len();
    let mut children: Vec<Vec<Node>> = Vec::new();
    let mut remaining: Vec<usize> = Vec::new();
    let mut v: usize = 0;
    while v < n
        invariant
            v <= n,
            n == nodes@.len(),
            parents == parents_of(nodes@),
            children@.len() == v,
            remaining@.len() == v,
            forall|p: int| 0 <= p < v ==> (#[trigger] children@[p])@.len() == 0,
            forall|u: int| 0 <= u < v ==> #[trigger] remaining@[u] == parents[u].len(),
        decreases n - v,
    {
        children.push(Vec::new());
        remaining.push(nodes[v].parents().len());
        v += 1;
    }
    v = 0;
    while v < n
        invariant
            v <= n,
            n == nodes@.len(),
            parents == parents_of(nodes@),
            edges_ascend(parents),
            reads_once(parents),
            children@.len() == n,
            lists_readers(parents, reader_lists(children@), v as int, 0),
        decreases n - v,
    {
        let count: usize = nodes[v].parents().len();
        let mut k: usize = 0;
        while k < count
            invariant
                k <= count,
                v < n,
                n == nodes@.len(),
                count == parents[v as int].len(),
                parents == parents_of(nodes@),
                edges_ascend(parents),
                reads_once(parents),
                children@.len() == n,
                lists_readers(parents, reader_lists(children@), v as int, k as int),
            decreases count - k,
        {
            let ghost lists = reader_lists(children@);
            let p: usize = nodes[v].parents()[k].index();
            proof {
                lemma_readers_join(parents, lists, v as int, k as int);
            }
            children[p].push(Node::at(v));
            assert(reader_lists(children@) =~= lists.update(p as int, lists[p as int].push(v as int)))
                by {
                assert(indices(children@[p as int]@) =~= lists[p as int].push(v as int));
            }
            k += 1;
        }
        proof {
            lemma_readers_next(parents, reader_lists(children@), v as int);
        }
        v += 1;
    }
    let mut order: Vec<Node> = Vec::new();
    v = 0;
    while v < n
        invariant
            v <= n,
            n == parents.len(),
            remaining@.len() == n,
            indices(order@).no_duplicates(),
            forall|i: int| 0 <= i < order@.len() ==> 0 <= #[trigger] indices(order@)[i] < v,
            forall|i: int, j: int|
                0 <= i < j < order@.len() ==> indices(order@)[i] < indices(order@)[j],
            forall|u: int|
                0 <= u < v ==> (indices(order@).contains(u) <==> #[trigger] remaining@[u] == 0),
        decreases n - v,
    {
        let ghost was = indices(order@);
        if remaining[v] == 0 {
            order.push(Node::at(v));
            proof {
                let now = indices(order@);
                assert(now =~= was.push(v as int));
                assert(now[was.len() as int] == v);
                assert forall|u: int| 0 <= u < v + 1 implies (now.contains(u)
                    <==> #[trigger] remaining@[u] == 0) by {
                    if was.contains(u) {
                        let i = choose|i: int| 0 <= i < was.len() && was[i] == u;
                        assert(now[i] == u);
                    }
                }
            }
        }
        v += 1;
    }
    proof {
        lemma_sweep_start(parents, indices(order@), counts(remaining@));
        assert forall|i: int| 0 <= i < order@.len() implies parents[#[trigger] indices(
            order@,
        )[i]].len() == 0 by {
            let u = indices(order@)[i];
            assert(remaining@[u] == 0);
        }
    }
    let mut head: usize = 0;
    while head < order.len()
        invariant
            n == parents.len(),
            edges_ascend(parents),
            reads_once(parents),
            children@.len() == n,
            remaining@.len() == n,
            lists_readers(parents, reader_lists(children@), n as int, 0),
            swept(parents, indices(order@), head as int, counts(remaining@), Seq::empty()),
            queued(parents, indices(order@), head as int, Seq::empty()),
        decreases n - head,
    {
        proof {
            lemma_distinct_len(indices(order@), n as int);
        }
        let u: usize = order[head].index();
        assert(u == indices(order@)[head as int]);
        let ghost lists = reader_lists(children@);
        let mut j: usize = 0;
        while j < children[u].len()
            invariant
                n == parents.len(),
                reads_once(parents),
                children@.len() == n,
                remaining@.len() == n,
                lists == reader_lists(children@),
                lists_readers(parents, lists, n as int, 0),
                head < order@.len(),
                u < n,
                u == indices(order@)[head as int],
                j <= children@[u as int]@.len(),
                swept(
                    parents,
                    indices(order@),
                    head as int,
                    counts(remaining@),
                    lists[u as int].take(j as int),
                ),
                queued(parents, indices(order@), head as int, lists[u as int].take(j as int)),
            decreases children@[u as int]@.len() - j,
        {
            let ghost was = indices(order@);
            let ghost left = counts(remaining@);
            let c: usize = children[u][j].index();
            proof {
                lemma_sweep_touch(parents, lists, was, head as int, left, j as int);
                lemma_queue_touch(parents, lists, was, head as int, j as int, left[c as int] == 1);
            }
            let fewer: usize = remaining[c] - 1;
            remaining[c] = fewer;
            assert(counts(remaining@) =~= left.update(c as int, left[c as int] - 1));
            if fewer == 0 {
                order.push(Node::at(c));
                assert(indices(order@) =~= was.push(c as int));
            }
            j += 1;
        }
        proof {
            assert(lists[u as int].take(j as int) =~= lists[u as int]);
            lemma_sweep_advance(parents, lists, indices(order@), head as int, counts(remaining@));
        }
        head += 1;
    }
    proof {
        lemma_sweep_done(parents, indices(order@), counts(remaining@));
        lemma_sweep_order_unique(parents, indices(order@));
    }
    order
}

} // verus!
