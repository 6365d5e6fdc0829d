use vstd::prelude::*;

verus! {

/// Every edge leads from a lower to a higher position, where `parents[v]`
/// lists the positions that `v` reads. Such a graph has no cycle.
pub open spec fn edges_ascend(parents: Seq<Seq<int>>) -> bool {
    forall|v: int, k: int|
        0 <= v < parents.len() && 0 <= k < parents[v].len() ==> 0 <= #[trigger] parents[v][k] < v
}

/// No node reads another twice.
pub open spec fn reads_once(parents: Seq<Seq<int>>) -> bool {
    forall|v: int| 0 <= v < parents.len() ==> (#[trigger] parents[v]).no_duplicates()
}

/// In `order`, whatever a node reads stands before the node.
pub open spec fn parents_first(parents: Seq<Seq<int>>, order: Seq<int>) -> bool {
    forall|i: int, k: int|
        0 <= i < order.len() && 0 <= k < parents[order[i]].len() ==> order.take(i).contains(
            #[trigger] parents[order[i]][k],
        )
}

/// `order` lists every node once, each after all that it reads.
pub open spec fn is_topological_order(parents: Seq<Seq<int>>, order: Seq<int>) -> bool {
    &&& order.len() == parents.len()
    &&& order.no_duplicates()
    &&& forall|i: int| 0 <= i < order.len() ==> 0 <= #[trigger] order[i] < parents.len()
    &&& forall|v: int| 0 <= v < parents.len() ==> order.contains(v)
    &&& parents_first(parents, order)
}

/// A list of distinct positions below `n` has at most `n` entries.
pub(crate) proof fn lemma_distinct_len(s: Seq<int>, n: int)
    requires
        0 <= n,
        s.no_duplicates(),
        forall|i: int| 0 <= i < s.len() ==> 0 <= #[trigger] s[i] < n,
    ensures
        s.len() <= n,
{
    let all = vstd::set_lib::set_int_range(0, n);
    vstd::set_lib::lemma_int_range(0, n);
    s.unique_seq_to_set();
    vstd::set_lib::lemma_len_subset(s.to_set(), all);
}

/// A list of distinct positions below `n` that misses none of them has `n`
/// entries.
pub(crate) proof fn lemma_cover_len(s: Seq<int>, n: int)
    requires
        0 <= n,
        s.no_duplicates(),
        forall|i: int| 0 <= i < s.len() ==> 0 <= #[trigger] s[i] < n,
        forall|v: int| 0 <= v < n ==> s.contains(v),
    ensures
        s.len() == n,
{
    let all = vstd::set_lib::set_int_range(0, n);
    vstd::set_lib::lemma_int_range(0, n);
    s.unique_seq_to_set();
    assert(s.to_set() =~= all);
}

} // verus!
