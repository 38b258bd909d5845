//! The syllable graph of a pinyin lookup: edges are spelling matches between input
//! positions, each with the spelling kind it was matched as.

use vstd::prelude::*;

verus! {

/// Spelling kinds, from best to worst: normal, fuzzy, abbreviation, completion.
pub const KIND_NORMAL: u8 = 0;
pub const KIND_FUZZY: u8 = 1;
pub const KIND_ABBREV: u8 = 2;
pub const KIND_COMPLETION: u8 = 3;

/// An edge of the syllable graph: where the match ends, the syllable, the spelling kind,
/// and the index's type mark of the spelling.
#[derive(Clone, Copy, Debug, PartialEq, Eq, Structural)]
pub struct SyllableEdge {
    pub end: usize,
    pub syllable: u32,
    pub kind: u8,
    pub spelling: u8,
}

/// The edge lists of a graph held in vectors.
pub open spec fn graph_of(edges: Seq<Vec<SyllableEdge>>) -> Seq<Seq<SyllableEdge>> {
    edges.map_values(|list: Vec<SyllableEdge>| list@)
}

/// Where a chain of edges from position 0 ends: each edge leaves from the position the
/// previous one reached (`None` when an edge is not in the graph there).
pub open spec fn chain_end(graph: Seq<Seq<SyllableEdge>>, path: Seq<SyllableEdge>) -> Option<int>
    decreases path.len(),
{
    if path.len() == 0 {
        Some(0)
    } else {
        match chain_end(graph, path.drop_last()) {
            Some(at) => if 0 <= at < graph.len() && graph[at].contains(path.last()) {
                Some(path.last().end as int)
            } else {
                None
            },
            None => None,
        }
    }
}

/// The worst spelling kind along a chain (normal for the empty chain).
pub open spec fn chain_kind(path: Seq<SyllableEdge>) -> u8
    decreases path.len(),
{
    if path.len() == 0 {
        KIND_NORMAL
    } else if path.last().kind > chain_kind(path.drop_last()) {
        path.last().kind
    } else {
        chain_kind(path.drop_last())
    }
}

/// `kind` is the best (smallest) worst kind of the chains reaching `position`, or `None`
/// when no chain reaches it.
pub open spec fn best_kind(graph: Seq<Seq<SyllableEdge>>, position: int, kind: Option<u8>) -> bool {
    match kind {
        Some(k) => {
            &&& exists|path: Seq<SyllableEdge>| #[trigger] chain_end(graph, path) == Some(position) && chain_kind(path) == k
            &&& forall|path: Seq<SyllableEdge>| #[trigger] chain_end(graph, path) == Some(position) ==> chain_kind(path) >= k
        },
        None => forall|path: Seq<SyllableEdge>| #[trigger] chain_end(graph, path) != Some(position),
    }
}

/// Every edge ends within `0..=len`, and the graph has a list for each position.
pub open spec fn graph_within(graph: Seq<Seq<SyllableEdge>>, len: int) -> bool {
    &&& graph.len() == len + 1
    &&& forall|p: int, j: int| 0 <= p < graph.len() && 0 <= j < graph[p].len() ==> #[trigger] graph[p][j].end <= len
}

/// The search's measure of a kind table: 256 per unreached position, the kind otherwise.
spec fn kind_weight(kind: Option<u8>) -> nat {
    match kind {
        Some(k) => k as nat,
        None => 256,
    }
}

/// The sum of the weights of a kind table.
spec fn total_weight(kinds: Seq<Option<u8>>) -> nat
    decreases kinds.len(),
{
    if kinds.len() == 0 {
        0
    } else {
        total_weight(kinds.drop_last()) + kind_weight(kinds.last())
    }
}

/// Lowering one weight lowers the sum.
proof fn lemma_total_weight_drops(kinds: Seq<Option<u8>>, i: int, kind: Option<u8>)
    requires
        0 <= i < kinds.len(),
        kind_weight(kind) < kind_weight(kinds[i]),
    ensures
        total_weight(kinds.update(i, kind)) < total_weight(kinds),
    decreases kinds.len(),
{
    if i < kinds.len() - 1 {
        lemma_total_weight_drops(kinds.drop_last(), i, kind);
        assert(kinds.update(i, kind).drop_last() =~= kinds.drop_last().update(i, kind));
    } else {
        assert(kinds.update(i, kind).drop_last() =~= kinds.drop_last());
    }
}

/// An edge from a position of kind `kind` is relaxed: its end has a kind no worse than
/// the worse of `kind` and the edge's own.
spec fn relaxed(kinds: Seq<Option<u8>>, edge: SyllableEdge, kind: u8) -> bool {
    kinds[edge.end as int] matches Some(b) && (b <= kind || b <= edge.kind)
}

/// Every reached position is reached by a chain of its kind.
spec fn kinds_witnessed(graph: Seq<Seq<SyllableEdge>>, kinds: Seq<Option<u8>>) -> bool {
    forall|v: int| 0 <= v < kinds.len() && (#[trigger] kinds[v]) is Some ==> exists|path: Seq<SyllableEdge>|
        #[trigger] chain_end(graph, path) == Some(v) && chain_kind(path) == kinds[v]->Some_0
}

/// Every reached position is still waiting in the queue or has all its edges relaxed.
spec fn settled_or_queued(graph: Seq<Seq<SyllableEdge>>, kinds: Seq<Option<u8>>, pending: Seq<usize>) -> bool {
    forall|u: int| 0 <= u < kinds.len() && (#[trigger] kinds[u]) is Some ==> (pending.contains(u as usize) || forall|j: int|
        0 <= j < graph[u].len() ==> relaxed(kinds, #[trigger] graph[u][j], kinds[u]->Some_0))
}

/// With every edge relaxed, a chain's end has a kind no worse than the chain's.
proof fn lemma_chain_bounded(graph: Seq<Seq<SyllableEdge>>, kinds: Seq<Option<u8>>, path: Seq<SyllableEdge>)
    requires
        kinds.len() == graph.len(),
        graph.len() > 0,
        kinds[0] == Some(KIND_NORMAL),
        graph_within(graph, graph.len() - 1),
        forall|u: int| 0 <= u < kinds.len() && (#[trigger] kinds[u]) is Some ==> forall|j: int|
            0 <= j < graph[u].len() ==> relaxed(kinds, #[trigger] graph[u][j], kinds[u]->Some_0),
        chain_end(graph, path) is Some,
    ensures
        0 <= chain_end(graph, path)->Some_0 < kinds.len(),
        kinds[chain_end(graph, path)->Some_0] matches Some(b) && b <= chain_kind(path),
    decreases path.len(),
{
    if path.len() > 0 {
        let prefix = path.drop_last();
        lemma_chain_bounded(graph, kinds, prefix);
        let at = chain_end(graph, prefix)->Some_0;
        let a = kinds[at]->Some_0;
        let j = choose|j: int| 0 <= j < graph[at].len() && graph[at][j] == path.last();
        assert(relaxed(kinds, graph[at][j], a));
        assert(graph[at][j].end <= graph.len() - 1);
    }
}

/// The best spelling kind of the chains reaching each position (a breadth-first search that
/// revisits a position whenever its kind improves).
pub fn path_types(edges: &Vec<Vec<SyllableEdge>>, len: usize) -> (kinds: Vec<Option<u8>>)
    requires
        graph_within(graph_of(edges@), len as int),
    ensures
        kinds@.len() == len + 1,
        forall|v: int| 0 <= v <= len ==> best_kind(graph_of(edges@), v, #[trigger] kinds@[v]),
{
    let ghost graph = graph_of(edges@);
    let mut kinds: Vec<Option<u8>> = Vec::new();
    while kinds.len() <= len
        invariant
            kinds@.len() <= len + 1,
            graph.len() == len + 1,
            forall|v: int| 0 <= v < kinds@.len() ==> #[trigger] kinds@[v] is None,
        decreases len + 1 - kinds.len(),
    {
        kinds.push(None);
    }
    kinds.set(0, Some(KIND_NORMAL));
    let mut queue: Vec<usize> = Vec::new();
    queue.push(0);
    let mut head: usize = 0;
    proof {
        assert(chain_end(graph, Seq::<SyllableEdge>::empty()) == Some(0int));
        assert forall|v: int| 0 <= v < kinds@.len() && (#[trigger] kinds@[v]) is Some implies exists|path: Seq<SyllableEdge>|
            #[trigger] chain_end(graph, path) == Some(v) && chain_kind(path) == kinds@[v]->Some_0 by {
            assert(v == 0);
            assert(chain_end(graph, Seq::<SyllableEdge>::empty()) == Some(v));
        }
        assert forall|u: int| 0 <= u < kinds@.len() && (#[trigger] kinds@[u]) is Some implies (queue@.subrange(
            head as int,
            queue@.len() as int,
        ).contains(u as usize) || forall|j: int| 0 <= j < graph[u].len() ==> relaxed(kinds@, #[trigger] graph[u][j], kinds@[u]->Some_0)) by {
            assert(u == 0);
            assert(queue@.subrange(0, 1)[0] == 0usize);
        }
    }
    while head < queue.len()
        invariant
            graph == graph_of(edges@),
            graph_within(graph, len as int),
            kinds@.len() == len + 1,
            kinds@[0] == Some(KIND_NORMAL),
            head <= queue@.len(),
            forall|i: int| 0 <= i < queue@.len() ==> #[trigger] queue@[i] <= len,
            kinds_witnessed(graph, kinds@),
            settled_or_queued(graph, kinds@, queue@.subrange(head as int, queue@.len() as int)),
        decreases total_weight(kinds@), queue@.len() - head,
    {
        let position = queue[head];
        head = head + 1;
        let ghost weight_before = total_weight(kinds@);
        let ghost queued_before = queue@.len();
        let current = match kinds[position] {
            Some(kind) => kind,
            None => {
                proof {
                    assert forall|u: int| 0 <= u < kinds@.len() && (#[trigger] kinds@[u]) is Some implies (queue@.subrange(
                        head as int,
                        queue@.len() as int,
                    ).contains(u as usize) || forall|j: int| 0 <= j < graph[u].len() ==> relaxed(kinds@, #[trigger] graph[u][j], kinds@[u]->Some_0)) by {
                        if queue@.subrange(head - 1, queue@.len() as int).contains(u as usize) {
                            let m = choose|m: int| 0 <= m < queue@.subrange(head - 1, queue@.len() as int).len()
                                && #[trigger] queue@.subrange(head - 1, queue@.len() as int)[m] == u as usize;
                            if m > 0 {
                                assert(queue@.subrange(head as int, queue@.len() as int)[m - 1] == u as usize);
                            }
                        }
                    }
                }
                continue;
            },
        };
        let list = &edges[position];
        proof {
            assert(graph[position as int] == list@);
            assert forall|u: int| 0 <= u < kinds@.len() && u != position && (#[trigger] kinds@[u]) is Some implies (queue@.subrange(
                head as int,
                queue@.len() as int,
            ).contains(u as usize) || forall|k: int| 0 <= k < graph[u].len() ==> relaxed(kinds@, #[trigger] graph[u][k], kinds@[u]->Some_0)) by {
                if queue@.subrange(head - 1, queue@.len() as int).contains(u as usize) {
                    let m = choose|m: int| 0 <= m < queue@.subrange(head - 1, queue@.len() as int).len()
                        && #[trigger] queue@.subrange(head - 1, queue@.len() as int)[m] == u as usize;
                    if m > 0 {
                        assert(queue@.subrange(head as int, queue@.len() as int)[m - 1] == u as usize);
                    } else {
                        assert(queue@[head - 1] == position);
                    }
                }
            }
        }
        let mut j: usize = 0;
        while j < list.len()
            invariant
                graph == graph_of(edges@),
                graph_within(graph, len as int),
                graph[position as int] == list@,
                position <= len,
                1 <= head <= queue@.len(),
                queue@.len() >= queued_before,
                queue@.len() > queued_before ==> total_weight(kinds@) < weight_before,
                total_weight(kinds@) <= weight_before,
                kinds@.len() == len + 1,
                kinds@[0] == Some(KIND_NORMAL),
                kinds@[position as int] == Some(current),
                j <= list@.len(),
                forall|i: int| 0 <= i < queue@.len() ==> #[trigger] queue@[i] <= len,
                kinds_witnessed(graph, kinds@),
                forall|i: int| 0 <= i < j ==> relaxed(kinds@, #[trigger] list@[i], current),
                forall|u: int| 0 <= u < kinds@.len() && u != position && (#[trigger] kinds@[u]) is Some ==> (queue@.subrange(
                    head as int,
                    queue@.len() as int,
                ).contains(u as usize) || forall|k: int| 0 <= k < graph[u].len() ==> relaxed(kinds@, #[trigger] graph[u][k], kinds@[u]->Some_0)),
            decreases list.len() - j,
        {
            let edge = list[j];
            let next = if current > edge.kind { current } else { edge.kind };
            let better = match kinds[edge.end] {
                None => true,
                Some(known) => next < known,
            };
            proof {
                assert(list@[j as int] == graph[position as int][j as int]);
                assert(edge.end <= len);
            }
            if better {
                let ghost before = kinds@;
                let ghost pending_before = queue@.subrange(head as int, queue@.len() as int);
                proof {
                    lemma_total_weight_drops(kinds@, edge.end as int, Some(next));
                    let w = choose|path: Seq<SyllableEdge>| #[trigger] chain_end(graph, path) == Some(position as int)
                        && chain_kind(path) == current;
                    let extended = w.push(edge);
                    assert(extended.drop_last() =~= w);
                    assert(graph[position as int].contains(edge));
                    assert(chain_end(graph, extended) == Some(edge.end as int));
                    assert(chain_kind(extended) == next);
                }
                kinds.set(edge.end, Some(next));
                queue.push(edge.end);
                proof {
                    let w = choose|path: Seq<SyllableEdge>| #[trigger] chain_end(graph, path) == Some(position as int)
                        && chain_kind(path) == current;
                    let extended = w.push(edge);
                    assert(extended.drop_last() =~= w);
                    assert(chain_end(graph, extended) == Some(edge.end as int));
                    assert forall|v: int| 0 <= v < kinds@.len() && (#[trigger] kinds@[v]) is Some implies exists|path: Seq<SyllableEdge>|
                        #[trigger] chain_end(graph, path) == Some(v) && chain_kind(path) == kinds@[v]->Some_0 by {
                        if v == edge.end as int {
                            assert(chain_end(graph, extended) == Some(v) && chain_kind(extended) == kinds@[v]->Some_0);
                        } else {
                            assert(before[v] == kinds@[v]);
                        }
                    }
                    let pending = queue@.subrange(head as int, queue@.len() as int);
                    assert(pending == pending_before.push(edge.end));
                    assert forall|i: int| 0 <= i < j + 1 implies relaxed(kinds@, #[trigger] list@[i], current) by {
                        if i < j {
                            assert(relaxed(before, list@[i], current));
                        }
                    }
                    assert forall|u: int| 0 <= u < kinds@.len() && u != position && (#[trigger] kinds@[u]) is Some implies (
                        pending.contains(u as usize) || forall|k: int| 0 <= k < graph[u].len() ==> relaxed(kinds@, #[trigger] graph[u][k], kinds@[u]->Some_0)) by {
                        let a = kinds@[u]->Some_0;
                        if u == edge.end as int {
                            assert(pending[pending.len() - 1] == u as usize);
                        } else {
                            assert(before[u] == Some(a));
                            if pending_before.contains(u as usize) {
                                let m = choose|m: int| 0 <= m < pending_before.len() && #[trigger] pending_before[m] == u as usize;
                                assert(pending[m] == u as usize);
                            } else {
                                assert forall|k: int| 0 <= k < graph[u].len() implies relaxed(kinds@, #[trigger] graph[u][k], a) by {
                                    assert(relaxed(before, graph[u][k], a));
                                }
                            }
                        }
                    }
                }
            } else {
                proof {
                    assert(relaxed(kinds@, list@[j as int], current));
                }
            }
            j = j + 1;
        }
        proof {
            assert forall|u: int| 0 <= u < kinds@.len() && (#[trigger] kinds@[u]) is Some implies (queue@.subrange(
                head as int,
                queue@.len() as int,
            ).contains(u as usize) || forall|k: int| 0 <= k < graph[u].len() ==> relaxed(kinds@, #[trigger] graph[u][k], kinds@[u]->Some_0)) by {
                let a = kinds@[u]->Some_0;
                if u == position as int {
                    assert forall|k: int| 0 <= k < graph[u].len() implies relaxed(kinds@, #[trigger] graph[u][k], a) by {
                        assert(graph[u][k] == list@[k]);
                    }
                }
            }
        }
    }
    proof {
        assert(queue@.subrange(head as int, queue@.len() as int) =~= Seq::<usize>::empty());
        assert forall|v: int| 0 <= v <= len implies best_kind(graph, v, #[trigger] kinds@[v]) by {
            match kinds@[v] {
                Some(k) => {
                    assert forall|path: Seq<SyllableEdge>| #[trigger] chain_end(graph, path) == Some(v) implies chain_kind(path) >= k by {
                        lemma_chain_bounded(graph, kinds@, path);
                    }
                },
                None => {
                    assert forall|path: Seq<SyllableEdge>| #[trigger] chain_end(graph, path) != Some(v) by {
                        if chain_end(graph, path) == Some(v) {
                            lemma_chain_bounded(graph, kinds@, path);
                        }
                    }
                },
            }
        }
    }
    kinds
}

/// The position's kind is known and no worse than `last_type`.
pub open spec fn kind_accepted(kinds: Seq<Option<u8>>, position: int, last_type: u8) -> bool {
    &&& 0 <= position < kinds.len()
    &&& kinds[position] matches Some(k) && k <= last_type
}

/// Whether a position survives pruning towards `farthest`: `farthest` itself does; a
/// position before it does when its kind is accepted and one of its edges is kept.
pub open spec fn prune_good(graph: Seq<Seq<SyllableEdge>>, kinds: Seq<Option<u8>>, farthest: int, last_type: u8, position: int) -> bool
    decreases farthest - position, 2int, 0int,
{
    if position == farthest {
        true
    } else if position < 0 || position > farthest || position >= graph.len() {
        false
    } else {
        kind_accepted(kinds, position, last_type) && any_kept(graph, kinds, farthest, last_type, position, graph[position].len() as int)
    }
}

/// One of the first `count` edges of `position` is kept.
pub open spec fn any_kept(graph: Seq<Seq<SyllableEdge>>, kinds: Seq<Option<u8>>, farthest: int, last_type: u8, position: int, count: int) -> bool
    decreases farthest - position, 1int, count,
{
    if count <= 0 || position < 0 || position >= graph.len() || count > graph[position].len() || position >= farthest {
        false
    } else {
        any_kept(graph, kinds, farthest, last_type, position, count - 1) || edge_kept(
            graph,
            kinds,
            farthest,
            last_type,
            position,
            graph[position][count - 1],
        )
    }
}

/// An edge leaving `position` is kept: it moves forward, its kind is no worse than
/// `last_type`, and it ends at a surviving position.
pub open spec fn edge_kept(graph: Seq<Seq<SyllableEdge>>, kinds: Seq<Option<u8>>, farthest: int, last_type: u8, position: int, edge: SyllableEdge) -> bool
    decreases farthest - position, 0int, 0int,
{
    if position < edge.end && edge.end <= farthest {
        edge.kind <= last_type && prune_good(graph, kinds, farthest, last_type, edge.end as int)
    } else {
        false
    }
}

/// The edges of a list that are kept, in order.
pub open spec fn kept_edges(graph: Seq<Seq<SyllableEdge>>, kinds: Seq<Option<u8>>, farthest: int, last_type: u8, position: int, list: Seq<SyllableEdge>) -> Seq<SyllableEdge>
    decreases list.len(),
{
    if list.len() == 0 {
        Seq::empty()
    } else if edge_kept(graph, kinds, farthest, last_type, position, list.last()) {
        kept_edges(graph, kinds, farthest, last_type, position, list.drop_last()).push(list.last())
    } else {
        kept_edges(graph, kinds, farthest, last_type, position, list.drop_last())
    }
}

/// The edges of `position` after pruning: positions before `farthest` with an accepted
/// kind keep only their kept edges; other positions keep all.
pub open spec fn pruned_edges(graph: Seq<Seq<SyllableEdge>>, kinds: Seq<Option<u8>>, farthest: int, last_type: u8, position: int) -> Seq<SyllableEdge> {
    if 0 <= position < farthest && kind_accepted(kinds, position, last_type) {
        kept_edges(graph, kinds, farthest, last_type, position, graph[position])
    } else {
        graph[position]
    }
}

/// Some edge of a list is kept exactly when the kept list is not empty.
proof fn lemma_kept_nonempty(graph: Seq<Seq<SyllableEdge>>, kinds: Seq<Option<u8>>, farthest: int, last_type: u8, position: int, count: int)
    requires
        0 <= position < farthest,
        position < graph.len(),
        0 <= count <= graph[position].len(),
    ensures
        any_kept(graph, kinds, farthest, last_type, position, count) == (kept_edges(
            graph,
            kinds,
            farthest,
            last_type,
            position,
            graph[position].take(count),
        ).len() > 0),
    decreases count,
{
    if count > 0 {
        lemma_kept_nonempty(graph, kinds, farthest, last_type, position, count - 1);
        assert(graph[position].take(count).drop_last() =~= graph[position].take(count - 1));
    }
}

/// Drops the edges that cannot lead to `farthest` from positions before it (scanning
/// backwards; an edge must move forward to a surviving position and be no worse than
/// `last_type`), and positions whose kind is unknown or worse than `last_type` keep
/// theirs.
pub fn prune(edges: &mut Vec<Vec<SyllableEdge>>, kinds: &[Option<u8>], farthest: usize, last_type: u8)
    requires
        farthest < old(edges)@.len(),
        farthest <= kinds@.len(),
        forall|p: int, j: int|
            0 <= p < old(edges)@.len() && 0 <= j < old(edges)@[p]@.len() ==> #[trigger] old(edges)@[p]@[j].end < old(edges)@.len(),
    ensures
        final(edges)@.len() == old(edges)@.len(),
        forall|p: int|
            0 <= p < final(edges)@.len() ==> #[trigger] final(edges)@[p]@ == pruned_edges(
                graph_of(old(edges)@),
                kinds@,
                farthest as int,
                last_type,
                p,
            ),
{
    let ghost graph = graph_of(old(edges)@);
    let mut good: Vec<bool> = Vec::new();
    while good.len() < edges.len()
        invariant
            good@.len() <= edges@.len(),
            forall|q: int| 0 <= q < good@.len() ==> !(#[trigger] good@[q]),
        decreases edges.len() - good.len(),
    {
        good.push(false);
    }
    good.set(farthest, true);
    let mut position = farthest;
    while position > 0
        invariant
            position <= farthest < edges@.len(),
            farthest <= kinds@.len(),
            graph == graph_of(old(edges)@),
            edges@.len() == old(edges)@.len(),
            good@.len() == edges@.len(),
            forall|p: int, j: int| 0 <= p < graph.len() && 0 <= j < graph[p].len() ==> #[trigger] graph[p][j].end < graph.len(),
            forall|q: int| 0 <= q < position ==> !(#[trigger] good@[q]),
            forall|q: int|
                position <= q < good@.len() ==> #[trigger] good@[q] == prune_good(graph, kinds@, farthest as int, last_type, q),
            forall|q: int| 0 <= q < position ==> (#[trigger] edges@[q])@ == graph[q],
            forall|q: int|
                position <= q < edges@.len() ==> (#[trigger] edges@[q])@ == pruned_edges(graph, kinds@, farthest as int, last_type, q),
        decreases position,
    {
        position = position - 1;
        let accepted = match kinds[position] {
            Some(kind) => kind <= last_type,
            None => false,
        };
        if accepted {
            let list = &edges[position];
            let mut kept: Vec<SyllableEdge> = Vec::new();
            let mut j: usize = 0;
            proof {
                assert(graph[position as int] == list@);
                assert(list@.take(0) =~= Seq::<SyllableEdge>::empty());
            }
            while j < list.len()
                invariant
                    j <= list@.len(),
                    position < farthest < good@.len(),
                    good@.len() == graph.len(),
                    graph[position as int] == list@,
                    forall|p: int, k: int| 0 <= p < graph.len() && 0 <= k < graph[p].len() ==> #[trigger] graph[p][k].end < graph.len(),
                    forall|q: int| 0 <= q <= position ==> !(#[trigger] good@[q]),
                    forall|q: int|
                        position < q < good@.len() ==> #[trigger] good@[q] == prune_good(graph, kinds@, farthest as int, last_type, q),
                    kept@ == kept_edges(graph, kinds@, farthest as int, last_type, position as int, list@.take(j as int)),
                decreases list.len() - j,
            {
                let edge = list[j];
                proof {
                    assert(list@.take(j + 1).drop_last() =~= list@.take(j as int));
                    assert(list@.take(j + 1).last() == edge);
                    assert(graph[position as int][j as int] == edge);
                    assert(edge.end < graph.len());
                }
                if good[edge.end] && edge.kind <= last_type {
                    kept.push(edge);
                }
                j = j + 1;
            }
            proof {
                assert(list@.take(j as int) =~= list@);
                lemma_kept_nonempty(graph, kinds@, farthest as int, last_type, position as int, list@.len() as int);
                assert(list@.take(list@.len() as int) =~= list@);
            }
            let keeps_any = kept.len() > 0;
            edges[position] = kept;
            if keeps_any {
                good.set(position, true);
            }
        }
    }
}

} // verus!
