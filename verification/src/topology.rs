//! The peer overlay topology builder.
//!
//! Given the ordered list of node ids (represented here by their positions
//! `0 .. n`), consecutive nodes are first connected into a chain; then, for
//! every unordered pair not already within two hops of each other, a direct
//! edge is added.  The result is a symmetric graph whose diameter is at most
//! two while few edges beyond the base chain are added.

use vstd::prelude::*;
use crate::cluster::Cluster;

verus! {

/// Whether the adjacency list of `a` holds `b`.
pub open spec fn has_edge(g: Seq<Vec<usize>>, a: int, b: int) -> bool {
    &&& 0 <= a < g.len()
    &&& 0 <= b <= usize::MAX
    &&& g[a]@.contains(b as usize)
}

/// Every listed neighbour is a valid node position.
pub open spec fn edges_valid(g: Seq<Vec<usize>>) -> bool {
    forall|a: int, k: int|
        0 <= a < g.len() && 0 <= k < g[a]@.len() ==> (#[trigger] g[a]@[k]) < g.len()
}

/// An edge from `a` to `b` implies one from `b` to `a`.
pub open spec fn symmetric(g: Seq<Vec<usize>>) -> bool {
    forall|a: int, b: int| #![auto] has_edge(g, a, b) ==> has_edge(g, b, a)
}

/// No node lists itself as a neighbour.
pub open spec fn no_self_loops(g: Seq<Vec<usize>>) -> bool {
    forall|a: int| !has_edge(g, a, a)
}

/// `a` and `b` are connected by a path of at most two edges.
pub open spec fn within_two(g: Seq<Vec<usize>>, a: int, b: int) -> bool {
    ||| a == b
    ||| has_edge(g, a, b)
    ||| exists|k: int| #![auto] has_edge(g, a, k) && has_edge(g, k, b)
}

/// Every edge of `g1` is an edge of `g2`.
pub open spec fn subgraph(g1: Seq<Vec<usize>>, g2: Seq<Vec<usize>>) -> bool {
    forall|a: int, b: int| #![auto] has_edge(g1, a, b) ==> has_edge(g2, a, b)
}

/// A sequence extended by one element holds exactly its old elements and the
/// new one.
proof fn lemma_push_contains<A>(s: Seq<A>, v: A, x: A)
    ensures
        s.push(v).contains(x) <==> (s.contains(x) || x == v),
{
    if s.push(v).contains(x) {
        let i = choose|i: int| 0 <= i < s.push(v).len() && s.push(v)[i] == x;
        if i < s.len() {
            assert(s.contains(x));
        }
    }
    if s.contains(x) {
        let i = choose|i: int| 0 <= i < s.len() && s[i] == x;
        assert(s.push(v)[i] == x);
    }
    if x == v {
        assert(s.push(v)[s.len() as int] == x);
    }
}

/// Growing the graph never disconnects anything: a pair within two hops
/// stays within two hops.
pub proof fn lemma_within_two_monotone(g1: Seq<Vec<usize>>, g2: Seq<Vec<usize>>, a: int, b: int)
    requires
        subgraph(g1, g2),
        within_two(g1, a, b),
    ensures
        within_two(g2, a, b),
{
    if a == b {
    } else if has_edge(g1, a, b) {
        assert(has_edge(g2, a, b));
    } else {
        let k = choose|k: int| #![auto] has_edge(g1, a, k) && has_edge(g1, k, b);
        assert(has_edge(g2, a, k) && has_edge(g2, k, b));
    }
}

/// In a symmetric graph, being within two hops is itself symmetric.
pub proof fn lemma_within_two_symmetric(g: Seq<Vec<usize>>, a: int, b: int)
    requires
        symmetric(g),
        within_two(g, a, b),
    ensures
        within_two(g, b, a),
{
    if a == b {
    } else if has_edge(g, a, b) {
        assert(has_edge(g, b, a));
    } else {
        let k = choose|k: int| #![auto] has_edge(g, a, k) && has_edge(g, k, b);
        assert(has_edge(g, b, k) && has_edge(g, k, a));
    }
}

/// Connects `a` and `b` in both directions.
pub fn add_bidirectional_edge(g: &mut Vec<Vec<usize>>, a: usize, b: usize)
    requires
        a < old(g)@.len(),
        b < old(g)@.len(),
        a != b,
    ensures
        final(g)@.len() == old(g)@.len(),
        final(g)@[a as int]@ == old(g)@[a as int]@.push(b),
        final(g)@[b as int]@ == old(g)@[b as int]@.push(a),
        forall|x: int|
            0 <= x < old(g)@.len() && x != a && x != b
                ==> (#[trigger] final(g)@[x]) == old(g)@[x],
        forall|x: int, y: int|
            #![auto]
            has_edge(final(g)@, x, y) <==> (has_edge(old(g)@, x, y) || (x == a && y == b) || (x
                == b && y == a)),
{
    let ghost olds = g@;
    let mut row_a = g.remove(a);
    row_a.push(b);
    g.insert(a, row_a);
    proof {
        assert(g@ =~= olds.update(a as int, g@[a as int]));
    }
    let ghost mid = g@;
    let mut row_b = g.remove(b);
    row_b.push(a);
    g.insert(b, row_b);
    proof {
        assert(g@ =~= mid.update(b as int, g@[b as int]));
        let news = g@;
        assert(news[a as int]@ == olds[a as int]@.push(b));
        assert(news[b as int]@ == olds[b as int]@.push(a));
        assert forall|x: int, y: int|
            #![auto]
            has_edge(news, x, y) <==> (has_edge(olds, x, y) || (x == a && y == b) || (x == b && y
                == a)) by {
            if 0 <= x < news.len() && 0 <= y {
                if x == a {
                    lemma_push_contains(olds[a as int]@, b, y as usize);
                } else if x == b {
                    lemma_push_contains(olds[b as int]@, a, y as usize);
                }
            }
        }
    }
}

/// Breadth-limited reachability check: whether `target` is within two hops
/// of `start` over the edges accumulated so far.
pub fn is_within_two_hops(g: &Vec<Vec<usize>>, start: usize, target: usize) -> (r: bool)
    requires
        start < g@.len(),
        edges_valid(g@),
    ensures
        r == within_two(g@, start as int, target as int),
{
    if start == target {
        return true;
    }
    let row = &g[start];
    let mut i: usize = 0;
    while i < row.len()
        invariant
            g@[start as int] == *row,
            start < g@.len(),
            i <= row@.len(),
            forall|k: int| 0 <= k < i ==> (#[trigger] row@[k]) != target,
        decreases row@.len() - i,
    {
        if row[i] == target {
            proof {
                assert(g@[start as int]@[i as int] == target);
                assert(has_edge(g@, start as int, target as int));
            }
            return true;
        }
        i = i + 1;
    }
    let mut i: usize = 0;
    while i < row.len()
        invariant
            g@[start as int] == *row,
            start < g@.len(),
            edges_valid(g@),
            i <= row@.len(),
            forall|k: int|
                0 <= k < i ==> !g@[(#[trigger] row@[k]) as int]@.contains(target),
        decreases row@.len() - i,
    {
        let mid = row[i];
        let mid_row = &g[mid];
        let mut j: usize = 0;
        while j < mid_row.len()
            invariant
                g@[mid as int] == *mid_row,
                mid < g@.len(),
                start < g@.len(),
                i < g@[start as int]@.len(),
                g@[start as int]@[i as int] == mid,
                j <= mid_row@.len(),
                forall|k: int| 0 <= k < j ==> (#[trigger] mid_row@[k]) != target,
            decreases mid_row@.len() - j,
        {
            if mid_row[j] == target {
                proof {
                    assert(g@[start as int]@[i as int] == mid);
                    assert(has_edge(g@, start as int, mid as int));
                    assert(g@[mid as int]@[j as int] == target);
                    assert(has_edge(g@, mid as int, target as int));
                }
                return true;
            }
            j = j + 1;
        }
        i = i + 1;
    }
    let glen = g.len();
    proof {
        assert(!g@[start as int]@.contains(target));
        assert(!has_edge(g@, start as int, target as int));
        assert forall|k: int| !(has_edge(g@, start as int, k) && has_edge(
            g@,
            k,
            target as int,
        )) by {
            if has_edge(g@, start as int, k) && has_edge(g@, k, target as int) {
                assert(0 <= k < glen);
                assert(g@[start as int]@.contains(k as usize));
                let idx = choose|idx: int| 0 <= idx < row@.len() && row@[idx] == k as usize;
                assert(!g@[(row@[idx]) as int]@.contains(target));
                assert(false);
            }
        }
    }
    false
}

/// Builds the overlay graph for `n` nodes: a consecutive chain, then a
/// direct edge for every pair still more than two hops apart.  The result
/// is symmetric, free of self-loops, and — the topology bound — every pair
/// of nodes is connected by a path of at most two edges.
pub fn build_optimized_topology(n: usize) -> (g: Vec<Vec<usize>>)
    ensures
        g@.len() == n,
        edges_valid(g@),
        symmetric(g@),
        no_self_loops(g@),
        forall|a: int, b: int| #![auto] 0 <= a && b == a + 1 && b < n ==> has_edge(g@, a, b),
        forall|a: int, b: int| 0 <= a < n && 0 <= b < n ==> within_two(g@, a, b),
{
    let mut g: Vec<Vec<usize>> = Vec::new();
    let mut i: usize = 0;
    while i < n
        invariant
            i <= n,
            g@.len() == i,
            forall|k: int| 0 <= k < i ==> (#[trigger] g@[k])@.len() == 0,
        decreases n - i,
    {
        g.push(Vec::new());
        i = i + 1;
    }
    proof {
        assert(edges_valid(g@));
        assert(symmetric(g@));
        assert(no_self_loops(g@));
    }
    // First pass: connect consecutive nodes into a chain.
    let mut i: usize = 0;
    while i + 1 < n
        invariant
            i == 0 || i < n,
            g@.len() == n,
            edges_valid(g@),
            symmetric(g@),
            no_self_loops(g@),
            forall|a: int, b: int| #![auto] 0 <= a && b == a + 1 && b <= i ==> has_edge(g@, a, b),
        decreases n - i,
    {
        let ghost pre = g@;
        add_bidirectional_edge(&mut g, i, i + 1);
        proof {
            lemma_edge_facts_preserved(pre, g@, i as int, i + 1 as int);
        }
        i = i + 1;
    }
    proof {
        assert forall|a: int, b: int| #![auto] 0 <= a && b == a + 1 && b < n
            implies has_edge(g@, a, b) by {
            assert(b <= i);
        }
    }
    // Second pass: give every remaining distant pair a direct edge.
    let mut a: usize = 0;
    while a < n
        invariant
            g@.len() == n,
            edges_valid(g@),
            symmetric(g@),
            no_self_loops(g@),
            forall|x: int, y: int| #![auto] 0 <= x && y == x + 1 && y < n ==> has_edge(g@, x, y),
            forall|x: int, y: int|
                0 <= x < a && x < y < n ==> #[trigger] within_two(g@, x, y),
        decreases n - a,
    {
        let mut b: usize = a + 1;
        while b < n
            invariant
                a < b <= n || (a + 1 >= n && b == a + 1),
                a < n,
                g@.len() == n,
                edges_valid(g@),
                symmetric(g@),
                no_self_loops(g@),
                forall|x: int, y: int|
                    #![auto]
                    0 <= x && y == x + 1 && y < n ==> has_edge(g@, x, y),
                forall|x: int, y: int|
                    0 <= x < a && x < y < n ==> #[trigger] within_two(g@, x, y),
                forall|y: int| a < y < b ==> #[trigger] within_two(g@, a as int, y),
            decreases n - b,
        {
            if !is_within_two_hops(&g, a, b) {
                let ghost pre = g@;
                add_bidirectional_edge(&mut g, a, b);
                proof {
                    lemma_edge_facts_preserved(pre, g@, a as int, b as int);
                    assert(has_edge(g@, a as int, b as int));
                    assert forall|x: int, y: int|
                        0 <= x < a && x < y < n implies #[trigger] within_two(g@, x, y) by {
                        lemma_within_two_monotone(pre, g@, x, y);
                    }
                    assert forall|y: int| a < y < b implies #[trigger] within_two(
                        g@,
                        a as int,
                        y,
                    ) by {
                        lemma_within_two_monotone(pre, g@, a as int, y);
                    }
                }
            }
            b = b + 1;
        }
        a = a + 1;
    }
    proof {
        assert forall|x: int, y: int| 0 <= x < n && 0 <= y < n implies within_two(g@, x, y) by {
            if x < y {
                assert(within_two(g@, x, y));
            } else if y < x {
                assert(within_two(g@, y, x));
                lemma_within_two_symmetric(g@, y, x);
            }
        }
    }
    g
}

/// The views of a list of node ids.
pub open spec fn ids_view(ids: Seq<String>) -> Seq<Seq<char>> {
    ids.map_values(|s: String| s@)
}

/// Pairwise distinct id views.
pub open spec fn distinct_ids_spec(idsv: Seq<Seq<char>>) -> bool {
    forall|i: int, j: int| 0 <= i < j < idsv.len() ==> idsv[i] != idsv[j]
}

/// Whether a peer list holds the id `y`.
pub open spec fn peers_contain(peers: Seq<String>, y: Seq<char>) -> bool {
    exists|q: int| 0 <= q < peers.len() && (#[trigger] peers[q])@ == y
}

/// The id-level edge relation of a registry: node `x` lists `y` as a peer.
pub open spec fn peer_edge(c: Cluster, x: Seq<char>, y: Seq<char>) -> bool {
    exists|p: int|
        0 <= p < c.nodes@.len() && (#[trigger] c.nodes@[p]).id@ == x && peers_contain(
            c.nodes@[p].peers@,
            y,
        )
}

/// Ids `ids[a]` and `ids[b]` are connected by at most two peer-list edges.
pub open spec fn within_two_ids(c: Cluster, idsv: Seq<Seq<char>>, a: int, b: int) -> bool {
    ||| a == b
    ||| peer_edge(c, idsv[a], idsv[b])
    ||| exists|k: int|
        #![auto]
        0 <= k < idsv.len() && peer_edge(c, idsv[a], idsv[k]) && peer_edge(c, idsv[k], idsv[b])
}

/// Whether some id view in the list equals `id`.
pub open spec fn ids_contain(idsv: Seq<Seq<char>>, id: Seq<char>) -> bool {
    exists|k: int| 0 <= k < idsv.len() && idsv[k] == id
}

/// The position of `id` in the list (meaningful when present).
pub open spec fn id_pos(idsv: Seq<Seq<char>>, id: Seq<char>) -> int {
    choose|k: int| 0 <= k < idsv.len() && idsv[k] == id
}

/// Checks that a node-id list holds no duplicate.
pub fn distinct_ids(ids: &Vec<String>) -> (r: bool)
    ensures
        r == distinct_ids_spec(ids_view(ids@)),
{
    let mut i: usize = 0;
    while i < ids.len()
        invariant
            i <= ids@.len(),
            forall|p: int, q: int| 0 <= p < q < ids@.len() && p < i ==> ids_view(ids@)[p]
                != ids_view(ids@)[q],
        decreases ids@.len() - i,
    {
        let mut j: usize = i + 1;
        while j < ids.len()
            invariant
                i < j <= ids@.len() || j == i + 1,
                i < ids@.len(),
                forall|q: int| i < q < j ==> ids_view(ids@)[i as int] != ids_view(ids@)[q],
            decreases ids@.len() - j,
        {
            if ids[i] == ids[j] {
                proof {
                    assert(ids_view(ids@)[i as int] == ids_view(ids@)[j as int]);
                }
                return false;
            }
            j = j + 1;
        }
        i = i + 1;
    }
    true
}

/// Maps an adjacency row of positions back to node ids.
pub fn map_ids(adj: &Vec<usize>, ids: &Vec<String>) -> (r: Vec<String>)
    requires
        forall|k: int| 0 <= k < adj@.len() ==> (#[trigger] adj@[k]) < ids@.len(),
    ensures
        r@.len() == adj@.len(),
        forall|k: int|
            0 <= k < adj@.len() ==> (#[trigger] r@[k])@ == ids@[adj@[k] as int]@,
{
    let mut r: Vec<String> = Vec::new();
    let mut k: usize = 0;
    while k < adj.len()
        invariant
            k <= adj@.len(),
            r@.len() == k,
            forall|j: int| 0 <= j < adj@.len() ==> (#[trigger] adj@[j]) < ids@.len(),
            forall|j: int| 0 <= j < k ==> (#[trigger] r@[j])@ == ids@[adj@[j] as int]@,
        decreases adj@.len() - k,
    {
        r.push(ids[adj[k]].clone());
        k = k + 1;
    }
    r
}

/// The node at position `p` got the adjacency row `k` written back as its
/// peer list, translated to ids.
pub open spec fn row_assigned(c: Cluster, g: Seq<Vec<usize>>, ids: Seq<String>, p: int, k: int) -> bool {
    &&& c.nodes@[p].peers@.len() == g[k]@.len()
    &&& forall|q: int|
        0 <= q < g[k]@.len() ==> (#[trigger] c.nodes@[p].peers@[q])@ == ids[g[k]@[q] as int]@
}

/// Everything but the peer list survives the write-back, at every position.
pub open spec fn frames_preserved(oldc: Cluster, c: Cluster) -> bool {
    &&& c.nodes@.len() == oldc.nodes@.len()
    &&& c.is_topology_done == oldc.is_topology_done
    &&& forall|p: int|
        0 <= p < c.nodes@.len() ==> {
            let oldn = #[trigger] oldc.nodes@[p];
            let newn = c.nodes@[p];
            &&& newn.id == oldn.id
            &&& newn.next_msg_id == oldn.next_msg_id
            &&& newn.gcounter_data == oldn.gcounter_data
            &&& newn.broadcast_data == oldn.broadcast_data
            &&& newn.gossip_task_started == oldn.gossip_task_started
        }
}

/// Writes the freshly built adjacency lists back into each registered
/// node's peer list, replacing the flat list received at initialization.
/// An id in the list that is not registered locally is skipped.
pub fn apply_topology_to_cluster(cluster: &mut Cluster, g: &Vec<Vec<usize>>, ids: &Vec<String>)
    requires
        old(cluster).wf(),
        g@.len() == ids@.len(),
        edges_valid(g@),
        distinct_ids_spec(ids_view(ids@)),
    ensures
        final(cluster).wf(),
        frames_preserved(*old(cluster), *final(cluster)),
        forall|p: int|
            0 <= p < final(cluster).nodes@.len() && !ids_contain(
                ids_view(ids@),
                (#[trigger] final(cluster).nodes@[p]).id@,
            ) ==> final(cluster).nodes@[p].peers == old(cluster).nodes@[p].peers,
        forall|k: int|
            0 <= k < ids@.len() && old(cluster).has_node(ids_view(ids@)[k])
                ==> row_assigned(
                *final(cluster),
                g@,
                ids@,
                old(cluster).node_index(ids_view(ids@)[k]),
                k,
            ),
        forall|id: Seq<char>| final(cluster).has_node(id) == old(cluster).has_node(id),
        forall|id: Seq<char>|
            #![auto]
            old(cluster).has_node(id) ==> final(cluster).node_index(id) == old(cluster).node_index(
                id,
            ),
{
    let ghost oldc = *old(cluster);
    let ghost idsv = ids_view(ids@);
    let mut k: usize = 0;
    while k < ids.len()
        invariant
            cluster.wf(),
            g@.len() == ids@.len(),
            edges_valid(g@),
            distinct_ids_spec(idsv),
            idsv == ids_view(ids@),
            k <= ids@.len(),
            frames_preserved(oldc, *cluster),
            forall|p: int|
                0 <= p < cluster.nodes@.len() && !ids_contain(
                    idsv.subrange(0, k as int),
                    (#[trigger] cluster.nodes@[p]).id@,
                ) ==> cluster.nodes@[p].peers == oldc.nodes@[p].peers,
            forall|j: int|
                0 <= j < k && oldc.has_node(idsv[j]) ==> row_assigned(
                    *cluster,
                    g@,
                    ids@,
                    oldc.node_index(idsv[j]),
                    j,
                ),
        decreases ids@.len() - k,
    {
        let ghost prev = *cluster;
        match cluster.find_node(&ids[k]) {
            Some(p) => {
                proof {
                    cluster.lemma_node_index(p as int);
                }
                let mut node = cluster.nodes.remove(p);
                let row = &g[k];
                proof {
                    assert(forall|q: int|
                        0 <= q < g@[k as int]@.len() ==> (#[trigger] g@[k as int]@[q])
                            < ids@.len());
                }
                node.peers = map_ids(row, ids);
                let ghost newn = node;
                cluster.nodes.insert(p, node);
                proof {
                    assert(cluster.nodes@ =~= prev.nodes@.update(p as int, newn));
                    crate::broadcast::lemma_cluster_update_wf(prev, *cluster, p as int);
                    assert(oldc.nodes@[p as int].id@ == idsv[k as int]);
                    assert(oldc.has_node(idsv[k as int])) by {
                        assert(oldc.nodes@[p as int].id@ == idsv[k as int]);
                    }
                    oldc.lemma_node_index(p as int);
                    assert(row_assigned(*cluster, g@, ids@, p as int, k as int));
                    assert forall|j: int| 0 <= j < k + 1 && oldc.has_node(idsv[j])
                        implies row_assigned(*cluster, g@, ids@, oldc.node_index(idsv[j]), j) by {
                        if j < k {
                            let pj = oldc.node_index(idsv[j]);
                            assert(row_assigned(prev, g@, ids@, pj, j));
                            assert(idsv[j] != idsv[k as int]);
                            assert(oldc.nodes@[pj].id@ == idsv[j]);
                            assert(pj != p as int);
                            assert(cluster.nodes@[pj] == prev.nodes@[pj]);
                        }
                    }
                    assert forall|q: int|
                        0 <= q < cluster.nodes@.len() && !ids_contain(
                            idsv.subrange(0, k + 1 as int),
                            (#[trigger] cluster.nodes@[q]).id@,
                        ) implies cluster.nodes@[q].peers == oldc.nodes@[q].peers by {
                        if q != p as int {
                            assert(cluster.nodes@[q] == prev.nodes@[q]);
                            assert(!ids_contain(
                                idsv.subrange(0, k as int),
                                cluster.nodes@[q].id@,
                            )) by {
                                if ids_contain(idsv.subrange(0, k as int), cluster.nodes@[q].id@) {
                                    let w = choose|w: int|
                                        0 <= w < idsv.subrange(0, k as int).len()
                                            && idsv.subrange(0, k as int)[w]
                                            == cluster.nodes@[q].id@;
                                    assert(idsv.subrange(0, k + 1 as int)[w]
                                        == cluster.nodes@[q].id@);
                                }
                            }
                        } else {
                            assert(cluster.nodes@[q].id@ == idsv[k as int]);
                            assert(idsv.subrange(0, k + 1 as int)[k as int]
                                == cluster.nodes@[q].id@);
                        }
                    }
                }
            },
            None => {
                proof {
                    assert forall|q: int|
                        0 <= q < cluster.nodes@.len() && !ids_contain(
                            idsv.subrange(0, k + 1 as int),
                            (#[trigger] cluster.nodes@[q]).id@,
                        ) implies cluster.nodes@[q].peers == oldc.nodes@[q].peers by {
                        if ids_contain(idsv.subrange(0, k as int), cluster.nodes@[q].id@) {
                            let w = choose|w: int|
                                0 <= w < idsv.subrange(0, k as int).len() && idsv.subrange(
                                    0,
                                    k as int,
                                )[w] == cluster.nodes@[q].id@;
                            assert(idsv.subrange(0, k + 1 as int)[w] == cluster.nodes@[q].id@);
                        }
                    }
                    assert forall|j: int| 0 <= j < k + 1 && oldc.has_node(idsv[j])
                        implies row_assigned(*cluster, g@, ids@, oldc.node_index(idsv[j]), j) by {
                        if j == k {
                            let pj = oldc.node_index(idsv[j]);
                            assert(oldc.nodes@[pj].id@ == idsv[j]);
                            assert(cluster.nodes@[pj].id@ == idsv[j]);
                            assert(cluster.has_node(idsv[j]));
                            assert(false);
                        }
                    }
                }
            },
        }
        k = k + 1;
    }
    proof {
        assert(idsv.subrange(0, ids@.len() as int) =~= idsv);
        assert forall|id: Seq<char>| final(cluster).has_node(id) == oldc.has_node(id) by {
            if oldc.has_node(id) {
                let p = choose|p: int|
                    0 <= p < oldc.nodes@.len() && (#[trigger] oldc.nodes@[p]).id@ == id;
                assert(cluster.nodes@[p].id@ == id);
            }
            if cluster.has_node(id) {
                let p = choose|p: int|
                    0 <= p < cluster.nodes@.len() && (#[trigger] cluster.nodes@[p]).id@ == id;
                assert(oldc.nodes@[p].id@ == id);
            }
        }
        assert forall|id: Seq<char>| #![auto] oldc.has_node(id) implies cluster.node_index(id)
            == oldc.node_index(id) by {
            let p = oldc.node_index(id);
            assert(0 <= p < oldc.nodes@.len() && oldc.nodes@[p].id@ == id);
            assert(cluster.nodes@[p].id@ == id);
            cluster.lemma_node_index(p);
            oldc.lemma_node_index(p);
        }
    }
}

/// After the write-back, the id-level edge relation of the registry agrees
/// exactly with the index-level graph, provided every listed id is
/// registered and the list is duplicate-free.
pub proof fn lemma_peer_edges_match(c: Cluster, g: Seq<Vec<usize>>, ids: Seq<String>)
    requires
        c.wf(),
        g.len() == ids.len(),
        g.len() <= usize::MAX,
        edges_valid(g),
        distinct_ids_spec(ids_view(ids)),
        forall|k: int| 0 <= k < ids.len() ==> c.has_node(ids_view(ids)[k]),
        forall|k: int|
            0 <= k < ids.len() ==> row_assigned(c, g, ids, c.node_index(ids_view(ids)[k]), k),
    ensures
        forall|a: int, b: int|
            #![auto]
            0 <= a < ids.len() && 0 <= b < ids.len() ==> (peer_edge(
                c,
                ids_view(ids)[a],
                ids_view(ids)[b],
            ) <==> has_edge(g, a, b)),
{
    let idsv = ids_view(ids);
    assert forall|a: int, b: int|
        #![auto]
        0 <= a < ids.len() && 0 <= b < ids.len() implies (peer_edge(c, idsv[a], idsv[b])
        <==> has_edge(g, a, b)) by {
        if peer_edge(c, idsv[a], idsv[b]) {
            let p = choose|p: int|
                0 <= p < c.nodes@.len() && (#[trigger] c.nodes@[p]).id@ == idsv[a]
                    && peers_contain(c.nodes@[p].peers@, idsv[b]);
            c.lemma_node_index(p);
            assert(c.node_index(idsv[a]) == p);
            assert(row_assigned(c, g, ids, p, a));
            let q = choose|q: int|
                0 <= q < c.nodes@[p].peers@.len() && (#[trigger] c.nodes@[p].peers@[q])@
                    == idsv[b];
            let e = g[a]@[q];
            assert(c.nodes@[p].peers@[q]@ == ids[e as int]@);
            assert(idsv[e as int] == idsv[b]);
            if e as int != b {
                if e < b {
                    assert(idsv[e as int] != idsv[b]);
                } else {
                    assert(idsv[b] != idsv[e as int]);
                }
            }
            assert(g[a]@.contains(b as usize));
            assert(has_edge(g, a, b));
        }
        if has_edge(g, a, b) {
            let q = choose|q: int| 0 <= q < g[a]@.len() && g[a]@[q] == b as usize;
            assert(c.has_node(idsv[a]));
            let p = c.node_index(idsv[a]);
            assert(0 <= p < c.nodes@.len() && c.nodes@[p].id@ == idsv[a]);
            assert(row_assigned(c, g, ids, p, a));
            assert(c.nodes@[p].peers@[q]@ == ids[g[a]@[q] as int]@);
            assert(c.nodes@[p].peers@[q]@ == idsv[b]);
            assert(peers_contain(c.nodes@[p].peers@, idsv[b]));
            assert(peer_edge(c, idsv[a], idsv[b]));
        }
    }
}

/// After adding the one bidirectional edge `(a, b)`, validity, symmetry and
/// the absence of self-loops carry over, and the old graph is a subgraph of
/// the new one.
proof fn lemma_edge_facts_preserved(pre: Seq<Vec<usize>>, post: Seq<Vec<usize>>, a: int, b: int)
    requires
        0 <= a < pre.len(),
        0 <= b < pre.len(),
        a != b,
        post.len() == pre.len(),
        post[a]@ == pre[a]@.push(b as usize),
        post[b]@ == pre[b]@.push(a as usize),
        forall|x: int| 0 <= x < pre.len() && x != a && x != b ==> (#[trigger] post[x]) == pre[x],
        forall|x: int, y: int|
            #![auto]
            has_edge(post, x, y) <==> (has_edge(pre, x, y) || (x == a && y == b) || (x == b && y
                == a)),
        edges_valid(pre),
        symmetric(pre),
        no_self_loops(pre),
    ensures
        edges_valid(post),
        symmetric(post),
        no_self_loops(post),
        subgraph(pre, post),
{
    assert forall|x: int, k: int|
        0 <= x < post.len() && 0 <= k < post[x]@.len() implies (#[trigger] post[x]@[k])
        < post.len() by {
        if x == a && k == post[a]@.len() - 1 {
        } else if x == b && k == post[b]@.len() - 1 {
        } else if x == a || x == b {
            assert(post[x]@[k] == pre[x]@[k]);
        } else {
            assert(post[x] == pre[x]);
        }
    }
}

} // verus!
