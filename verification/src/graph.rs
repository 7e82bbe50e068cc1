//! Directed-graph algorithms over dense edge lists: topological ordering
//! (Kahn), cycle detection, and longest-path / heaviest-path layering.
//!
//! A graph has `n` nodes `0..n` and a list of edges `(from, to)`.

use vstd::prelude::*;

verus! {

pub type Edges = Seq<(usize, usize)>;

pub open spec fn edges_in_range(n: nat, e: Edges) -> bool {
    forall|k: int| 0 <= k < e.len() ==> (#[trigger] e[k]).0 < n && e[k].1 < n
}

pub open spec fn no_self_loops(e: Edges) -> bool {
    forall|k: int| 0 <= k < e.len() ==> (#[trigger] e[k]).0 != e[k].1
}

/// `rank` strictly increases along every edge.
pub open spec fn is_rank(n: nat, e: Edges, rank: Seq<int>) -> bool {
    &&& rank.len() == n
    &&& forall|k: int| 0 <= k < e.len() ==> rank[(#[trigger] e[k]).0 as int] < rank[e[k].1 as int]
}

/// A graph is acyclic when some ranking strictly increases along every edge.
pub open spec fn acyclic(n: nat, e: Edges) -> bool {
    exists|rank: Seq<int>| is_rank(n, e, rank)
}

/// Number of edges among the first `k` that end at `v` and start at a node
/// not yet placed (`pos[src] >= n`).
pub open spec fn cnt_open(e: Edges, pos: Seq<usize>, n: nat, v: usize, k: int) -> nat
    decreases k,
{
    if k <= 0 {
        0
    } else {
        cnt_open(e, pos, n, v, k - 1) + if e[k - 1].1 == v && pos[e[k - 1].0 as int] >= n {
            1nat
        } else {
            0nat
        }
    }
}

/// Number of edges among the first `k` from `u` to `v`.
pub open spec fn cnt_uv(e: Edges, u: usize, v: usize, k: int) -> nat
    decreases k,
{
    if k <= 0 {
        0
    } else {
        cnt_uv(e, u, v, k - 1) + if e[k - 1].0 == u && e[k - 1].1 == v {
            1nat
        } else {
            0nat
        }
    }
}

/// Number of nodes below `m` already placed.
pub open spec fn cnt_placed(pos: Seq<usize>, n: nat, m: int) -> nat
    decreases m,
{
    if m <= 0 {
        0
    } else {
        cnt_placed(pos, n, m - 1) + if pos[m - 1] < n {
            1nat
        } else {
            0nat
        }
    }
}

proof fn lemma_cnt_open_place(e: Edges, pos: Seq<usize>, n: nat, u: usize, val: usize, v: usize, k: int)
    requires
        0 <= k <= e.len(),
        pos[u as int] >= n,
        val < n,
        u < pos.len(),
        forall|j: int| 0 <= j < e.len() ==> (#[trigger] e[j]).0 < pos.len(),
    ensures
        cnt_open(e, pos.update(u as int, val), n, v, k) + cnt_uv(e, u, v, k) == cnt_open(e, pos, n, v, k),
    decreases k,
{
    if k > 0 {
        lemma_cnt_open_place(e, pos, n, u, val, v, k - 1);
        let x = e[k - 1];
        assert(x.0 < pos.len());
    }
}

proof fn lemma_cnt_uv_mono(e: Edges, u: usize, v: usize, j: int, k: int)
    requires
        0 <= j <= k,
    ensures
        cnt_uv(e, u, v, j) <= cnt_uv(e, u, v, k),
    decreases k - j,
{
    if j < k {
        lemma_cnt_uv_mono(e, u, v, j, k - 1);
    }
}

proof fn lemma_cnt_open_pos(e: Edges, pos: Seq<usize>, n: nat, v: usize, k: int)
    requires
        0 <= k <= e.len(),
        cnt_open(e, pos, n, v, k) > 0,
    ensures
        exists|j: int| 0 <= j < k && (#[trigger] e[j]).1 == v && pos[e[j].0 as int] >= n,
    decreases k,
{
    if cnt_open(e, pos, n, v, k - 1) > 0 {
        lemma_cnt_open_pos(e, pos, n, v, k - 1);
    } else {
        let j = k - 1;
        assert(e[j].1 == v && pos[e[j].0 as int] >= n);
    }
}

proof fn lemma_cnt_open_zero(e: Edges, pos: Seq<usize>, n: nat, v: usize, k: int)
    requires
        0 <= k <= e.len(),
        forall|j: int| 0 <= j < k ==> !((#[trigger] e[j]).1 == v && pos[e[j].0 as int] >= n),
    ensures
        cnt_open(e, pos, n, v, k) == 0,
    decreases k,
{
    if k > 0 {
        lemma_cnt_open_zero(e, pos, n, v, k - 1);
    }
}

proof fn lemma_cnt_placed_update(pos: Seq<usize>, n: nat, u: int, val: usize, m: int)
    requires
        0 <= u < pos.len(),
        0 <= m <= pos.len(),
        pos[u] >= n,
        val < n,
    ensures
        cnt_placed(pos.update(u, val), n, m) == cnt_placed(pos, n, m) + if u < m {
            1nat
        } else {
            0nat
        },
    decreases m,
{
    if m > 0 {
        lemma_cnt_placed_update(pos, n, u, val, m - 1);
    }
}

proof fn lemma_cnt_placed_all(pos: Seq<usize>, n: nat, m: int)
    requires
        0 <= m <= pos.len(),
        cnt_placed(pos, n, m) == m,
    ensures
        forall|v: int| 0 <= v < m ==> pos[v] < n,
    decreases m,
{
    if m > 0 {
        assert(cnt_placed(pos, n, m - 1) <= m - 1) by {
            lemma_cnt_placed_le(pos, n, m - 1);
        }
        lemma_cnt_placed_all(pos, n, m - 1);
    }
}

proof fn lemma_cnt_placed_le(pos: Seq<usize>, n: nat, m: int)
    requires
        0 <= m,
    ensures
        cnt_placed(pos, n, m) <= m,
    decreases m,
{
    if m > 0 {
        lemma_cnt_placed_le(pos, n, m - 1);
    }
}

proof fn lemma_cnt_placed_none(pos: Seq<usize>, n: nat, m: int)
    requires
        0 <= m <= pos.len(),
        forall|v: int| 0 <= v < m ==> pos[v] >= n,
    ensures
        cnt_placed(pos, n, m) == 0,
    decreases m,
{
    if m > 0 {
        lemma_cnt_placed_none(pos, n, m - 1);
    }
}

/// Among the nodes satisfying `open` there is one of minimal rank.
proof fn lemma_min_rank(rank: Seq<int>, pos: Seq<usize>, n: nat, m: int) -> (w: int)
    requires
        0 < m <= rank.len(),
        m <= pos.len(),
        exists|v: int| 0 <= v < m && pos[v] >= n,
    ensures
        0 <= w < m,
        pos[w] >= n,
        forall|v: int| 0 <= v < m && pos[v] >= n ==> rank[w] <= rank[v],
    decreases m,
{
    if m == 1 {
        0
    } else if exists|v: int| 0 <= v < m - 1 && pos[v] >= n {
        let w0 = lemma_min_rank(rank, pos, n, m - 1);
        if pos[m - 1] >= n && rank[m - 1] < rank[w0] {
            m - 1
        } else {
            w0
        }
    } else {
        m - 1
    }
}

/// Kahn's algorithm: a topological order of all nodes when the graph is
/// acyclic, otherwise the prefix that could be ordered.
///
/// Returns the order and the position of each node in it (`n` for nodes
/// left out).
pub fn topo_sort(n: usize, edges: &Vec<(usize, usize)>) -> (res: (Vec<usize>, Vec<usize>))
    requires
        edges_in_range(n as nat, edges@),
        no_self_loops(edges@),
        edges@.len() < u32::MAX,
    ensures
        ({
            let (order, pos) = res;
            &&& pos@.len() == n
            &&& order@.len() <= n
            &&& (order@.len() == n <==> acyclic(n as nat, edges@))
            &&& forall|i: int| 0 <= i < order@.len() ==> (#[trigger] order@[i]) < n && pos@[order@[i] as int] == i
            &&& forall|v: int| 0 <= v < n ==> (pos@[v] < n ==> pos@[v] < order@.len() && order@[pos@[v] as int] == v)
            &&& forall|v: int| 0 <= v < n ==> (pos@[v] >= n ==> pos@[v] == n)
            &&& (order@.len() == n ==> forall|v: int| 0 <= v < n ==> pos@[v] < n)
            &&& (order@.len() == n ==> is_rank(n as nat, edges@, pos@.map_values(|p: usize| p as int)))
        }),
{
    let ghost e = edges@;
    let ghost nn = n as nat;
    let mut pos: Vec<usize> = Vec::new();
    let mut indeg: Vec<u32> = Vec::new();
    let mut i: usize = 0;
    while i < n
        invariant
            i <= n,
            pos@.len() == i,
            indeg@.len() == i,
            forall|v: int| 0 <= v < i ==> pos@[v] == n && indeg@[v] == 0,
        decreases n - i,
    {
        pos.push(n);
        indeg.push(0);
        i = i + 1;
    }
    // Count inbound edges.
    let mut k: usize = 0;
    while k < edges.len()
        invariant
            e == edges@,
            nn == n as nat,
            edges_in_range(nn, e),
            e.len() < u32::MAX,
            k <= e.len(),
            pos@.len() == n,
            indeg@.len() == n,
            forall|v: int| 0 <= v < n ==> pos@[v] == n,
            forall|v: int| 0 <= v < n ==> #[trigger] indeg@[v] == cnt_open(e, pos@, nn, v as usize, k as int),
            forall|v: int| 0 <= v < n ==> #[trigger] cnt_open(e, pos@, nn, v as usize, k as int) <= k,
        decreases e.len() - k,
    {
        let (a, b) = edges[k];
        proof {
            assert(e[k as int].0 < n && e[k as int].1 < n);
            assert forall|v: int| 0 <= v < n implies #[trigger] cnt_open(e, pos@, nn, v as usize, k + 1) <= k + 1 by {
                assert(cnt_open(e, pos@, nn, v as usize, k as int) <= k);
            }
        }
        indeg.set(b, indeg[b] + 1);
        k = k + 1;
    }
    // Seed the stack with every source.
    let mut stack: Vec<usize> = Vec::new();
    let mut v: usize = 0;
    while v < n
        invariant
            e == edges@,
            nn == n as nat,
            v <= n,
            pos@.len() == n,
            indeg@.len() == n,
            forall|w: int| 0 <= w < n ==> pos@[w] == n,
            forall|w: int| 0 <= w < n ==> #[trigger] indeg@[w] == cnt_open(e, pos@, nn, w as usize, e.len() as int),
            forall|j: int| 0 <= j < stack@.len() ==> (#[trigger] stack@[j]) < v && indeg@[stack@[j] as int] == 0,
            forall|j1: int, j2: int| 0 <= j1 < j2 < stack@.len() ==> stack@[j1] != stack@[j2],
            forall|w: int| 0 <= w < v && indeg@[w] == 0 ==> stack@.contains(w as usize),
        decreases n - v,
    {
        let ghost before = stack@;
        if indeg[v] == 0 {
            stack.push(v);
            proof {
                assert(stack@[stack@.len() - 1] == v);
                assert forall|w: int| 0 <= w < v && indeg@[w] == 0 implies stack@.contains(w as usize) by {
                    let j = choose|j: int| 0 <= j < before.len() && before[j] == w as usize;
                    assert(stack@[j] == w as usize);
                }
                assert(stack@.contains(v));
            }
        }
        v = v + 1;
    }
    let mut order: Vec<usize> = Vec::new();
    proof {
        lemma_cnt_placed_none(pos@, nn, n as int);
    }
    while stack.len() > 0
        invariant
            e == edges@,
            nn == n as nat,
            edges_in_range(nn, e),
            no_self_loops(e),
            pos@.len() == n,
            indeg@.len() == n,
            order@.len() <= n,
            order@.len() == cnt_placed(pos@, nn, n as int),
            forall|i: int| 0 <= i < order@.len() ==> (#[trigger] order@[i]) < n && pos@[order@[i] as int] == i,
            forall|w: int| 0 <= w < n ==> (pos@[w] < n ==> pos@[w] < order@.len() && order@[pos@[w] as int] == w),
            forall|w: int| 0 <= w < n ==> (pos@[w] >= n ==> pos@[w] == n),
            forall|w: int| 0 <= w < n ==> #[trigger] indeg@[w] == cnt_open(e, pos@, nn, w as usize, e.len() as int),
            forall|j: int| 0 <= j < stack@.len() ==> (#[trigger] stack@[j]) < n && indeg@[stack@[j] as int] == 0
                && pos@[stack@[j] as int] == n,
            forall|j1: int, j2: int| 0 <= j1 < j2 < stack@.len() ==> stack@[j1] != stack@[j2],
            forall|w: int| 0 <= w < n && indeg@[w] == 0 && pos@[w] == n ==> stack@.contains(w as usize),
            forall|k: int| 0 <= k < e.len() ==> (pos@[(#[trigger] e[k]).1 as int] < n ==> pos@[e[k].0 as int]
                < pos@[e[k].1 as int]),
        decreases n - order@.len(),
    {
        let ghost pre_stack = stack@;
        let u = stack.pop().unwrap();
        let ghost old_pos = pos@;
        proof {
            assert(pre_stack[pre_stack.len() - 1] == u);
            assert(stack@ == pre_stack.drop_last());
            assert(pos@[u as int] == n);
            assert forall|j: int| 0 <= j < stack@.len() implies (#[trigger] stack@[j]) != u by {
                assert(pre_stack[j] == stack@[j]);
            }
            if order@.len() == n {
                lemma_cnt_placed_all(pos@, nn, n as int);
                assert(pos@[u as int] < n);
            }
            lemma_cnt_placed_update(pos@, nn, u as int, order@.len() as usize, n as int);
        }
        let p = order.len();
        pos.set(u, p);
        order.push(u);
        let ghost mid_pos = pos@;
        proof {
            assert forall|w: int| 0 <= w < n implies cnt_open(e, mid_pos, nn, w as usize, e.len() as int) + cnt_uv(
                e,
                u,
                w as usize,
                e.len() as int,
            ) == indeg@[w] by {
                lemma_cnt_open_place(e, old_pos, nn, u, p, w as usize, e.len() as int);
            }
            // Every edge into u comes from a placed node.
            assert forall|k: int| 0 <= k < e.len() && (#[trigger] e[k]).1 == u implies old_pos[e[k].0 as int] < n by {
                if old_pos[e[k].0 as int] >= n {
                    lemma_cnt_open_zero_contra(e, old_pos, nn, u, k);
                }
            }
        }
        proof {
            assert forall|w: int| 0 <= w < n && indeg@[w] == 0 && pos@[w] == n implies stack@.contains(w as usize) by {
                assert(w != u);
                assert(old_pos[w] == n);
                let j = choose|j: int| 0 <= j < pre_stack.len() && pre_stack[j] == w as usize;
                assert(j != pre_stack.len() - 1);
                assert(stack@[j] == w as usize);
            }
        }
        let mut k: usize = 0;
        while k < edges.len()
            invariant
                e == edges@,
                nn == n as nat,
                edges_in_range(nn, e),
                no_self_loops(e),
                pos@ == mid_pos,
                old_pos.len() == n,
                mid_pos == old_pos.update(u as int, p),
                forall|w: int| 0 <= w < n ==> (old_pos[w] >= n ==> old_pos[w] == n),
                forall|k: int| 0 <= k < e.len() ==> (old_pos[(#[trigger] e[k]).1 as int] < n ==> old_pos[e[k].0 as int]
                    < old_pos[e[k].1 as int]),
                pos@.len() == n,
                indeg@.len() == n,
                u < n,
                k <= e.len(),
                pos@[u as int] == p,
                p < n,
                order@.len() == p + 1,
                old_pos[u as int] == n,
                forall|w: int| 0 <= w < n ==> #[trigger] indeg@[w] + cnt_uv(e, u, w as usize, k as int) == cnt_open(
                    e,
                    mid_pos,
                    nn,
                    w as usize,
                    e.len() as int,
                ) + cnt_uv(e, u, w as usize, e.len() as int),
                forall|j: int| 0 <= j < stack@.len() ==> (#[trigger] stack@[j]) < n && indeg@[stack@[j] as int] == 0
                    && pos@[stack@[j] as int] == n,
                forall|j1: int, j2: int| 0 <= j1 < j2 < stack@.len() ==> stack@[j1] != stack@[j2],
                forall|w: int|
                    0 <= w < n && indeg@[w] == 0 && pos@[w] == n && cnt_uv(e, u, w as usize, k as int) == cnt_uv(
                        e,
                        u,
                        w as usize,
                        e.len() as int,
                    ) ==> stack@.contains(w as usize),
            decreases e.len() - k,
        {
            let (a, b) = edges[k];
            let ghost stack_before = stack@;
            let ghost indeg_before = indeg@;
            proof {
                assert(e[k as int] == (a, b));
                assert(a < n && b < n);
                assert forall|w: int| 0 <= w < n && w != b implies #[trigger] cnt_uv(e, u, w as usize, k as int + 1)
                    == cnt_uv(e, u, w as usize, k as int) by {}
                if a != u {
                    assert(cnt_uv(e, u, b, k as int + 1) == cnt_uv(e, u, b, k as int));
                }
            }
            if a == u {
                proof {
                    lemma_cnt_uv_mono(e, u, b, k as int + 1, e.len() as int);
                    assert(cnt_uv(e, u, b, k as int + 1) == cnt_uv(e, u, b, k as int) + 1);
                    assert(b != u);
                    assert(indeg@[b as int] >= 1);
                    assert forall|j: int| 0 <= j < stack@.len() implies (#[trigger] stack@[j]) != b by {}
                    // b was still open: an edge from the unplaced u ends at it.
                    if old_pos[b as int] < n {
                        assert(old_pos[e[k as int].0 as int] < old_pos[e[k as int].1 as int]);
                    }
                    assert(pos@[b as int] == n);
                }
                let d = indeg[b] - 1;
                indeg.set(b, d);
                if d == 0 {
                    stack.push(b);
                    proof {
                        assert(stack@[stack@.len() - 1] == b);
                        assert forall|j: int| 0 <= j < stack_before.len() implies stack@[j] == stack_before[j] by {}
                    }
                }
            }
            proof {
                assert forall|j: int| 0 <= j < stack_before.len() implies stack@[j] == stack_before[j] by {}
                assert forall|w: int|
                    0 <= w < n && indeg@[w] == 0 && pos@[w] == n && #[trigger] cnt_uv(e, u, w as usize, k + 1) == cnt_uv(
                        e,
                        u,
                        w as usize,
                        e.len() as int,
                    ) implies stack@.contains(w as usize) by {
                    if a == u && w == b {
                        assert(stack@[stack@.len() - 1] == b);
                    } else {
                        assert(indeg@[w] == indeg_before[w]);
                        assert(stack_before.contains(w as usize));
                        let j = choose|j: int| 0 <= j < stack_before.len() && stack_before[j] == w as usize;
                        assert(stack@[j] == w as usize);
                    }
                }
            }
            k = k + 1;
        }
        proof {
            assert forall|k: int| 0 <= k < e.len() implies (pos@[(#[trigger] e[k]).1 as int] < n ==> pos@[e[k].0 as int]
                < pos@[e[k].1 as int]) by {
                if e[k].1 == u {
                } else if pos@[e[k].1 as int] < n {
                    assert(old_pos[e[k].1 as int] < n);
                }
            }
            assert forall|w: int| 0 <= w < n implies (pos@[w] < n ==> pos@[w] < order@.len() && order@[pos@[w] as int]
                == w) by {
                if w != u && pos@[w] < n {
                    assert(old_pos[w] < n);
                }
            }
            assert forall|i: int| 0 <= i < order@.len() implies (#[trigger] order@[i]) < n && pos@[order@[i] as int]
                == i by {
                if i < p {
                    assert(order@[i] != u);
                }
            }
        }
    }
    proof {
        let ord = order@;
        if ord.len() == n {
            lemma_cnt_placed_all(pos@, nn, n as int);
            let rank = pos@.map_values(|x: usize| x as int);
            assert(is_rank(nn, e, rank));
        } else {
            // Some node is still open; it has an open predecessor of smaller rank.
            if exists|w: int| 0 <= w < n && pos@[w] >= n {
            } else {
                lemma_cnt_placed_all_placed(pos@, nn, n as int);
            }
            assert(!acyclic(nn, e)) by {
                if acyclic(nn, e) {
                    let rank = choose|rank: Seq<int>| is_rank(nn, e, rank);
                    let w = lemma_min_rank(rank, pos@, nn, n as int);
                    assert(indeg@[w] > 0);
                    lemma_cnt_open_pos(e, pos@, nn, w as usize, e.len() as int);
                    let j = choose|j: int| 0 <= j < e.len() && (#[trigger] e[j]).1 == w && pos@[e[j].0 as int] >= nn;
                    assert(rank[e[j].0 as int] < rank[w]);
                }
            }
        }
    }
    (order, pos)
}

proof fn lemma_cnt_open_zero_contra(e: Edges, pos: Seq<usize>, n: nat, u: usize, k: int)
    requires
        0 <= k < e.len(),
        e[k].1 == u,
        pos[e[k].0 as int] >= n,
    ensures
        cnt_open(e, pos, n, u, e.len() as int) > 0,
{
    lemma_cnt_open_ge(e, pos, n, u, k + 1, e.len() as int);
}

proof fn lemma_cnt_open_ge(e: Edges, pos: Seq<usize>, n: nat, v: usize, j: int, k: int)
    requires
        0 <= j <= k,
    ensures
        cnt_open(e, pos, n, v, j) <= cnt_open(e, pos, n, v, k),
    decreases k - j,
{
    if j < k {
        lemma_cnt_open_ge(e, pos, n, v, j, k - 1);
    }
}

proof fn lemma_cnt_placed_all_placed(pos: Seq<usize>, n: nat, m: int)
    requires
        0 <= m <= pos.len(),
        forall|v: int| 0 <= v < m ==> pos[v] < n,
    ensures
        cnt_placed(pos, n, m) == m,
    decreases m,
{
    if m > 0 {
        lemma_cnt_placed_all_placed(pos, n, m - 1);
    }
}


pub open spec fn has_edge(e: Edges, a: usize, b: usize) -> bool {
    exists|k: int| 0 <= k < e.len() && #[trigger] e[k] == (a, b)
}

/// A walk along edges, as the list of visited nodes.
pub open spec fn is_path(e: Edges, p: Seq<usize>) -> bool {
    &&& p.len() >= 1
    &&& forall|i: int| 0 <= i < p.len() - 1 ==> has_edge(e, #[trigger] p[i], p[i + 1])
}

/// Sum of the node weights along a path.
pub open spec fn path_weight(w: Seq<u16>, p: Seq<usize>) -> nat
    decreases p.len(),
{
    if p.len() == 0 {
        0
    } else {
        path_weight(w, p.drop_last()) + w[p.last() as int] as nat
    }
}

/// `d` is the largest number of edges on a path ending at `v`.
pub open spec fn longest_path_to(e: Edges, v: usize, d: nat) -> bool {
    &&& exists|p: Seq<usize>| #[trigger] is_path(e, p) && p.last() == v && p.len() - 1 == d
    &&& forall|p: Seq<usize>| #[trigger] is_path(e, p) && p.last() == v ==> p.len() - 1 <= d
}

/// `s` is the largest total node weight of a path ending at `v`.
pub open spec fn heaviest_path_to(e: Edges, w: Seq<u16>, v: usize, s: nat) -> bool {
    &&& exists|p: Seq<usize>| #[trigger] is_path(e, p) && p.last() == v && path_weight(w, p) == s
    &&& forall|p: Seq<usize>| #[trigger] is_path(e, p) && p.last() == v ==> path_weight(w, p) <= s
}

proof fn lemma_path_prefix(e: Edges, p: Seq<usize>)
    requires
        is_path(e, p),
        p.len() >= 2,
    ensures
        is_path(e, p.drop_last()),
        has_edge(e, p[p.len() - 2], p.last()),
{
    let q = p.drop_last();
    assert forall|i: int| 0 <= i < q.len() - 1 implies has_edge(e, #[trigger] q[i], q[i + 1]) by {
        assert(q[i] == p[i] && q[i + 1] == p[i + 1]);
        assert(has_edge(e, p[i], p[i + 1]));
    }
    assert(has_edge(e, p[p.len() - 2], p[p.len() - 1]));
}

proof fn lemma_path_extend(e: Edges, p: Seq<usize>, v: usize)
    requires
        is_path(e, p),
        has_edge(e, p.last(), v),
    ensures
        is_path(e, p.push(v)),
        p.push(v).drop_last() == p,
{
    let q = p.push(v);
    assert forall|i: int| 0 <= i < q.len() - 1 implies has_edge(e, #[trigger] q[i], q[i + 1]) by {
        if i < p.len() - 1 {
            assert(q[i] == p[i] && q[i + 1] == p[i + 1]);
            assert(has_edge(e, p[i], p[i + 1]));
        } else {
            assert(q[i] == p.last() && q[i + 1] == v);
        }
    }
    assert(q.drop_last() =~= p);
}

/// Layer values that dominate every edge bound every path.
proof fn lemma_paths_bounded(e: Edges, w: Seq<u16>, depth: Seq<u32>, heavy: Seq<u64>, p: Seq<usize>)
    requires
        is_path(e, p),
        forall|k: int| 0 <= k < e.len() ==> depth[(#[trigger] e[k]).1 as int] >= depth[e[k].0 as int] + 1
            && heavy[e[k].1 as int] >= heavy[e[k].0 as int] + w[e[k].1 as int],
        forall|v: int| 0 <= v < heavy.len() ==> heavy[v] >= w[v],
        forall|i: int| 0 <= i < p.len() ==> (#[trigger] p[i]) < heavy.len() && p[i] < depth.len(),
    ensures
        p.len() - 1 <= depth[p.last() as int],
        path_weight(w, p) <= heavy[p.last() as int],
    decreases p.len(),
{
    if p.len() >= 2 {
        lemma_path_prefix(e, p);
        let q = p.drop_last();
        assert forall|i: int| 0 <= i < q.len() implies (#[trigger] q[i]) < heavy.len() && q[i] < depth.len() by {
            assert(q[i] == p[i]);
        }
        lemma_paths_bounded(e, w, depth, heavy, q);
        let k = choose|k: int| 0 <= k < e.len() && #[trigger] e[k] == (p[p.len() - 2], p.last());
        assert(q.last() == p[p.len() - 2]);
        assert(heavy[e[k].1 as int] >= heavy[e[k].0 as int] + w[e[k].1 as int]);
        assert(path_weight(w, p) == path_weight(w, q) + w[p.last() as int]);
    } else {
        assert(p.last() == p[0]);
        assert(p.drop_last() =~= Seq::<usize>::empty());
        assert(path_weight(w, p.drop_last()) == 0);
        assert(path_weight(w, p) == w[p.last() as int]);
        assert(heavy[p[0] as int] >= w[p[0] as int]);
    }
}

/// Layer values justified by a predecessor of smaller rank are reached by paths.
proof fn lemma_paths_exist(
    n: nat,
    e: Edges,
    w: Seq<u16>,
    pos: Seq<usize>,
    depth: Seq<u32>,
    heavy: Seq<u64>,
    v: usize,
)
    requires
        v < n,
        pos.len() == n,
        depth.len() == n,
        heavy.len() == n,
        w.len() == n,
        edges_in_range(n, e),
        forall|x: int|
            0 <= x < n ==> (#[trigger] depth[x] == 0 || exists|k: int|
                0 <= k < e.len() && (#[trigger] e[k]).1 == x && pos[e[k].0 as int] < pos[x] && depth[x]
                    == depth[e[k].0 as int] + 1),
        forall|x: int|
            0 <= x < n ==> (#[trigger] heavy[x] == w[x] || exists|k: int|
                0 <= k < e.len() && (#[trigger] e[k]).1 == x && pos[e[k].0 as int] < pos[x] && heavy[x]
                    == heavy[e[k].0 as int] + w[x]),
    ensures
        exists|p: Seq<usize>| #[trigger] is_path(e, p) && p.last() == v && p.len() - 1 == depth[v as int],
        exists|p: Seq<usize>| #[trigger] is_path(e, p) && p.last() == v && path_weight(w, p) == heavy[v as int],
    decreases pos[v as int],
{
    let single = seq![v];
    assert(is_path(e, single));
    assert(single.drop_last() =~= Seq::<usize>::empty());
    assert(path_weight(w, single.drop_last()) == 0);
    assert(path_weight(w, single) == w[v as int]);
    if depth[v as int] != 0 {
        let k = choose|k: int|
            0 <= k < e.len() && (#[trigger] e[k]).1 == v && pos[e[k].0 as int] < pos[v as int] && depth[v as int]
                == depth[e[k].0 as int] + 1;
        let a = e[k].0;
        lemma_paths_exist(n, e, w, pos, depth, heavy, a);
        let p = choose|p: Seq<usize>| #[trigger] is_path(e, p) && p.last() == a && p.len() - 1 == depth[a as int];
        assert(has_edge(e, a, v));
        lemma_path_extend(e, p, v);
        assert(is_path(e, p.push(v)) && p.push(v).last() == v);
    }
    if heavy[v as int] != w[v as int] {
        let k = choose|k: int|
            0 <= k < e.len() && (#[trigger] e[k]).1 == v && pos[e[k].0 as int] < pos[v as int] && heavy[v as int]
                == heavy[e[k].0 as int] + w[v as int];
        let a = e[k].0;
        lemma_paths_exist(n, e, w, pos, depth, heavy, a);
        let p = choose|p: Seq<usize>| #[trigger] is_path(e, p) && p.last() == a && path_weight(w, p) == heavy[a as int];
        assert(has_edge(e, a, v));
        lemma_path_extend(e, p, v);
        assert(path_weight(w, p.push(v)) == path_weight(w, p) + w[v as int]);
        assert(is_path(e, p.push(v)) && p.push(v).last() == v);
    }
}

/// For every node of an acyclic graph, the longest path ending there (in
/// edges) and the heaviest path ending there (summing node weights), computed
/// in the topological order produced by [`topo_sort`].
pub fn longest_paths(n: usize, edges: &Vec<(usize, usize)>, order: &Vec<usize>, pos: &Vec<usize>, w: &Vec<u16>) -> (res: (
    Vec<u32>,
    Vec<u64>,
))
    requires
        edges_in_range(n as nat, edges@),
        n < 0x1_0000,
        pos@.len() == n,
        order@.len() == n,
        w@.len() == n,
        forall|i: int| 0 <= i < n ==> (#[trigger] order@[i]) < n && pos@[order@[i] as int] == i,
        forall|v: int| 0 <= v < n ==> pos@[v] < n && order@[pos@[v] as int] == v,
        is_rank(n as nat, edges@, pos@.map_values(|p: usize| p as int)),
    ensures
        res.0@.len() == n,
        res.1@.len() == n,
        forall|v: int| 0 <= v < n ==> longest_path_to(edges@, v as usize, res.0@[v] as nat),
        forall|v: int| 0 <= v < n ==> heaviest_path_to(edges@, w@, v as usize, res.1@[v] as nat),
{
    let ghost e = edges@;
    let ghost nn = n as nat;
    let ghost rank = pos@.map_values(|p: usize| p as int);
    proof {
        assert forall|k: int| 0 <= k < e.len() implies pos@[(#[trigger] e[k]).0 as int] < pos@[e[k].1 as int] by {
            assert(rank[e[k].0 as int] < rank[e[k].1 as int]);
        }
    }
    let mut depth: Vec<u32> = Vec::new();
    let mut heavy: Vec<u64> = Vec::new();
    let mut i: usize = 0;
    while i < n
        invariant
            i <= n,
            depth@.len() == i,
            heavy@.len() == i,
        decreases n - i,
    {
        depth.push(0);
        heavy.push(0);
        i = i + 1;
    }
    let mut j: usize = 0;
    while j < n
        invariant
            e == edges@,
            nn == n as nat,
            n < 0x1_0000,
            edges_in_range(nn, e),
            j <= n,
            pos@.len() == n,
            order@.len() == n,
            w@.len() == n,
            depth@.len() == n,
            heavy@.len() == n,
            forall|i: int| 0 <= i < n ==> (#[trigger] order@[i]) < n && pos@[order@[i] as int] == i,
            forall|v: int| 0 <= v < n ==> pos@[v] < n && order@[pos@[v] as int] == v,
            forall|k: int| 0 <= k < e.len() ==> pos@[(#[trigger] e[k]).0 as int] < pos@[e[k].1 as int],
            forall|v: int| 0 <= v < n && pos@[v] < j ==> depth@[v] <= pos@[v] && heavy@[v] <= (pos@[v] + 1) * 0xffff
                && heavy@[v] >= w@[v],
            forall|k: int|
                0 <= k < e.len() && pos@[(#[trigger] e[k]).1 as int] < j ==> depth@[e[k].1 as int] >= depth@[e[k].0 as int]
                    + 1 && heavy@[e[k].1 as int] >= heavy@[e[k].0 as int] + w@[e[k].1 as int],
            forall|x: int|
                0 <= x < n && pos@[x] < j ==> (#[trigger] depth@[x] == 0 || exists|k: int|
                    0 <= k < e.len() && (#[trigger] e[k]).1 == x && pos@[e[k].0 as int] < pos@[x] && depth@[x]
                        == depth@[e[k].0 as int] + 1),
            forall|x: int|
                0 <= x < n && pos@[x] < j ==> (#[trigger] heavy@[x] == w@[x] || exists|k: int|
                    0 <= k < e.len() && (#[trigger] e[k]).1 == x && pos@[e[k].0 as int] < pos@[x] && heavy@[x]
                        == heavy@[e[k].0 as int] + w@[x]),
        decreases n - j,
    {
        let v = order[j];
        let mut d: u32 = 0;
        let mut s: u64 = 0;
        let mut k: usize = 0;
        while k < edges.len()
            invariant
                e == edges@,
                nn == n as nat,
                n < 0x1_0000,
                edges_in_range(nn, e),
                j < n,
                v < n,
                pos@[v as int] == j,
                pos@.len() == n,
                w@.len() == n,
                depth@.len() == n,
                heavy@.len() == n,
                k <= e.len(),
                forall|kk: int| 0 <= kk < e.len() ==> pos@[(#[trigger] e[kk]).0 as int] < pos@[e[kk].1 as int],
                forall|x: int| 0 <= x < n && pos@[x] < j ==> depth@[x] <= pos@[x] && heavy@[x] <= (pos@[x] + 1) * 0xffff,
                d <= j,
                s <= j * 0xffff,
                forall|kk: int|
                    0 <= kk < k && (#[trigger] e[kk]).1 == v ==> d >= depth@[e[kk].0 as int] + 1 && s >= heavy@[e[kk].0 as int],
                d == 0 || exists|kk: int|
                    0 <= kk < e.len() && (#[trigger] e[kk]).1 == v && pos@[e[kk].0 as int] < j && d == depth@[e[kk].0 as int] + 1,
                s == 0 || exists|kk: int|
                    0 <= kk < e.len() && (#[trigger] e[kk]).1 == v && pos@[e[kk].0 as int] < j && s == heavy@[e[kk].0 as int],
            decreases e.len() - k,
        {
            let (a, b) = edges[k];
            if b == v {
                proof {
                    assert(e[k as int] == (a, b));
                    assert(pos@[a as int] < j);
                    assert((pos@[a as int] + 1) * 0xffff <= j * 0xffff) by (nonlinear_arith)
                        requires
                            pos@[a as int] + 1 <= j,
                    ;
                }
                if depth[a] + 1 > d {
                    d = depth[a] + 1;
                }
                if heavy[a] > s {
                    s = heavy[a];
                }
            }
            k = k + 1;
        }
        proof {
            assert((j + 1) * 0xffff == j * 0xffff + 0xffff) by (nonlinear_arith);
        }
        depth.set(v, d);
        heavy.set(v, w[v] as u64 + s);
        proof {
            assert forall|kk: int|
                0 <= kk < e.len() && pos@[(#[trigger] e[kk]).1 as int] < j + 1 implies depth@[e[kk].1 as int]
                    >= depth@[e[kk].0 as int] + 1 && heavy@[e[kk].1 as int] >= heavy@[e[kk].0 as int]
                    + w@[e[kk].1 as int] by {
                let b = e[kk].1;
                if b != v {
                    assert(pos@[b as int] < j);
                }
            }
            assert forall|x: int|
                0 <= x < n && pos@[x] < j + 1 implies (#[trigger] depth@[x] == 0 || exists|k: int|
                    0 <= k < e.len() && (#[trigger] e[k]).1 == x && pos@[e[k].0 as int] < pos@[x] && depth@[x]
                        == depth@[e[k].0 as int] + 1) by {
                if x == v as int {
                    if d != 0 {
                        let kk = choose|kk: int|
                            0 <= kk < e.len() && (#[trigger] e[kk]).1 == v && pos@[e[kk].0 as int] < j && d
                                == depth@[e[kk].0 as int] + 1;
                        assert(e[kk].0 != v);
                    }
                } else {
                    assert(pos@[x] < j);
                    if depth@[x] != 0 {
                        let kk = choose|kk: int|
                            0 <= kk < e.len() && (#[trigger] e[kk]).1 == x && pos@[e[kk].0 as int] < pos@[x] && depth@[x]
                                == depth@[e[kk].0 as int] + 1;
                        assert(e[kk].0 != v);
                    }
                }
            }
            assert forall|x: int|
                0 <= x < n && pos@[x] < j + 1 implies (#[trigger] heavy@[x] == w@[x] || exists|k: int|
                    0 <= k < e.len() && (#[trigger] e[k]).1 == x && pos@[e[k].0 as int] < pos@[x] && heavy@[x]
                        == heavy@[e[k].0 as int] + w@[x]) by {
                if x == v as int {
                    if s != 0 {
                        let kk = choose|kk: int|
                            0 <= kk < e.len() && (#[trigger] e[kk]).1 == v && pos@[e[kk].0 as int] < j && s
                                == heavy@[e[kk].0 as int];
                        assert(e[kk].0 != v);
                    }
                } else {
                    assert(pos@[x] < j);
                    if heavy@[x] != w@[x] {
                        let kk = choose|kk: int|
                            0 <= kk < e.len() && (#[trigger] e[kk]).1 == x && pos@[e[kk].0 as int] < pos@[x] && heavy@[x]
                                == heavy@[e[kk].0 as int] + w@[x];
                        assert(e[kk].0 != v);
                    }
                }
            }
        }
        j = j + 1;
    }
    proof {
        assert forall|v: int| 0 <= v < n implies longest_path_to(e, v as usize, depth@[v] as nat) && heaviest_path_to(
            e,
            w@,
            v as usize,
            heavy@[v] as nat,
        ) by {
            lemma_paths_exist(nn, e, w@, pos@, depth@, heavy@, v as usize);
            assert forall|p: Seq<usize>| #[trigger] is_path(e, p) && p.last() == v as usize implies p.len() - 1
                <= depth@[v] && path_weight(w@, p) <= heavy@[v] by {
                assert forall|i: int| 0 <= i < p.len() implies (#[trigger] p[i]) < heavy@.len() && p[i] < depth@.len() by {
                    if i < p.len() - 1 {
                        let k = choose|k: int| 0 <= k < e.len() && #[trigger] e[k] == (p[i], p[i + 1]);
                        assert(has_edge(e, p[i], p[i + 1]));
                    } else {
                        assert(p[i] == p.last());
                    }
                }
                lemma_paths_bounded(e, w@, depth@, heavy@, p);
            }
        }
    }
    (depth, heavy)
}

} // verus!
