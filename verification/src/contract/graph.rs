//! Acyclicity of provider dependency graphs.
//!
//! A graph is given by the child indices of each node. It is acyclic exactly
//! when it admits a ranking: a number per node that every edge strictly
//! decreases.
use vstd::prelude::*;

verus! {

/// The child lists as sequences.
pub open spec fn graph_view(children: Seq<Vec<usize>>) -> Seq<Seq<usize>> {
    children.map_values(|c: Vec<usize>| c@)
}

/// Every child index names a node.
pub open spec fn edges_in_range(g: Seq<Seq<usize>>) -> bool {
    forall|i: int, k: int| 0 <= i < g.len() && 0 <= k < g[i].len() ==> (#[trigger] g[i][k]) < g.len()
}

/// `rank` gives each node a number that every edge strictly decreases.
pub open spec fn is_ranking(g: Seq<Seq<usize>>, rank: Seq<nat>) -> bool {
    &&& rank.len() == g.len()
    &&& forall|i: int, k: int| 0 <= i < g.len() && 0 <= k < g[i].len() ==> rank[(#[trigger] g[i][k]) as int] < rank[i]
}

/// The graph has no cycle: it admits a ranking.
pub open spec fn acyclic(g: Seq<Seq<usize>>) -> bool {
    exists|rank: Seq<nat>| is_ranking(g, rank)
}

/// How many entries of `s` are true.
pub open spec fn count_true(s: Seq<bool>) -> nat
    decreases s.len(),
{
    if s.len() == 0 {
        0
    } else {
        count_true(s.drop_last()) + if s.last() {
            1nat
        } else {
            0nat
        }
    }
}

proof fn lemma_count_true_bound(s: Seq<bool>)
    ensures
        count_true(s) <= s.len(),
    decreases s.len(),
{
    if s.len() > 0 {
        lemma_count_true_bound(s.drop_last());
    }
}

proof fn lemma_count_true_set(s: Seq<bool>, i: int)
    requires
        0 <= i < s.len(),
        !s[i],
    ensures
        count_true(s.update(i, true)) == count_true(s) + 1,
    decreases s.len(),
{
    let t = s.update(i, true);
    if i == s.len() - 1 {
        assert(t.drop_last() =~= s.drop_last());
    } else {
        assert(t.drop_last() =~= s.drop_last().update(i, true));
        lemma_count_true_set(s.drop_last(), i);
    }
}

/// When every node of `undone` has a child in `undone`, no ranking leaves
/// any node of `undone` below `m`.
proof fn lemma_no_minimum(g: Seq<Seq<usize>>, rank: Seq<nat>, undone: Seq<bool>, m: nat)
    requires
        is_ranking(g, rank),
        edges_in_range(g),
        undone.len() == g.len(),
        forall|u: int| 0 <= u < g.len() && undone[u] ==> exists|k: int| 0 <= k < g[u].len() && #[trigger] undone[g[u][k] as int],
    ensures
        forall|u: int| 0 <= u < g.len() && undone[u] ==> rank[u] >= m,
    decreases m,
{
    if m > 0 {
        lemma_no_minimum(g, rank, undone, (m - 1) as nat);
        assert forall|u: int| 0 <= u < g.len() && undone[u] implies rank[u] >= m by {
            let k = choose|k: int| 0 <= k < g[u].len() && #[trigger] undone[g[u][k] as int];
            let c = g[u][k] as int;
            assert(0 <= c < g.len());
            assert(rank[c] < rank[u]);
        }
    }
}

/// Whether every child of `node` is done.
fn children_done(children: &Vec<usize>, done: &Vec<bool>) -> (out: bool)
    requires
        forall|k: int| 0 <= k < children@.len() ==> (#[trigger] children@[k]) < done@.len(),
    ensures
        out <==> forall|k: int| 0 <= k < children@.len() ==> done@[#[trigger] children@[k] as int],
{
    let mut k: usize = 0;
    while k < children.len()
        invariant
            k <= children@.len(),
            forall|j: int| 0 <= j < children@.len() ==> (#[trigger] children@[j]) < done@.len(),
            forall|j: int| 0 <= j < k ==> done@[#[trigger] children@[j] as int],
        decreases children@.len() - k,
    {
        if !done[children[k]] {
            assert(!done@[children@[k as int] as int]);
            return false;
        }
        k = k + 1;
    }
    true
}

/// The first node that no ranking can order, or `None` when the graph is
/// acyclic. Nodes are finished once all their children are; whatever stays
/// unfinished lies on or above a cycle.
pub fn first_unranked(children: &Vec<Vec<usize>>) -> (out: Option<usize>)
    requires
        edges_in_range(graph_view(children@)),
    ensures
        out is None <==> acyclic(graph_view(children@)),
        out matches Some(u) ==> u < children@.len() && on_cycle(graph_view(children@), u as int),
{
    let ghost g = graph_view(children@);
    let n = children.len();
    let mut done: Vec<bool> = Vec::new();
    let mut j: usize = 0;
    while j < n
        invariant
            j <= n,
            done@.len() == j,
            forall|x: int| 0 <= x < j ==> !done@[x],
        decreases n - j,
    {
        done.push(false);
        j = j + 1;
    }
    proof {
        assert(count_true(done@) == 0) by {
            lemma_all_false_count(done@);
        }
    }
    let ghost mut rank: Seq<nat> = Seq::new(n as nat, |x: int| 0nat);
    let mut count: usize = 0;
    let mut progress = true;
    while progress
        invariant
            n == children@.len(),
            g == graph_view(children@),
            edges_in_range(g),
            done@.len() == n,
            rank.len() == n,
            count == count_true(done@),
            forall|i: int| 0 <= i < n && done@[i] ==> rank[i] < count,
            forall|i: int, k: int|
                0 <= i < n && done@[i] && 0 <= k < g[i].len() ==> done@[(#[trigger] g[i][k]) as int] && rank[g[i][k] as int] < rank[i],
            !progress ==> forall|u: int| 0 <= u < n && !done@[u] ==> exists|k: int| 0 <= k < g[u].len() && !#[trigger] done@[g[u][k] as int],
        decreases 2 * (n - count) + if progress {
            1int
        } else {
            0int
        },
    {
        proof {
            lemma_count_true_bound(done@);
        }
        progress = false;
        let ghost count0 = count;
        let mut i: usize = 0;
        while i < n
            invariant
                n == children@.len(),
                g == graph_view(children@),
                edges_in_range(g),
                i <= n,
                done@.len() == n,
                rank.len() == n,
                count == count_true(done@),
                count >= count0,
                progress ==> count > count0,
                forall|x: int| 0 <= x < n && done@[x] ==> rank[x] < count,
                forall|x: int, k: int|
                    0 <= x < n && done@[x] && 0 <= k < g[x].len() ==> done@[(#[trigger] g[x][k]) as int] && rank[g[x][k] as int] < rank[x],
                !progress ==> forall|u: int| 0 <= u < i && !done@[u] ==> exists|k: int| 0 <= k < g[u].len() && !#[trigger] done@[g[u][k] as int],
            decreases n - i,
        {
            proof {
                assert(g[i as int] == children@[i as int]@);
                assert forall|k: int| 0 <= k < children@[i as int]@.len() implies (#[trigger] children@[i as int]@[k]) < done@.len() by {
                    assert(g[i as int][k] == children@[i as int]@[k]);
                }
            }
            if !done[i] {
                if children_done(&children[i], &done) {
                    proof {
                        lemma_count_true_set(done@, i as int);
                        lemma_count_true_bound(done@.update(i as int, true));
                        rank = rank.update(i as int, count as nat);
                    }
                    done.set(i, true);
                    count = count + 1;
                    progress = true;
                } else {
                    proof {
                        let k = choose|k: int| 0 <= k < children@[i as int]@.len() && !done@[children@[i as int]@[k] as int];
                        assert(g[i as int][k] == children@[i as int]@[k]);
                    }
                }
            }
            i = i + 1;
        }
        proof {
            lemma_count_true_bound(done@);
        }
    }
    let mut u: usize = 0;
    while u < n && done[u]
        invariant
            u <= n,
            done@.len() == n,
            forall|x: int| 0 <= x < u ==> done@[x],
        decreases n - u,
    {
        u = u + 1;
    }
    if u < n {
        proof {
            lemma_unfinished_blocks_ranking(g, done@, u as int);
        }
        return Some(first_repeat(children, &done, u));
    }
    proof {
        assert(is_ranking(g, rank));
    }
    None
}

/// Node `b` is a child of node `a`.
pub open spec fn has_edge(g: Seq<Seq<usize>>, a: int, b: int) -> bool {
    exists|k: int| 0 <= k < g[a].len() && g[a][k] == b
}

/// `w` is a walk of the graph: nodes in range, each a child of the one
/// before it.
pub open spec fn is_walk(g: Seq<Seq<usize>>, w: Seq<int>) -> bool {
    &&& forall|i: int| 0 <= i < w.len() ==> 0 <= #[trigger] w[i] < g.len()
    &&& forall|i: int| 0 <= i < w.len() - 1 ==> has_edge(g, #[trigger] w[i], w[i + 1])
}

/// Node `v` lies on a cycle: a walk of at least one edge leads from `v`
/// back to `v`.
pub open spec fn on_cycle(g: Seq<Seq<usize>>, v: int) -> bool {
    exists|w: Seq<int>| #[trigger] is_walk(g, w) && w.len() >= 2 && w[0] == v && w.last() == v
}

/// Walks from the unfinished node `start`, always to its first unfinished
/// child, and returns the first node the walk meets twice: a node on a cycle,
/// the one a depth-first search from `start` would report.
fn first_repeat(children: &Vec<Vec<usize>>, done: &Vec<bool>, start: usize) -> (out: usize)
    requires
        edges_in_range(graph_view(children@)),
        done@.len() == children@.len(),
        start < children@.len(),
        !done@[start as int],
        forall|x: int| 0 <= x < children@.len() && !done@[x] ==> exists|k: int|
            0 <= k < graph_view(children@)[x].len() && !#[trigger] done@[graph_view(children@)[x][k] as int],
    ensures
        out < children@.len(),
        on_cycle(graph_view(children@), out as int),
{
    let ghost g = graph_view(children@);
    let n = children.len();
    let mut on_path: Vec<bool> = Vec::new();
    let mut j: usize = 0;
    while j < n
        invariant
            j <= n,
            on_path@.len() == j,
            forall|x: int| 0 <= x < j ==> !on_path@[x],
        decreases n - j,
    {
        on_path.push(false);
        j = j + 1;
    }
    proof {
        lemma_all_false_count(on_path@);
    }
    let mut current = start;
    let ghost mut path: Seq<int> = Seq::empty();
    loop
        invariant
            is_walk(graph_view(children@), path.push(current as int)),
            forall|x: int| 0 <= x < n ==> (on_path@[x] <==> path.contains(x)),
            n == children@.len(),
            g == graph_view(children@),
            edges_in_range(g),
            done@.len() == n,
            on_path@.len() == n,
            current < n,
            !done@[current as int],
            count_true(on_path@) <= n,
            forall|x: int| 0 <= x < n && !done@[x] ==> exists|k: int| 0 <= k < g[x].len() && !#[trigger] done@[g[x][k] as int],
        decreases n - count_true(on_path@),
    {
        if on_path[current] {
            proof {
                let full = path.push(current as int);
                assert(path.contains(current as int));
                let i = choose|i: int| 0 <= i < path.len() && path[i] == current as int;
                let w = full.subrange(i, full.len() as int);
                assert forall|t: int| 0 <= t < w.len() implies 0 <= #[trigger] w[t] < g.len() by {
                    assert(w[t] == full[i + t]);
                }
                assert forall|t: int| 0 <= t < w.len() - 1 implies has_edge(g, #[trigger] w[t], w[t + 1]) by {
                    assert(w[t] == full[i + t]);
                    assert(w[t + 1] == full[i + t + 1]);
                }
                assert(is_walk(g, w));
                assert(w[0] == current as int);
                assert(w.last() == current as int);
            }
            return current;
        }
        proof {
            lemma_count_true_set(on_path@, current as int);
            lemma_count_true_bound(on_path@.update(current as int, true));
        }
        on_path.set(current, true);
        let row = &children[current];
        assert(row@ == g[current as int]);
        let mut k: usize = 0;
        while k < row.len() && done[row[k]]
            invariant
                k <= row@.len(),
                row@ == g[current as int],
                current < n,
                done@.len() == n,
                edges_in_range(g),
                g.len() == n,
                forall|m: int| 0 <= m < k ==> done@[#[trigger] row@[m] as int],
            decreases row@.len() - k,
        {
            k = k + 1;
        }
        if k == row.len() {
            proof {
                let w = choose|w: int| 0 <= w < g[current as int].len() && !#[trigger] done@[g[current as int][w] as int];
                assert(done@[row@[w] as int]);
            }
            return current;
        }
        proof {
            let next = row@[k as int] as int;
            let old_full = path.push(current as int);
            assert(has_edge(g, current as int, next));
            let old_path = path;
            path = old_full;
            let full = path.push(next);
            assert forall|x: int| 0 <= x < n implies (on_path@[x] <==> path.contains(x)) by {
                if x == current as int {
                    assert(path[old_path.len() as int] == x);
                } else {
                    if path.contains(x) {
                        let j = choose|j: int| 0 <= j < path.len() && path[j] == x;
                        assert(j < old_path.len());
                        assert(old_path[j] == x);
                    }
                    if old_path.contains(x) {
                        let j = choose|j: int| 0 <= j < old_path.len() && old_path[j] == x;
                        assert(path[j] == x);
                    }
                }
            }
            assert forall|t: int| 0 <= t < full.len() implies 0 <= #[trigger] full[t] < g.len() by {
                if t < old_full.len() {
                    assert(full[t] == old_full[t]);
                }
            }
            assert forall|t: int| 0 <= t < full.len() - 1 implies has_edge(g, #[trigger] full[t], full[t + 1]) by {
                if t < old_full.len() - 1 {
                    assert(full[t] == old_full[t]);
                    assert(full[t + 1] == old_full[t + 1]);
                }
            }
        }
        current = row[k];
    }
}

/// When every unfinished node has an unfinished child, the graph has no
/// ranking, so an unfinished node witnesses a cycle.
proof fn lemma_unfinished_blocks_ranking(g: Seq<Seq<usize>>, done: Seq<bool>, u: int)
    requires
        edges_in_range(g),
        done.len() == g.len(),
        0 <= u < g.len(),
        !done[u],
        forall|x: int| 0 <= x < g.len() && !done[x] ==> exists|k: int| 0 <= k < g[x].len() && !#[trigger] done[g[x][k] as int],
    ensures
        !acyclic(g),
{
    if acyclic(g) {
        let r = choose|r: Seq<nat>| is_ranking(g, r);
        let undone = done.map_values(|b: bool| !b);
        assert forall|x: int| 0 <= x < g.len() && undone[x] implies exists|k: int|
            0 <= k < g[x].len() && #[trigger] undone[g[x][k] as int] by {
            let k = choose|k: int| 0 <= k < g[x].len() && !#[trigger] done[g[x][k] as int];
            assert(undone[g[x][k] as int]);
        }
        lemma_no_minimum(g, r, undone, r[u] + 1);
        assert(undone[u]);
    }
}

proof fn lemma_all_false_count(s: Seq<bool>)
    requires
        forall|x: int| 0 <= x < s.len() ==> !s[x],
    ensures
        count_true(s) == 0,
    decreases s.len(),
{
    if s.len() > 0 {
        lemma_all_false_count(s.drop_last());
    }
}

} // verus!
