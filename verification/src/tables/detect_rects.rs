//! Union-find over rectangle indices, used to cluster touching rectangles
//! into table regions, and the test that a cell grid is a real table.

use vstd::prelude::*;

use crate::tables::{grid_size_ok, has_valid_grid, valid_grid};

verus! {

// ── Union-find ─────────────────────────────────────────────────────

/// `parent` and `rank` describe a union-find forest: every parent is an
/// index, and the rank grows strictly from a node to its parent.
pub open spec fn uf_wf(parent: Seq<usize>, rank: Seq<usize>) -> bool {
    &&& parent.len() == rank.len()
    &&& forall|i: int| 0 <= i < parent.len() ==> #[trigger] parent[i] < parent.len()
    &&& forall|i: int|
        0 <= i < parent.len() && #[trigger] parent[i] != i ==> rank[i] < rank[parent[i] as int]
}

/// Some ranks make `parent` a union-find forest.
pub open spec fn uf_forest(parent: Seq<usize>) -> bool {
    exists|rank: Seq<usize>| uf_wf(parent, rank)
}

/// The root reached from `i` by following parents while the rank grows.
pub open spec fn root_of(parent: Seq<usize>, rank: Seq<usize>, i: int) -> int
    decreases usize::MAX - rank[i],
{
    if 0 <= i < parent.len() && i < rank.len() && parent[i] != i && parent[i] < parent.len()
        && parent[i] < rank.len() && rank[i] < rank[parent[i] as int] {
        root_of(parent, rank, parent[i] as int)
    } else {
        i
    }
}

/// The representative of `i`'s class: the root of its tree.
pub open spec fn uf_root(parent: Seq<usize>, i: int) -> int {
    root_of(parent, choose|rank: Seq<usize>| uf_wf(parent, rank), i)
}

proof fn lemma_root_of_is_root(parent: Seq<usize>, rank: Seq<usize>, i: int)
    requires
        uf_wf(parent, rank),
        0 <= i < parent.len(),
    ensures
        0 <= root_of(parent, rank, i) < parent.len(),
        parent[root_of(parent, rank, i)] == root_of(parent, rank, i),
        rank[i] <= rank[root_of(parent, rank, i)],
    decreases usize::MAX - rank[i],
{
    if parent[i] != i {
        lemma_root_of_is_root(parent, rank, parent[i] as int);
    }
}

/// The root does not depend on which ranks witness the forest.
proof fn lemma_root_of_rank_free(parent: Seq<usize>, r1: Seq<usize>, r2: Seq<usize>, i: int)
    requires
        uf_wf(parent, r1),
        uf_wf(parent, r2),
        0 <= i < parent.len(),
    ensures
        root_of(parent, r1, i) == root_of(parent, r2, i),
    decreases usize::MAX - r1[i],
{
    if parent[i] != i {
        lemma_root_of_rank_free(parent, r1, r2, parent[i] as int);
    }
}

/// `uf_root` agrees with the root under any witnessing ranks.
pub proof fn lemma_uf_root(parent: Seq<usize>, rank: Seq<usize>, i: int)
    requires
        uf_wf(parent, rank),
        0 <= i < parent.len(),
    ensures
        uf_root(parent, i) == root_of(parent, rank, i),
        0 <= uf_root(parent, i) < parent.len(),
        parent[uf_root(parent, i)] == uf_root(parent, i),
{
    let r = choose|r: Seq<usize>| uf_wf(parent, r);
    lemma_root_of_rank_free(parent, r, rank, i);
    lemma_root_of_is_root(parent, rank, i);
}

/// Pointing `i` at its grandparent keeps the forest and every root.
proof fn lemma_halve(parent: Seq<usize>, rank: Seq<usize>, i: int, x: int)
    requires
        uf_wf(parent, rank),
        0 <= i < parent.len(),
        0 <= x < parent.len(),
    ensures
        uf_wf(parent.update(i, parent[parent[i] as int]), rank),
        root_of(parent.update(i, parent[parent[i] as int]), rank, x) == root_of(parent, rank, x),
    decreases usize::MAX - rank[x],
{
    let p2 = parent.update(i, parent[parent[i] as int]);
    assert forall|j: int| 0 <= j < p2.len() && #[trigger] p2[j] != j implies rank[j] < rank[p2[j] as int] by {
        if j == i {
            let pi = parent[i] as int;
            if parent[pi] as int != pi {
                assert(rank[pi] < rank[parent[pi] as int]);
            }
        }
    }
    assert forall|j: int| 0 <= j < p2.len() implies #[trigger] p2[j] < p2.len() by {}
    if parent[x] as int != x {
        lemma_halve(parent, rank, i, parent[x] as int);
        if x == i {
            let pi = parent[i] as int;
            if parent[pi] as int != pi {
                lemma_halve(parent, rank, i, parent[pi] as int);
            }
        }
    }
}

/// Union-find: find with path halving.
pub fn find(parent: &mut [usize], i: usize) -> (r: usize)
    requires
        uf_forest(old(parent)@),
        i < old(parent)@.len(),
    ensures
        final(parent)@.len() == old(parent)@.len(),
        r == uf_root(old(parent)@, i as int),
        forall|rank: Seq<usize>| uf_wf(old(parent)@, rank) ==> uf_wf(final(parent)@, rank),
        forall|x: int|
            0 <= x < old(parent)@.len() ==> #[trigger] uf_root(final(parent)@, x) == uf_root(
                old(parent)@,
                x,
            ),
{
    let ghost rank = choose|rank: Seq<usize>| uf_wf(old(parent)@, rank);
    let ghost start = i;
    let mut i = i;
    while parent[i] != i
        invariant
            uf_wf(parent@, rank),
            parent@.len() == old(parent)@.len(),
            i < parent@.len(),
            root_of(parent@, rank, i as int) == root_of(old(parent)@, rank, start as int),
            forall|r: Seq<usize>| uf_wf(old(parent)@, r) ==> uf_wf(parent@, r),
            forall|x: int|
                0 <= x < parent@.len() ==> #[trigger] root_of(parent@, rank, x) == root_of(
                    old(parent)@,
                    rank,
                    x,
                ),
        decreases usize::MAX - rank[i as int],
    {
        let ghost before = parent@;
        let gp = parent[parent[i]];
        proof {
            assert forall|x: int| 0 <= x < before.len() implies #[trigger] root_of(
                before.update(i as int, gp),
                rank,
                x,
            ) == root_of(before, rank, x) by {
                lemma_halve(before, rank, i as int, x);
            }
            assert forall|r: Seq<usize>| uf_wf(before, r) implies uf_wf(
                before.update(i as int, gp),
                r,
            ) by {
                lemma_halve(before, r, i as int, i as int);
            }
            lemma_halve(before, rank, i as int, i as int);
        }
        parent[i] = gp;
        assert(parent@ == before.update(i as int, gp));
        proof {
            let pi = before[i as int] as int;
            if before[pi] as int != pi {
                assert(rank[pi] < rank[before[pi] as int]);
            }
        }
        i = gp;
    }
    proof {
        lemma_uf_root(old(parent)@, rank, start as int);
        assert forall|x: int| 0 <= x < old(parent)@.len() implies #[trigger] uf_root(
            parent@,
            x,
        ) == uf_root(old(parent)@, x) by {
            lemma_uf_root(old(parent)@, rank, x);
            lemma_uf_root(parent@, rank, x);
        }
    }
    i
}

/// Hanging root `u` under root `w` sends `u`'s class to `w` and keeps the
/// other roots.
proof fn lemma_link(
    parent: Seq<usize>,
    rank: Seq<usize>,
    new_rank: Seq<usize>,
    u: usize,
    w: usize,
    x: int,
)
    requires
        uf_wf(parent, rank),
        uf_wf(parent.update(u as int, w), new_rank),
        u < parent.len(),
        w < parent.len(),
        u != w,
        parent[u as int] == u,
        parent[w as int] == w,
        0 <= x < parent.len(),
    ensures
        root_of(parent.update(u as int, w), new_rank, x) == if root_of(parent, rank, x) == u {
            w as int
        } else {
            root_of(parent, rank, x)
        },
    decreases usize::MAX - rank[x],
{
    let p2 = parent.update(u as int, w);
    if parent[x] as int == x {
        if x == u as int {
            assert(p2[w as int] == w);
            assert(p2[x] != x);
            assert(new_rank[x] < new_rank[p2[x] as int]);
            assert(root_of(p2, new_rank, w as int) == w as int);
        } else {
            assert(p2[x] == x);
        }
    } else {
        assert(x != u as int);
        assert(p2[x] == parent[x]);
        assert(new_rank[x] < new_rank[p2[x] as int]);
        lemma_link(parent, rank, new_rank, u, w, parent[x] as int);
    }
}

/// The root that the classes of roots `ra` and `rb` share after their
/// union: the one of higher rank, or `ra` on a tie.
pub open spec fn merged_root(rank: Seq<usize>, ra: int, rb: int) -> int {
    if rank[ra] < rank[rb] {
        rb
    } else {
        ra
    }
}

/// Union-find: union by rank.
pub fn union(parent: &mut [usize], rank: &mut [usize], a: usize, b: usize)
    requires
        uf_wf(old(parent)@, old(rank)@),
        a < old(parent)@.len(),
        b < old(parent)@.len(),
        forall|i: int| 0 <= i < old(rank)@.len() ==> #[trigger] old(rank)@[i] < usize::MAX,
    ensures
        final(parent)@.len() == old(parent)@.len(),
        uf_wf(final(parent)@, final(rank)@),
        uf_root(final(parent)@, a as int) == uf_root(final(parent)@, b as int),
        ({
            let ra = uf_root(old(parent)@, a as int);
            let rb = uf_root(old(parent)@, b as int);
            let m = merged_root(old(rank)@, ra, rb);
            &&& final(rank)@ == if ra != rb && old(rank)@[ra] == old(rank)@[rb] {
                old(rank)@.update(ra, (old(rank)@[ra] + 1) as usize)
            } else {
                old(rank)@
            }
            &&& forall|x: int|
                0 <= x < old(parent)@.len() ==> #[trigger] uf_root(final(parent)@, x) == if ra
                    != rb && (uf_root(old(parent)@, x) == ra || uf_root(old(parent)@, x) == rb) {
                    m
                } else {
                    uf_root(old(parent)@, x)
                }
        }),
{
    proof {
        assert(uf_forest(old(parent)@));
    }
    let ra = find(parent, a);
    let ghost p1 = parent@;
    proof {
        assert(uf_forest(p1));
    }
    let rb = find(parent, b);
    let ghost p2 = parent@;
    proof {
        lemma_uf_root(old(parent)@, old(rank)@, a as int);
        lemma_uf_root(old(parent)@, old(rank)@, b as int);
        assert(uf_wf(p2, old(rank)@));
        assert(uf_root(p2, ra as int) == uf_root(old(parent)@, ra as int));
        lemma_uf_root(old(parent)@, old(rank)@, ra as int);
        lemma_uf_root(p2, old(rank)@, ra as int);
        lemma_uf_root(p2, old(rank)@, rb as int);
        assert(p2[ra as int] == ra);
        assert(uf_root(p2, rb as int) == uf_root(old(parent)@, rb as int));
        lemma_uf_root(old(parent)@, old(rank)@, rb as int);
        assert(p2[rb as int] == rb);
        assert forall|x: int| 0 <= x < p2.len() implies #[trigger] uf_root(p2, x) == uf_root(
            old(parent)@,
            x,
        ) by {}
    }
    if ra == rb {
        return ;
    }
    let ghost r0 = rank@;
    if rank[ra] < rank[rb] {
        parent[ra] = rb;
        proof {
            let p3 = p2.update(ra as int, rb);
            assert(parent@ == p3);
            assert forall|x: int| 0 <= x < p3.len() implies #[trigger] p3[x] < p3.len() by {}
            assert forall|x: int| 0 <= x < p3.len() && #[trigger] p3[x] != x implies r0[x]
                < r0[p3[x] as int] by {}
            assert forall|x: int| 0 <= x < p3.len() implies #[trigger] uf_root(p3, x) == if uf_root(
                old(parent)@,
                x,
            ) == ra || uf_root(old(parent)@, x) == rb {
                merged_root(r0, ra as int, rb as int)
            } else {
                uf_root(old(parent)@, x)
            } by {
                lemma_link(p2, r0, r0, ra, rb, x);
                lemma_uf_root(p2, r0, x);
                lemma_uf_root(p3, r0, x);
            }
        }
    } else if rank[ra] > rank[rb] {
        parent[rb] = ra;
        proof {
            let p3 = p2.update(rb as int, ra);
            assert(parent@ == p3);
            assert forall|x: int| 0 <= x < p3.len() implies #[trigger] p3[x] < p3.len() by {}
            assert forall|x: int| 0 <= x < p3.len() && #[trigger] p3[x] != x implies r0[x]
                < r0[p3[x] as int] by {}
            assert forall|x: int| 0 <= x < p3.len() implies #[trigger] uf_root(p3, x) == if uf_root(
                old(parent)@,
                x,
            ) == ra || uf_root(old(parent)@, x) == rb {
                merged_root(r0, ra as int, rb as int)
            } else {
                uf_root(old(parent)@, x)
            } by {
                lemma_link(p2, r0, r0, rb, ra, x);
                lemma_uf_root(p2, r0, x);
                lemma_uf_root(p3, r0, x);
            }
        }
    } else {
        parent[rb] = ra;
        let bumped = rank[ra] + 1;
        rank[ra] = bumped;
        proof {
            let p3 = p2.update(rb as int, ra);
            let r3 = r0.update(ra as int, bumped);
            assert(parent@ == p3);
            assert(rank@ == r3);
            assert forall|x: int| 0 <= x < p3.len() implies #[trigger] p3[x] < p3.len() by {}
            assert forall|x: int| 0 <= x < p3.len() && #[trigger] p3[x] != x implies r3[x]
                < r3[p3[x] as int] by {
                if x != rb as int {
                    assert(p2[x] != x);
                    assert(r0[x] < r0[p2[x] as int]);
                }
            }
            assert(uf_wf(p3, r3));
            assert forall|x: int| 0 <= x < p3.len() implies #[trigger] uf_root(p3, x) == if uf_root(
                old(parent)@,
                x,
            ) == ra || uf_root(old(parent)@, x) == rb {
                merged_root(r0, ra as int, rb as int)
            } else {
                uf_root(old(parent)@, x)
            } by {
                lemma_link(p2, r0, r3, rb, ra, x);
                lemma_uf_root(p2, r0, x);
                lemma_uf_root(p3, r3, x);
            }
        }
    }
}

// ── Clustering ─────────────────────────────────────────────────────

/// The index lists as plain sequences.
pub open spec fn group_views(groups: Seq<Vec<usize>>) -> Seq<Seq<usize>> {
    Seq::new(groups.len(), |g: int| groups[g]@)
}

/// Some group holds index `i`.
pub open spec fn in_some_group(groups: Seq<Seq<usize>>, i: usize) -> bool {
    exists|g: int| 0 <= g < groups.len() && #[trigger] groups[g].contains(i)
}

/// `groups` splits the indices `0..n`: every group is non-empty and
/// strictly ascending, and each index is in exactly one group.
pub open spec fn partitions(groups: Seq<Seq<usize>>, n: nat) -> bool {
    &&& forall|g: int| 0 <= g < groups.len() ==> #[trigger] groups[g].len() > 0
    &&& forall|g: int, m: int|
        0 <= g < groups.len() && 0 <= m < groups[g].len() ==> #[trigger] groups[g][m] < n
    &&& forall|g: int, m1: int, m2: int|
        0 <= g < groups.len() && 0 <= m1 < m2 < groups[g].len() ==> #[trigger] groups[g][m1]
            < #[trigger] groups[g][m2]
    &&& forall|i: usize| i < n ==> #[trigger] in_some_group(groups, i)
    &&& forall|i: usize, g1: int, g2: int|
        0 <= g1 < groups.len() && 0 <= g2 < groups.len() && #[trigger] groups[g1].contains(i)
            && #[trigger] groups[g2].contains(i) ==> g1 == g2
}

/// Some index before `i` has root `rt`.
pub open spec fn root_seen(roots: Seq<usize>, i: int, rt: usize) -> bool {
    exists|j: int| 0 <= j < i && #[trigger] roots[j] == rt
}

/// Every index with root `b` comes after some index with root `a`.
pub open spec fn comes_before(roots: Seq<usize>, a: usize, b: usize) -> bool {
    forall|j: int| 0 <= j < roots.len() && #[trigger] roots[j] == b ==> root_seen(roots, j, a)
}

/// Indices `i` and `j` are joined by a chain of the first `k` adjacent
/// pairs.
pub open spec fn linked(adj: Seq<(usize, usize)>, k: nat, i: int, j: int) -> bool
    decreases k,
{
    if k == 0 {
        i == j
    } else {
        let a = adj[k - 1].0 as int;
        let b = adj[k - 1].1 as int;
        ||| linked(adj, (k - 1) as nat, i, j)
        ||| linked(adj, (k - 1) as nat, i, a) && linked(adj, (k - 1) as nat, b, j)
        ||| linked(adj, (k - 1) as nat, i, b) && linked(adj, (k - 1) as nat, a, j)
    }
}

/// Two indices below `n` share a root exactly when the first `k` adjacent
/// pairs join them.
pub open spec fn roots_follow_links(
    parent: Seq<usize>,
    adj: Seq<(usize, usize)>,
    k: nat,
    n: int,
) -> bool {
    forall|x: int, y: int|
        0 <= x < n && 0 <= y < n ==> (uf_root(parent, x) == uf_root(parent, y)
            <==> #[trigger] linked(adj, k, x, y))
}

/// Some group holds both `i` and `j`.
pub open spec fn same_group(groups: Seq<Seq<usize>>, i: usize, j: usize) -> bool {
    exists|g: int| 0 <= g < groups.len() && groups[g].contains(i) && groups[g].contains(j)
}

/// The indices `i < n` whose root is `root`, ascending.
fn members(roots: &Vec<usize>, root: usize) -> (r: Vec<usize>)
    ensures
        forall|m: int| 0 <= m < r@.len() ==> #[trigger] r@[m] < roots@.len() && roots@[r@[m] as int] == root,
        forall|m1: int, m2: int| 0 <= m1 < m2 < r@.len() ==> #[trigger] r@[m1] < #[trigger] r@[m2],
        forall|i: int| 0 <= i < roots@.len() && roots@[i] == root ==> r@.contains(i as usize),
{
    let mut out: Vec<usize> = Vec::new();
    let mut i: usize = 0;
    while i < roots.len()
        invariant
            i <= roots@.len(),
            forall|m: int| 0 <= m < out@.len() ==> #[trigger] out@[m] < i && roots@[out@[m] as int] == root,
            forall|m1: int, m2: int| 0 <= m1 < m2 < out@.len() ==> #[trigger] out@[m1] < #[trigger] out@[m2],
            forall|j: int| 0 <= j < i && roots@[j] == root ==> out@.contains(j as usize),
        decreases roots@.len() - i,
    {
        if roots[i] == root {
            let ghost before = out@;
            out.push(i);
            proof {
                assert forall|j: int| 0 <= j < i + 1 && roots@[j] == root implies out@.contains(
                    j as usize,
                ) by {
                    if j < i {
                        let m = choose|m: int| 0 <= m < before.len() && before[m] == j as usize;
                        assert(out@[m] == j as usize);
                    } else {
                        assert(out@[out@.len() - 1] == i);
                    }
                }
            }
        } else {
            proof {
                assert forall|j: int| 0 <= j < i + 1 && roots@[j] == root implies out@.contains(
                    j as usize,
                ) by {}
            }
        }
        i += 1;
    }
    out
}

/// Cluster rectangles that touch: `n` rectangles, and the pairs of them
/// that are adjacent (in the order they are found). Each cluster lists
/// rectangle indices in ascending order; clusters come in the order of
/// their first rectangle. Every rectangle is in exactly one cluster, and
/// two rectangles share a cluster exactly when a chain of adjacent pairs
/// joins them.
pub fn cluster_rects(n: usize, adjacent: &[(usize, usize)]) -> (r: Vec<Vec<usize>>)
    requires
        forall|k: int| 0 <= k < adjacent@.len() ==> #[trigger] adjacent@[k].0 < n && adjacent@[k].1 < n,
    ensures
        partitions(group_views(r@), n as nat),
        forall|k: int, g: int|
            0 <= k < adjacent@.len() && 0 <= g < r@.len() ==> (r@[g]@.contains(
                #[trigger] adjacent@[k].0,
            ) <==> #[trigger] r@[g]@.contains(adjacent@[k].1)),
        forall|i: usize, j: usize|
            i < n && j < n ==> (#[trigger] same_group(group_views(r@), i, j) <==> linked(
                adjacent@,
                adjacent@.len() as nat,
                i as int,
                j as int,
            )),
        forall|g1: int, g2: int| 0 <= g1 < g2 < r@.len() ==> #[trigger] r@[g1]@[0] < #[trigger] r@[g2]@[0],
{
    let mut parent: Vec<usize> = Vec::new();
    let mut rank: Vec<usize> = Vec::new();
    let mut i: usize = 0;
    while i < n
        invariant
            i <= n,
            parent@.len() == i,
            rank@.len() == i,
            forall|j: int| 0 <= j < i ==> #[trigger] parent@[j] == j,
            forall|j: int| 0 <= j < i ==> #[trigger] rank@[j] == 0,
        decreases n - i,
    {
        parent.push(i);
        rank.push(0);
        i += 1;
    }
    proof {
        assert forall|x: int, y: int| 0 <= x < n && 0 <= y < n implies (uf_root(parent@, x)
            == uf_root(parent@, y) <==> #[trigger] linked(adjacent@, 0, x, y)) by {
            lemma_uf_root(parent@, rank@, x);
            lemma_uf_root(parent@, rank@, y);
        }
        assert(roots_follow_links(parent@, adjacent@, 0, n as int));
    }
    // Union the adjacent pairs.
    let mut k: usize = 0;
    while k < adjacent.len()
        invariant
            k <= adjacent@.len(),
            parent@.len() == n,
            uf_wf(parent@, rank@),
            forall|j: int| 0 <= j < rank@.len() ==> #[trigger] rank@[j] <= k,
            forall|q: int| 0 <= q < adjacent@.len() ==> #[trigger] adjacent@[q].0 < n && adjacent@[q].1 < n,
            forall|q: int|
                0 <= q < k ==> uf_root(parent@, #[trigger] adjacent@[q].0 as int) == uf_root(
                    parent@,
                    adjacent@[q].1 as int,
                ),
            roots_follow_links(parent@, adjacent@, k as nat, n as int),
        decreases adjacent@.len() - k,
    {
        let (a, b) = adjacent[k];
        let ghost p0 = parent@;
        let ghost r0 = rank@;
        assert(forall|j: int| 0 <= j < r0.len() ==> r0[j] <= k);
        assert(adjacent@[k as int].0 < n && adjacent@[k as int].1 < n);
        union(&mut parent, &mut rank, a, b);
        proof {
            lemma_uf_root(p0, r0, a as int);
            lemma_uf_root(p0, r0, b as int);
            assert forall|j: int| 0 <= j < rank@.len() implies #[trigger] rank@[j] <= k + 1 by {
                assert(r0[j] <= k);
            }
            assert forall|q: int| 0 <= q < k + 1 implies uf_root(
                parent@,
                #[trigger] adjacent@[q].0 as int,
            ) == uf_root(parent@, adjacent@[q].1 as int) by {
                if q < k {
                    let x = adjacent@[q].0 as int;
                    let y = adjacent@[q].1 as int;
                    assert(uf_root(p0, x) == uf_root(p0, y));
                }
            }
        }
        let ghost k0 = k as nat;
        k += 1;
        proof {
            let aa = a as int;
            let bb = b as int;
            assert(adjacent@[k - 1].0 == a && adjacent@[k - 1].1 == b);
            assert forall|x: int, y: int| 0 <= x < n && 0 <= y < n implies (uf_root(parent@, x)
                == uf_root(parent@, y) <==> #[trigger] linked(adjacent@, k as nat, x, y)) by {
                assert(linked(adjacent@, k0, x, y) <==> uf_root(p0, x) == uf_root(p0, y));
                assert(linked(adjacent@, k0, x, aa) <==> uf_root(p0, x) == uf_root(p0, aa));
                assert(linked(adjacent@, k0, x, bb) <==> uf_root(p0, x) == uf_root(p0, bb));
                assert(linked(adjacent@, k0, aa, y) <==> uf_root(p0, aa) == uf_root(p0, y));
                assert(linked(adjacent@, k0, bb, y) <==> uf_root(p0, bb) == uf_root(p0, y));
                assert(uf_root(parent@, x) == uf_root(parent@, x));
                assert(uf_root(parent@, y) == uf_root(parent@, y));
            }
        }
    }
    // The root of every rectangle.
    let ghost pu = parent@;
    assert(roots_follow_links(pu, adjacent@, adjacent@.len() as nat, n as int));
    let mut roots: Vec<usize> = Vec::new();
    let mut i: usize = 0;
    while i < n
        invariant
            i <= n,
            parent@.len() == n,
            pu.len() == n,
            uf_wf(parent@, rank@),
            roots@.len() == i,
            forall|j: int| 0 <= j < i ==> #[trigger] roots@[j] == uf_root(pu, j),
            forall|x: int| 0 <= x < n ==> #[trigger] uf_root(parent@, x) == uf_root(pu, x),
            roots_follow_links(pu, adjacent@, adjacent@.len() as nat, n as int),
        decreases n - i,
    {
        assert(uf_forest(parent@));
        let ghost before = parent@;
        let rt = find(parent.as_mut_slice(), i);
        proof {
            assert forall|x: int| 0 <= x < n implies #[trigger] uf_root(parent@, x) == uf_root(pu, x) by {
                assert(uf_root(parent@, x) == uf_root(before, x));
            }
        }
        roots.push(rt);
        i += 1;
    }
    // The distinct roots, in order of first appearance.
    let mut reps: Vec<usize> = Vec::new();
    let mut i: usize = 0;
    while i < n
        invariant
            i <= n,
            roots@.len() == n,
            forall|g1: int, g2: int| 0 <= g1 < g2 < reps@.len() ==> #[trigger] reps@[g1] != #[trigger] reps@[g2],
            forall|j: int| 0 <= j < i ==> reps@.contains(#[trigger] roots@[j]),
            forall|g: int| 0 <= g < reps@.len() ==> #[trigger] root_seen(roots@, i as int, reps@[g]),
            forall|g1: int, g2: int|
                0 <= g1 < g2 < reps@.len() ==> #[trigger] comes_before(roots@, reps@[g1], reps@[g2]),
        decreases n - i,
    {
        let rt = roots[i];
        let mut g: usize = 0;
        let mut found = false;
        while g < reps.len()
            invariant
                g <= reps@.len(),
                found ==> reps@.contains(rt),
                !found ==> forall|h: int| 0 <= h < g ==> reps@[h] != rt,
            decreases reps@.len() - g,
        {
            if reps[g] == rt {
                found = true;
            }
            g += 1;
        }
        if !found {
            let ghost before = reps@;
            reps.push(rt);
            proof {
                assert forall|g1: int, g2: int| 0 <= g1 < g2 < reps@.len() implies #[trigger] comes_before(
                    roots@,
                    reps@[g1],
                    reps@[g2],
                ) by {
                    if g2 == reps@.len() - 1 {
                        assert(root_seen(roots@, i as int, before[g1]));
                        let w = choose|w: int| 0 <= w < i && #[trigger] roots@[w] == before[g1];
                        assert forall|j: int| 0 <= j < roots@.len() && #[trigger] roots@[j] == rt implies root_seen(
                            roots@,
                            j,
                            reps@[g1],
                        ) by {
                            if j < i {
                                assert(reps@.contains(roots@[j]) || before.contains(roots@[j]));
                                assert(before.contains(roots@[j]));
                                let h = choose|h: int| 0 <= h < before.len() && before[h] == roots@[j];
                                assert(before[h] != rt);
                            }
                            assert(roots@[w] == reps@[g1]);
                        }
                    } else {
                        assert(comes_before(roots@, before[g1], before[g2]));
                    }
                }
                assert forall|j: int| 0 <= j < i + 1 implies reps@.contains(#[trigger] roots@[j]) by {
                    if j < i {
                        let h = choose|h: int| 0 <= h < before.len() && before[h] == roots@[j];
                        assert(reps@[h] == roots@[j]);
                    } else {
                        assert(reps@[reps@.len() - 1] == rt);
                    }
                }
                assert forall|g: int| 0 <= g < reps@.len() implies #[trigger] root_seen(
                    roots@,
                    i + 1,
                    reps@[g],
                ) by {
                    if g == reps@.len() - 1 {
                        assert(roots@[i as int] == reps@[g]);
                    } else {
                        assert(root_seen(roots@, i as int, before[g]));
                        let j = choose|j: int| 0 <= j < i && #[trigger] roots@[j] == before[g];
                        assert(roots@[j] == reps@[g]);
                    }
                }
            }
        } else {
            proof {
                assert forall|g: int| 0 <= g < reps@.len() implies #[trigger] root_seen(
                    roots@,
                    i + 1,
                    reps@[g],
                ) by {
                    assert(root_seen(roots@, i as int, reps@[g]));
                    let j = choose|j: int| 0 <= j < i && #[trigger] roots@[j] == reps@[g];
                    assert(roots@[j] == reps@[g]);
                }
            }
        }
        i += 1;
    }
    // One cluster per root.
    let mut clusters: Vec<Vec<usize>> = Vec::new();
    let mut g: usize = 0;
    while g < reps.len()
        invariant
            g <= reps@.len(),
            clusters@.len() == g,
            roots@.len() == n,
            forall|h: int, m: int|
                0 <= h < g && 0 <= m < clusters@[h]@.len() ==> #[trigger] clusters@[h]@[m] < n
                    && roots@[clusters@[h]@[m] as int] == reps@[h],
            forall|h: int, m1: int, m2: int|
                0 <= h < g && 0 <= m1 < m2 < clusters@[h]@.len() ==> #[trigger] clusters@[h]@[m1]
                    < #[trigger] clusters@[h]@[m2],
            forall|h: int, j: int|
                0 <= h < g && 0 <= j < n && roots@[j] == reps@[h] ==> #[trigger] clusters@[h]@.contains(
                    j as usize,
                ),
        decreases reps@.len() - g,
    {
        let c = members(&roots, reps[g]);
        clusters.push(c);
        g += 1;
    }
    proof {
        let gs = group_views(clusters@);
        assert forall|h: int| 0 <= h < gs.len() implies #[trigger] gs[h].len() > 0 by {
            assert(root_seen(roots@, n as int, reps@[h]));
            let j = choose|j: int| 0 <= j < n && #[trigger] roots@[j] == reps@[h];
            assert(clusters@[h]@.contains(j as usize));
        }
        assert forall|i: usize| i < n implies #[trigger] in_some_group(gs, i) by {
            assert(reps@.contains(roots@[i as int]));
            let h = choose|h: int| 0 <= h < reps@.len() && reps@[h] == roots@[i as int];
            assert(clusters@[h]@.contains((i as int) as usize));
            assert(gs[h].contains(i));
        }
        assert forall|i: usize, g1: int, g2: int|
            0 <= g1 < gs.len() && 0 <= g2 < gs.len() && #[trigger] gs[g1].contains(i)
                && #[trigger] gs[g2].contains(i) implies g1 == g2 by {
            let m1 = choose|m: int| 0 <= m < gs[g1].len() && gs[g1][m] == i;
            let m2 = choose|m: int| 0 <= m < gs[g2].len() && gs[g2][m] == i;
            assert(roots@[clusters@[g1]@[m1] as int] == reps@[g1]);
            assert(roots@[clusters@[g2]@[m2] as int] == reps@[g2]);
            if g1 < g2 {
                assert(reps@[g1] != reps@[g2]);
            } else if g2 < g1 {
                assert(reps@[g2] != reps@[g1]);
            }
        }
        assert forall|k: int, h: int|
            0 <= k < adjacent@.len() && 0 <= h < clusters@.len() implies (clusters@[h]@.contains(
                #[trigger] adjacent@[k].0,
            ) <==> #[trigger] clusters@[h]@.contains(adjacent@[k].1)) by {
            let a = adjacent@[k].0;
            let b = adjacent@[k].1;
            assert(a < n && b < n);
            assert(uf_root(pu, a as int) == uf_root(pu, b as int));
            assert(roots@[a as int] == uf_root(pu, a as int));
            assert(roots@[b as int] == uf_root(pu, b as int));
            if clusters@[h]@.contains(a) {
                let m = choose|m: int| 0 <= m < clusters@[h]@.len() && clusters@[h]@[m] == a;
                assert(roots@[clusters@[h]@[m] as int] == reps@[h]);
                assert(clusters@[h]@.contains((b as int) as usize));
            }
            if clusters@[h]@.contains(b) {
                let m = choose|m: int| 0 <= m < clusters@[h]@.len() && clusters@[h]@[m] == b;
                assert(roots@[clusters@[h]@[m] as int] == reps@[h]);
                assert(clusters@[h]@.contains((a as int) as usize));
            }
        }
        assert forall|i: usize, j: usize| i < n && j < n implies (#[trigger] same_group(gs, i, j)
            <==> linked(adjacent@, adjacent@.len() as nat, i as int, j as int)) by {
            assert(roots@[i as int] == uf_root(pu, i as int));
            assert(roots@[j as int] == uf_root(pu, j as int));
            assert(linked(adjacent@, adjacent@.len() as nat, i as int, j as int) <==> uf_root(
                pu,
                i as int,
            ) == uf_root(pu, j as int));
            if same_group(gs, i, j) {
                let g = choose|g: int| 0 <= g < gs.len() && gs[g].contains(i) && gs[g].contains(j);
                let m1 = choose|m: int| 0 <= m < gs[g].len() && gs[g][m] == i;
                let m2 = choose|m: int| 0 <= m < gs[g].len() && gs[g][m] == j;
                assert(roots@[clusters@[g]@[m1] as int] == reps@[g]);
                assert(roots@[clusters@[g]@[m2] as int] == reps@[g]);
            }
            if roots@[i as int] == roots@[j as int] {
                assert(reps@.contains(roots@[i as int]));
                let h = choose|h: int| 0 <= h < reps@.len() && reps@[h] == roots@[i as int];
                assert(clusters@[h]@.contains((i as int) as usize));
                assert(clusters@[h]@.contains((j as int) as usize));
                assert(gs[h] == clusters@[h]@);
            }
        }
        assert forall|g1: int, g2: int| 0 <= g1 < g2 < clusters@.len() implies #[trigger] clusters@[g1]@[0]
            < #[trigger] clusters@[g2]@[0] by {
            assert(gs[g2].len() > 0 && gs[g1].len() > 0);
            let j0 = clusters@[g2]@[0];
            assert(roots@[j0 as int] == reps@[g2]);
            assert(comes_before(roots@, reps@[g1], reps@[g2]));
            assert(root_seen(roots@, j0 as int, reps@[g1]));
            let w = choose|w: int| 0 <= w < j0 as int && #[trigger] roots@[w] == reps@[g1];
            assert(clusters@[g1]@.contains((w as int) as usize));
            let m = choose|m: int| 0 <= m < clusters@[g1]@.len() && clusters@[g1]@[m] == w as usize;
            if m > 0 {
                assert(clusters@[g1]@[0] < clusters@[g1]@[m]);
            }
        }
    }
    clusters
}

// ── Validation ─────────────────────────────────────────────────────

/// Validate that a cell grid represents a real table, not just decorative
/// rectangles: at least two rows and two columns, and at least 30% of the
/// cells filled.
pub fn is_valid_table(cells: &[Vec<String>]) -> (r: bool)
    requires
        grid_size_ok(cells@),
    ensures
        r == valid_grid(cells@, 30),
{
    has_valid_grid(cells, 30)
}

} // verus!
