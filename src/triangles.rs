use vstd::prelude::*;

use crate::graph::Csr;

verus! {

/// How many of the first `j` neighbours `w` of `v` lie above `v` and are neighbours of
/// `u` too.
pub open spec fn closing(g: Csr, u: int, v: int, j: int) -> nat
    decreases j,
{
    if j <= 0 {
        0
    } else {
        closing(g, u, v, j - 1) + if g.neighbors(v)[j - 1] > v && g.neighbors(u).contains(
            g.neighbors(v)[j - 1],
        ) {
            1nat
        } else {
            0nat
        }
    }
}

/// Triangles found from `u` through its first `i` neighbours `v` above `u`.
pub open spec fn through(g: Csr, u: int, i: int) -> nat
    decreases i,
{
    if i <= 0 {
        0
    } else {
        through(g, u, i - 1) + if g.neighbors(u)[i - 1] > u {
            closing(g, u, g.neighbors(u)[i - 1] as int, g.neighbors(g.neighbors(u)[i - 1] as int).len() as int)
        } else {
            0nat
        }
    }
}

/// Triangles u < v < w with lowest node below `k`, counted once for each way the
/// adjacency lists reach them: the edges u-v and v-w are walked, u-w is looked up.
pub open spec fn triangles_below(g: Csr, k: int) -> nat
    decreases k,
{
    if k <= 0 {
        0
    } else {
        triangles_below(g, k - 1) + through(g, k - 1, g.neighbors(k - 1).len() as int)
    }
}

/// The triangles of a graph; on adjacency lists without repeats, each triangle once.
pub open spec fn triangle_count(g: Csr) -> nat {
    triangles_below(g, g.node_count as int)
}

proof fn lemma_neighbors_len(g: Csr, v: int)
    requires
        g.wf(),
        0 <= v < g.node_count,
    ensures
        g.neighbors(v).len() == g.offsets@[v + 1] - g.offsets@[v],
        g.neighbors(v).len() <= g.targets@.len(),
        forall|q: int| 0 <= q < g.neighbors(v).len() ==> #[trigger] g.neighbors(v)[q] < g.node_count,
{
    assert(g.offsets@[v] <= g.offsets@[v + 1]);
    assert(g.offsets@[v + 1] <= g.offsets@[g.node_count as int]);
    assert forall|q: int| 0 <= q < g.neighbors(v).len() implies #[trigger] g.neighbors(v)[q] < g.node_count by {
        assert(g.neighbors(v)[q] == g.targets@[g.offsets@[v] + q]);
    }
}

fn contains(list: &[usize], x: usize) -> (r: bool)
    ensures
        r == list@.contains(x),
{
    let mut i: usize = 0;
    while i < list.len()
        invariant
            0 <= i <= list@.len(),
            forall|q: int| 0 <= q < i ==> list@[q] != x,
        decreases list@.len() - i,
    {
        if list[i] == x {
            return true;
        }
        i = i + 1;
    }
    false
}

/// The number of triangles of an undirected graph's adjacency structure.
pub fn global_triangle_count(g: &Csr) -> (r: u128)
    requires
        g.wf(),
    ensures
        r == triangle_count(*g),
{
    let n = g.node_count;
    let e = g.targets.len();
    let mut count: u128 = 0;
    let mut u: usize = 0;
    while u < n
        invariant
            g.wf(),
            n == g.node_count,
            e == g.targets@.len(),
            0 <= u <= n,
            count == triangles_below(*g, u as int),
            count <= g.offsets@[u as int] * e,
        decreases n - u,
    {
        proof {
            lemma_neighbors_len(*g, u as int);
        }
        let ulo = g.offsets[u];
        let uhi = g.offsets[u + 1];
        let nu = vstd::slice::slice_subrange(g.targets.as_slice(), ulo, uhi);
        let ghost base = count;
        let mut i: usize = ulo;
        while i < uhi
            invariant
                g.wf(),
                n == g.node_count,
                e == g.targets@.len(),
                u < n,
                ulo == g.offsets@[u as int],
                uhi == g.offsets@[u + 1],
                ulo <= i <= uhi,
                nu@ == g.neighbors(u as int),
                count == base + through(*g, u as int, i - ulo),
                count <= g.offsets@[u as int] * e + (i - ulo) * e,
                base == triangles_below(*g, u as int),
            decreases uhi - i,
        {
            let v = g.targets[i];
            proof {
                assert(nu@[i - ulo] == v);
                lemma_neighbors_len(*g, u as int);
                assert(v < n);
                lemma_neighbors_len(*g, v as int);
            }
            let ghost mid = count;
            if v > u {
                let vlo = g.offsets[v];
                let vhi = g.offsets[v + 1];
                let mut j: usize = vlo;
                while j < vhi
                    invariant
                        g.wf(),
                        n == g.node_count,
                        v < n,
                        vlo == g.offsets@[v as int],
                        vhi == g.offsets@[v + 1],
                        vlo <= j <= vhi,
                        nu@ == g.neighbors(u as int),
                        count == mid + closing(*g, u as int, v as int, j - vlo),
                        count <= mid + (j - vlo),
                        mid <= g.offsets@[u as int] * e + (i - ulo) * e,
                        e == g.targets@.len(),
                        ulo == g.offsets@[u as int],
                        uhi == g.offsets@[u + 1],
                        ulo <= i < uhi,
                        u < n,
                    decreases vhi - j,
                {
                    let w = g.targets[j];
                    proof {
                        assert(g.neighbors(v as int)[j - vlo] == w);
                    }
                    proof {
                        assert(g.offsets@[u + 1] <= g.offsets@[n as int]);
                        assert(g.offsets@[v + 1] <= g.offsets@[n as int]);
                        let ee = e as int;
                        assert(count + 1 <= u128::MAX) by (nonlinear_arith)
                            requires
                                count <= mid + (j - vlo),
                                mid <= g.offsets@[u as int] * ee + (i - ulo) * ee,
                                ulo == g.offsets@[u as int],
                                i < ee,
                                j < ee,
                                vlo >= 0,
                                ulo >= 0,
                                ee <= usize::MAX,
                                usize::MAX <= u64::MAX,
                        ;
                    }
                    if w > v && contains(nu, w) {
                        count = count + 1;
                    }
                    j = j + 1;
                }
            }
            proof {
                assert(nu@[i - ulo] == g.neighbors(u as int)[i - ulo]);
                assert(g.neighbors(v as int).len() <= e);
                assert(count <= g.offsets@[u as int] * e + (i + 1 - ulo) * e) by (nonlinear_arith)
                    requires
                        count <= mid + e,
                        mid <= g.offsets@[u as int] * e + (i - ulo) * e,
                ;
            }
            i = i + 1;
        }
        proof {
            assert(count <= g.offsets@[u + 1] * e) by (nonlinear_arith)
                requires
                    count <= g.offsets@[u as int] * e + (uhi - ulo) * e,
                    uhi == g.offsets@[u + 1],
                    ulo == g.offsets@[u as int],
            ;
        }
        u = u + 1;
    }
    count
}

} // verus!
