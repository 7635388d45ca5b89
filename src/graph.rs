use vstd::prelude::*;

verus! {

/// Whether a graph's edges are directed or treated as symmetric.
#[derive(Clone, Copy, Debug, PartialEq, Eq, Structural)]
pub enum Orientation {
    Directed,
    Undirected,
}

/// Construction-time configuration of the adjacency layout.
#[derive(Clone, Copy, Debug, PartialEq, Eq, Structural)]
pub enum CsrLayout {
    Unsorted,
    Sorted,
    Deduplicated,
}

/// An immutable compressed sparse-row adjacency structure.
pub struct Csr {
    pub node_count: usize,
    pub offsets: Vec<usize>,
    pub targets: Vec<usize>,
    pub layout: CsrLayout,
}

/// The largest id that occurs in the first `k` edges, plus one (zero when `k` is zero).
pub open spec fn id_bound(edges: Seq<(usize, usize)>, k: int) -> nat
    decreases k,
{
    if k <= 0 {
        0
    } else {
        let rest = id_bound(edges, k - 1);
        let e = edges[k - 1];
        let a = if e.0 + 1 > rest { (e.0 + 1) as nat } else { rest };
        if e.1 + 1 > a { (e.1 + 1) as nat } else { a }
    }
}

/// The number of nodes of a graph built from `edges`: one more than the largest id.
pub open spec fn node_count_of(edges: Seq<(usize, usize)>) -> nat {
    id_bound(edges, edges.len() as int)
}

/// The set of ids that occur as a source or a target in `edges`.
pub open spec fn ids_of(edges: Seq<(usize, usize)>) -> Set<int> {
    Set::new(|v: int| exists|i: int| 0 <= i < edges.len() && (edges[i].0 == v || edges[i].1 == v))
}

/// Every id fits below the largest `usize`, so that the node count can be held.
pub open spec fn ids_fit(edges: Seq<(usize, usize)>) -> bool {
    forall|i: int| 0 <= i < edges.len() ==> edges[i].0 < usize::MAX && edges[i].1 < usize::MAX
}

/// The neighbours that node `v` receives from the first `k` edges, in edge order: the
/// target of each edge that leaves `v`, and for an undirected graph also the source of
/// each edge that enters `v`.
pub open spec fn out_list(edges: Seq<(usize, usize)>, k: int, v: int, o: Orientation) -> Seq<usize>
    decreases k,
{
    if k <= 0 {
        Seq::empty()
    } else {
        let e = edges[k - 1];
        let a = out_list(edges, k - 1, v, o);
        let b = if e.0 == v {
            a.push(e.1)
        } else {
            a
        };
        if o == Orientation::Undirected && e.1 == v {
            b.push(e.0)
        } else {
            b
        }
    }
}

/// The neighbours of node `v` in the graph of `edges`, in edge order.
pub open spec fn neighbors_of(edges: Seq<(usize, usize)>, v: int, o: Orientation) -> Seq<usize> {
    out_list(edges, edges.len() as int, v, o)
}

/// The number of adjacency entries that `m` edges give before any are removed: one per
/// edge, two for an undirected graph.
pub open spec fn stored_count(m: nat, o: Orientation) -> nat {
    if o == Orientation::Directed {
        m
    } else {
        2 * m
    }
}

/// Total length of the first `k` adjacency lists.
pub open spec fn total_len(adj: Seq<Vec<usize>>, k: int) -> int
    decreases k,
{
    if k <= 0 {
        0
    } else {
        total_len(adj, k - 1) + adj[k - 1]@.len()
    }
}

proof fn lemma_id_bound_mono(edges: Seq<(usize, usize)>, j: int, k: int)
    requires
        0 <= j <= k <= edges.len(),
    ensures
        id_bound(edges, j) <= id_bound(edges, k),
        forall|i: int| 0 <= i < k ==> edges[i].0 < id_bound(edges, k) && edges[i].1 < id_bound(edges, k),
    decreases k,
{
    if k > 0 {
        lemma_id_bound_mono(edges, if j == k { k - 1 } else { j }, k - 1);
    }
}

proof fn lemma_total_len_update(adj: Seq<Vec<usize>>, v: Vec<usize>, i: int, k: int)
    requires
        0 <= i < adj.len(),
        0 <= k <= adj.len(),
    ensures
        total_len(adj.update(i, v), k) == total_len(adj, k) + (if i < k {
            v@.len() - adj[i]@.len()
        } else {
            0
        }),
    decreases k,
{
    if k > 0 {
        lemma_total_len_update(adj, v, i, k - 1);
    }
}

impl Csr {
    /// Offsets start at zero, never decrease, end at the number of targets, and every
    /// target is a node.
    pub open spec fn wf(&self) -> bool {
        &&& self.offsets@.len() == self.node_count + 1
        &&& self.offsets@[0] == 0
        &&& forall|i: int, j: int|
            0 <= i <= j <= self.node_count ==> self.offsets@[i] <= self.offsets@[j]
        &&& self.offsets@[self.node_count as int] == self.targets@.len()
        &&& forall|i: int| 0 <= i < self.targets@.len() ==> self.targets@[i] < self.node_count
    }

    /// The neighbours of node `v`, as stored.
    pub open spec fn neighbors(&self, v: int) -> Seq<usize> {
        self.targets@.subrange(self.offsets@[v] as int, self.offsets@[v + 1] as int)
    }

    /// Number of adjacency entries that the structure stores.
    pub open spec fn entry_count(&self) -> nat {
        self.targets@.len()
    }

    /// Builds the adjacency structure of `edges`: each edge is stored once from its
    /// source, and for an undirected graph once more from its target.
    pub fn from_edges(edges: &Vec<(usize, usize)>, orientation: Orientation, layout: CsrLayout) -> (r: Csr)
        requires
            ids_fit(edges@),
            edges@.len() * 2 <= usize::MAX,
        ensures
            r.wf(),
            r.node_count == node_count_of(edges@),
            r.layout == layout,
            r.entry_count() <= stored_count(edges@.len(), orientation),
            layout != CsrLayout::Deduplicated ==> r.entry_count() == stored_count(edges@.len(), orientation),
            forall|v: int|
                0 <= v < r.node_count ==> arranged(
                    #[trigger] r.neighbors(v),
                    neighbors_of(edges@, v, orientation),
                    layout,
                ),
    {
        let m = edges.len();
        let mut n: usize = 0;
        let mut k: usize = 0;
        while k < m
            invariant
                m == edges@.len(),
                ids_fit(edges@),
                0 <= k <= m,
                n == id_bound(edges@, k as int),
            decreases m - k,
        {
            let (s, t) = edges[k];
            if s + 1 > n {
                n = s + 1;
            }
            if t + 1 > n {
                n = t + 1;
            }
            k = k + 1;
        }
        proof {
            lemma_id_bound_mono(edges@, 0, m as int);
        }
        let mut adj: Vec<Vec<usize>> = Vec::new();
        let mut v: usize = 0;
        while v < n
            invariant
                0 <= v <= n,
                adj@.len() == v,
                forall|i: int| 0 <= i < v ==> adj@[i]@.len() == 0,
                total_len(adj@, v as int) == 0,
            decreases n - v,
        {
            let ghost prev = adj@;
            adj.push(Vec::new());
            proof {
                assert(adj@.drop_last() =~= prev);
                assert(total_len(adj@, v as int) == total_len(adj@.drop_last(), v as int)) by {
                    lemma_total_len_prefix(adj@, adj@.drop_last(), v as int);
                }
                assert(total_len(adj@, v + 1) == total_len(adj@, v as int) + adj@[v as int]@.len());
            }
            v = v + 1;
        }
        let mut k: usize = 0;
        while k < m
            invariant
                m == edges@.len(),
                m * 2 <= usize::MAX,
                n == node_count_of(edges@),
                forall|i: int| 0 <= i < m ==> edges@[i].0 < n && edges@[i].1 < n,
                0 <= k <= m,
                adj@.len() == n,
                forall|i: int, j: int| 0 <= i < n && 0 <= j < adj@[i]@.len() ==> adj@[i]@[j] < n,
                total_len(adj@, n as int) == (if orientation == Orientation::Directed {
                    k as int
                } else {
                    2 * k
                }),
                forall|v: int| 0 <= v < n ==> #[trigger] adj@[v]@ == out_list(edges@, k as int, v, orientation),
            decreases m - k,
        {
            let (s, t) = edges[k];
            let ghost before = adj@;
            let mut list: Vec<usize> = Vec::new();
            adj.set_and_swap(s, &mut list);
            list.push(t);
            adj.set(s, list);
            proof {
                lemma_total_len_update(before, list, s as int, n as int);
                assert(adj@ =~= before.update(s as int, list));
            }
            if orientation == Orientation::Undirected {
                let ghost mid = adj@;
                let mut back: Vec<usize> = Vec::new();
                adj.set_and_swap(t, &mut back);
                back.push(s);
                adj.set(t, back);
                proof {
                    lemma_total_len_update(mid, back, t as int, n as int);
                    assert(adj@ =~= mid.update(t as int, back));
                }
            }
            proof {
                assert forall|v: int| 0 <= v < n implies #[trigger] adj@[v]@ == out_list(edges@, k + 1, v, orientation) by {
                    assert(out_list(edges@, k + 1, v, orientation) == {
                        let a = out_list(edges@, k as int, v, orientation);
                        let b = if s == v { a.push(t) } else { a };
                        if orientation == Orientation::Undirected && t == v { b.push(s) } else { b }
                    });
                }
            }
            k = k + 1;
        }
        let mut offsets: Vec<usize> = Vec::new();
        offsets.push(0);
        let mut targets: Vec<usize> = Vec::new();
        let mut v: usize = 0;
        while v < n
            invariant
                0 <= v <= n,
                adj@.len() == n,
                total_len(adj@, n as int) <= usize::MAX,
                forall|i: int, j: int| 0 <= i < n && 0 <= j < adj@[i]@.len() ==> adj@[i]@[j] < n,
                offsets@.len() == v + 1,
                offsets@[0] == 0,
                forall|i: int, j: int| 0 <= i <= j <= v ==> offsets@[i] <= offsets@[j],
                offsets@[v as int] == targets@.len(),
                targets@.len() <= total_len(adj@, v as int),
                layout != CsrLayout::Deduplicated ==> targets@.len() == total_len(adj@, v as int),
                forall|i: int| 0 <= i < targets@.len() ==> targets@[i] < n,
                forall|u: int|
                    0 <= u < v ==> arranged(
                        #[trigger] targets@.subrange(offsets@[u] as int, offsets@[u + 1] as int),
                        adj@[u]@,
                        layout,
                    ),
            decreases n - v,
        {
            let list = arrange(&adj[v], layout);
            let ghost start = targets@;
            proof {
                lemma_total_len_mono(adj@, v as int + 1, n as int);
                assert forall|i: int| 0 <= i < list@.len() implies list@[i] < n by {
                    assert(list@.contains(list@[i]));
                    let q = choose|q: int| 0 <= q < adj@[v as int]@.len() && adj@[v as int]@[q] == list@[i];
                }
            }
            let mut j: usize = 0;
            while j < list.len()
                invariant
                    0 <= j <= list@.len(),
                    v < n,
                    adj@.len() == n,
                    forall|i: int| 0 <= i < list@.len() ==> list@[i] < n,
                    targets@.len() == start.len() + j,
                    start.len() + list@.len() <= usize::MAX,
                    forall|i: int| 0 <= i < targets@.len() ==> targets@[i] < n,
                    targets@ == start + list@.subrange(0, j as int),
                decreases list@.len() - j,
            {
                targets.push(list[j]);
                j = j + 1;
                assert(targets@ =~= start + list@.subrange(0, j as int));
            }
            let ghost old_offsets = offsets@;
            offsets.push(targets.len());
            proof {
                assert(list@.subrange(0, list@.len() as int) =~= list@);
                assert forall|u: int| 0 <= u < v + 1 implies arranged(
                    #[trigger] targets@.subrange(offsets@[u] as int, offsets@[u + 1] as int),
                    adj@[u]@,
                    layout,
                ) by {
                    if u < v {
                        assert(offsets@[u] == old_offsets[u] && offsets@[u + 1] == old_offsets[u + 1]);
                        assert(old_offsets[u + 1] <= start.len());
                        assert(targets@.subrange(offsets@[u] as int, offsets@[u + 1] as int) =~= start.subrange(offsets@[u] as int, offsets@[u + 1] as int));
                    } else {
                        assert(targets@.subrange(offsets@[u] as int, offsets@[u + 1] as int) =~= list@);
                    }
                }
            }
            v = v + 1;
        }
        let r = Csr { node_count: n, offsets, targets, layout };
        assert forall|v: int| 0 <= v < r.node_count implies arranged(
            #[trigger] r.neighbors(v),
            neighbors_of(edges@, v, orientation),
            layout,
        ) by {
            assert(adj@[v]@ == neighbors_of(edges@, v, orientation));
        }
        r
    }
}

proof fn lemma_total_len_prefix(a: Seq<Vec<usize>>, b: Seq<Vec<usize>>, k: int)
    requires
        0 <= k <= a.len(),
        k <= b.len(),
        forall|i: int| 0 <= i < k ==> a[i] == b[i],
    ensures
        total_len(a, k) == total_len(b, k),
    decreases k,
{
    if k > 0 {
        lemma_total_len_prefix(a, b, k - 1);
    }
}

proof fn lemma_total_len_mono(adj: Seq<Vec<usize>>, j: int, k: int)
    requires
        0 <= j <= k <= adj.len(),
    ensures
        total_len(adj, j) <= total_len(adj, k),
    decreases k,
{
    if k > j {
        lemma_total_len_mono(adj, j, k - 1);
    }
}

} // verus!

verus! {

/// A graph together with its orientation, which never changes.
pub enum GraphVariant {
    Directed(Csr),
    Undirected(Csr),
}

impl GraphVariant {
    pub open spec fn csr(&self) -> Csr {
        match self {
            GraphVariant::Directed(g) => *g,
            GraphVariant::Undirected(g) => *g,
        }
    }

    pub open spec fn wf(&self) -> bool {
        &&& self.csr().wf()
    }

    pub open spec fn spec_orientation(&self) -> Orientation {
        match self {
            GraphVariant::Directed(_) => Orientation::Directed,
            GraphVariant::Undirected(_) => Orientation::Undirected,
        }
    }

    /// Number of edges: each undirected edge is stored twice.
    pub open spec fn spec_edge_count(&self) -> nat {
        match self {
            GraphVariant::Directed(g) => g.entry_count(),
            GraphVariant::Undirected(g) => g.entry_count() / 2,
        }
    }

    /// Builds the graph of `edges` with the given orientation and layout. Under the
    /// deduplicating layout the graph has one edge per distinct edge of the list (an
    /// undirected edge taken with either end first); otherwise one per pair. Each edge
    /// is stored once, or twice for an undirected graph, a self-loop included.
    pub fn from_edge_list(edges: &Vec<(usize, usize)>, orientation: Orientation, layout: CsrLayout) -> (r: GraphVariant)
        requires
            ids_fit(edges@),
            edges@.len() * 2 <= usize::MAX,
        ensures
            r.wf(),
            r.spec_orientation() == orientation,
            r.csr().node_count == node_count_of(edges@),
            r.csr().layout == layout,
            r.csr().entry_count() == stored_count(r.spec_edge_count(), orientation),
            r.spec_edge_count() <= edges@.len(),
            layout != CsrLayout::Deduplicated ==> r.spec_edge_count() == edges@.len(),
            layout != CsrLayout::Deduplicated ==> forall|v: int|
                0 <= v < r.csr().node_count ==> arranged(
                    #[trigger] r.csr().neighbors(v),
                    neighbors_of(edges@, v, orientation),
                    layout,
                ),
            layout == CsrLayout::Deduplicated ==> exists|d: Seq<(usize, usize)>|
                distinct_edges(d, edges@, orientation) && r.spec_edge_count() == d.len() && forall|v: int|
                    0 <= v < r.csr().node_count ==> arranged(
                        #[trigger] r.csr().neighbors(v),
                        neighbors_of(d, v, orientation),
                        CsrLayout::Sorted,
                    ),
    {
        let ghost mut witness: Seq<(usize, usize)> = edges@;

        let csr = if layout == CsrLayout::Deduplicated {
            let d = distinct_pairs(edges, orientation);
            let built = Csr::from_edges(&d, orientation, CsrLayout::Sorted);
            let c = Csr {
                node_count: built.node_count,
                offsets: built.offsets,
                targets: built.targets,
                layout,
            };
            proof {
                witness = d@;
                assert forall|v: int| 0 <= v < c.node_count implies arranged(
                    #[trigger] c.neighbors(v),
                    neighbors_of(witness, v, orientation),
                    CsrLayout::Sorted,
                ) by {
                    assert(c.neighbors(v) == built.neighbors(v));
                }
            }
            c
        } else {
            Csr::from_edges(edges, orientation, layout)
        };
        let r = match orientation {
            Orientation::Directed => GraphVariant::Directed(csr),
            Orientation::Undirected => GraphVariant::Undirected(csr),
        };
        proof {
            if layout == CsrLayout::Deduplicated {
                assert(distinct_edges(witness, edges@, orientation));
                assert(r.spec_edge_count() == witness.len());
                assert(forall|v: int|
                    0 <= v < r.csr().node_count ==> arranged(
                        #[trigger] r.csr().neighbors(v),
                        neighbors_of(witness, v, orientation),
                        CsrLayout::Sorted,
                    ));
            }
        }
        r
    }

    pub fn orientation(&self) -> (r: Orientation)
        ensures
            r == self.spec_orientation(),
    {
        match self {
            GraphVariant::Directed(_) => Orientation::Directed,
            GraphVariant::Undirected(_) => Orientation::Undirected,
        }
    }

    pub fn csr_ref(&self) -> (r: &Csr)
        ensures
            *r == self.csr(),
    {
        match self {
            GraphVariant::Directed(g) => g,
            GraphVariant::Undirected(g) => g,
        }
    }

    pub fn node_count(&self) -> (r: usize)
        ensures
            r == self.csr().node_count,
    {
        self.csr_ref().node_count
    }

    pub fn edge_count(&self) -> (r: usize)
        ensures
            r == self.spec_edge_count(),
    {
        match self {
            GraphVariant::Directed(g) => g.targets.len(),
            GraphVariant::Undirected(g) => g.targets.len() / 2,
        }
    }
}

/// The node count that a graph built from `edges` gets, one more than the largest id,
/// is the number of distinct ids in `edges` whenever those ids leave no gap below the
/// largest one.
pub proof fn lemma_ingest_counts(edges: Seq<(usize, usize)>)
    requires
        forall|v: int| 0 <= v < node_count_of(edges) ==> #[trigger] ids_of(edges).contains(v),
    ensures
        ids_of(edges).finite(),
        ids_of(edges).len() == node_count_of(edges),
{
    let n = node_count_of(edges) as int;
    lemma_id_bound_mono(edges, 0, edges.len() as int);
    assert(ids_of(edges) =~= vstd::set_lib::set_int_range(0, n));
    vstd::set_lib::lemma_int_range(0, n);
}

/// `s` never decreases.
pub open spec fn sorted(s: Seq<usize>) -> bool {
    forall|i: int, j: int| 0 <= i < j < s.len() ==> s[i] <= s[j]
}

/// `s` strictly increases.
pub open spec fn strictly_sorted(s: Seq<usize>) -> bool {
    forall|i: int, j: int| 0 <= i < j < s.len() ==> s[i] < s[j]
}

/// How a stored neighbour list relates to the neighbours in edge order under a layout:
/// kept as they came, sorted, or sorted with repeats removed.
pub open spec fn arranged(stored: Seq<usize>, list: Seq<usize>, layout: CsrLayout) -> bool {
    match layout {
        CsrLayout::Unsorted => stored == list,
        CsrLayout::Sorted => sorted(stored) && stored.to_multiset() == list.to_multiset(),
        CsrLayout::Deduplicated => strictly_sorted(stored) && stored.to_set() == list.to_set(),
    }
}

/// The values of `list` in ascending order.
fn sorted_copy(list: &Vec<usize>) -> (r: Vec<usize>)
    ensures
        sorted(r@),
        r@.to_multiset() == list@.to_multiset(),
        r@.len() == list@.len(),
{
    let mut out: Vec<usize> = Vec::new();
    let mut i: usize = 0;
    assert(out@ =~= list@.subrange(0, 0));
    while i < list.len()
        invariant
            0 <= i <= list@.len(),
            sorted(out@),
            out@.to_multiset() == list@.subrange(0, i as int).to_multiset(),
            out@.len() == i,
        decreases list@.len() - i,
    {
        let x = list[i];
        let mut p: usize = 0;
        while p < out.len() && out[p] <= x
            invariant
                0 <= p <= out@.len(),
                forall|q: int| 0 <= q < p ==> out@[q] <= x,
            decreases out@.len() - p,
        {
            p = p + 1;
        }
        let ghost before = out@;
        out.insert(p, x);
        proof {
            assert(list@.subrange(0, i + 1) =~= list@.subrange(0, i as int).push(x));
            assert(forall|q: int| p <= q < before.len() ==> x < before[q]) by {
                if p < before.len() {
                    assert(x < before[p as int]);
                }
            }
            assert(out@ =~= before.insert(p as int, x));
            vstd::seq_lib::to_multiset_insert(before, p as int, x);
            vstd::seq_lib::to_multiset_build(list@.subrange(0, i as int), x);
        }
        i = i + 1;
    }
    assert(list@.subrange(0, list@.len() as int) =~= list@);
    out
}

/// The values of a sorted `list` with repeats removed.
fn dedup_sorted(list: &Vec<usize>) -> (r: Vec<usize>)
    requires
        sorted(list@),
    ensures
        strictly_sorted(r@),
        r@.to_set() == list@.to_set(),
        r@.len() <= list@.len(),
{
    let mut out: Vec<usize> = Vec::new();
    let mut i: usize = 0;
    while i < list.len()
        invariant
            0 <= i <= list@.len(),
            sorted(list@),
            strictly_sorted(out@),
            out@.to_set() == list@.subrange(0, i as int).to_set(),
            out@.len() <= i,
            i > 0 ==> out@.len() > 0 && out@.last() == list@[i - 1],
        decreases list@.len() - i,
    {
        let x = list[i];
        let ghost before = out@;
        proof {
            assert(list@.subrange(0, i + 1) =~= list@.subrange(0, i as int).push(x));
            list@.subrange(0, i as int).lemma_push_to_set_commute(x);
        }
        if out.len() == 0 || out[out.len() - 1] != x {
            out.push(x);
            proof {
                before.lemma_push_to_set_commute(x);
            }
        } else {
            proof {
                assert(before.to_set().contains(x)) by {
                    assert(before[before.len() - 1] == x);
                }
                assert(before.to_set().insert(x) =~= before.to_set());
            }
        }
        i = i + 1;
    }
    assert(list@.subrange(0, list@.len() as int) =~= list@);
    out
}

/// The neighbour list as the layout stores it.
fn arrange(list: &Vec<usize>, layout: CsrLayout) -> (r: Vec<usize>)
    ensures
        arranged(r@, list@, layout),
        layout != CsrLayout::Deduplicated ==> r@.len() == list@.len(),
        r@.len() <= list@.len(),
        forall|x: usize| r@.contains(x) ==> list@.contains(x),
{
    match layout {
        CsrLayout::Unsorted => list.clone(),
        CsrLayout::Sorted => {
            let r = sorted_copy(list);
            proof {
                assert forall|x: usize| r@.contains(x) implies list@.contains(x) by {
                    vstd::seq_lib::to_multiset_contains(r@, x);
                    vstd::seq_lib::to_multiset_contains(list@, x);
                }
            }
            r
        },
        CsrLayout::Deduplicated => {
            let s = sorted_copy(list);
            let r = dedup_sorted(&s);
            proof {
                assert forall|x: usize| s@.to_set().contains(x) == list@.to_set().contains(x) by {
                    vstd::seq_lib::to_multiset_contains(s@, x);
                    vstd::seq_lib::to_multiset_contains(list@, x);
                }
                assert(s@.to_set() =~= list@.to_set());
                assert forall|x: usize| r@.contains(x) implies list@.contains(x) by {
                    assert(r@.to_set().contains(x));
                }
            }
            r
        },
    }
}

/// An edge as the graph keeps it: an undirected edge with its smaller end first.
pub open spec fn normalize(e: (usize, usize), o: Orientation) -> (usize, usize) {
    if o == Orientation::Undirected && e.0 > e.1 {
        (e.1, e.0)
    } else {
        e
    }
}

/// `d` holds each distinct edge of `edges` exactly once.
pub open spec fn distinct_edges(d: Seq<(usize, usize)>, edges: Seq<(usize, usize)>, o: Orientation) -> bool {
    &&& d.no_duplicates()
    &&& forall|p: (usize, usize)|
        d.contains(p) <==> exists|i: int| 0 <= i < edges.len() && normalize(edges[i], o) == p
}

proof fn lemma_out_list_directed(edges: Seq<(usize, usize)>, k: int, v: int, t: usize)
    requires
        0 <= k <= edges.len(),
    ensures
        out_list(edges, k, v, Orientation::Directed).contains(t) <==> exists|i: int|
            0 <= i < k && edges[i] == (v as usize, t) && v == edges[i].0,
    decreases k,
{
    if k > 0 {
        lemma_out_list_directed(edges, k - 1, v, t);
        let a = out_list(edges, k - 1, v, Orientation::Directed);
        let e = edges[k - 1];
        if e.0 == v {
            assert(a.push(e.1).contains(t) <==> a.contains(t) || e.1 == t) by {
                if a.push(e.1).contains(t) {
                    let q = choose|q: int| 0 <= q < a.len() + 1 && a.push(e.1)[q] == t;
                    if q < a.len() {
                        assert(a[q] == t);
                    }
                }
                if a.contains(t) {
                    let q = choose|q: int| 0 <= q < a.len() && a[q] == t;
                    assert(a.push(e.1)[q] == t);
                }
                if e.1 == t {
                    assert(a.push(e.1)[a.len() as int] == t);
                }
            }
        }
    }
}

proof fn lemma_id_bound_witness(edges: Seq<(usize, usize)>, k: int)
    requires
        0 <= k <= edges.len(),
        id_bound(edges, k) > 0,
    ensures
        exists|i: int|
            0 <= i < k && (edges[i].0 + 1 == id_bound(edges, k) || edges[i].1 + 1 == id_bound(edges, k)),
    decreases k,
{
    if id_bound(edges, k) == id_bound(edges, k - 1) {
        lemma_id_bound_witness(edges, k - 1);
    }
}

proof fn lemma_id_bound_le(edges: Seq<(usize, usize)>, k: int, b: nat)
    requires
        0 <= k <= edges.len(),
        forall|i: int| 0 <= i < k ==> edges[i].0 < b && edges[i].1 < b,
    ensures
        id_bound(edges, k) <= b,
    decreases k,
{
    if k > 0 {
        lemma_id_bound_le(edges, k - 1, b);
    }
}

/// The distinct edges of `edges`, each once.
fn distinct_pairs(edges: &Vec<(usize, usize)>, o: Orientation) -> (d: Vec<(usize, usize)>)
    requires
        ids_fit(edges@),
        edges@.len() * 2 <= usize::MAX,
    ensures
        distinct_edges(d@, edges@, o),
        ids_fit(d@),
        d@.len() <= edges@.len(),
        node_count_of(d@) == node_count_of(edges@),
{
    let m = edges.len();
    let mut norm: Vec<(usize, usize)> = Vec::new();
    let mut k: usize = 0;
    while k < m
        invariant
            m == edges@.len(),
            0 <= k <= m,
            norm@.len() == k,
            forall|i: int| 0 <= i < k ==> #[trigger] norm@[i] == normalize(edges@[i], o),
        decreases m - k,
    {
        let (a, b) = edges[k];
        if o == Orientation::Undirected && a > b {
            norm.push((b, a));
        } else {
            norm.push((a, b));
        }
        k = k + 1;
    }
    assert(ids_fit(norm@)) by {
        assert forall|i: int| 0 <= i < norm@.len() implies norm@[i].0 < usize::MAX && norm@[i].1
            < usize::MAX by {
            assert(norm@[i] == normalize(edges@[i], o));
        }
    }
    let g = Csr::from_edges(&norm, Orientation::Directed, CsrLayout::Deduplicated);
    let n = g.node_count;
    let mut d: Vec<(usize, usize)> = Vec::new();
    let mut v: usize = 0;
    while v < n
        invariant
            g.wf(),
            n == g.node_count,
            0 <= v <= n,
            forall|u: int|
                0 <= u < n ==> arranged(
                    #[trigger] g.neighbors(u),
                    neighbors_of(norm@, u, Orientation::Directed),
                    CsrLayout::Deduplicated,
                ),
            d@.len() == g.offsets@[v as int],
            forall|i: int| 0 <= i < d@.len() ==> (#[trigger] d@[i]).0 < v && d@[i].1 < n,
            forall|i: int, j: int| 0 <= i < j < d@.len() ==> d@[i] != d@[j],
            forall|p: (usize, usize)|
                d@.contains(p) <==> (p.0 < v && g.neighbors(p.0 as int).contains(p.1)),
        decreases n - v,
    {
        let lo = g.offsets[v];
        let hi = g.offsets[v + 1];
        let ghost nb = g.neighbors(v as int);
        assert(strictly_sorted(nb));
        let mut j: usize = lo;
        while j < hi
            invariant
                g.wf(),
                n == g.node_count,
                v < n,
                lo == g.offsets@[v as int],
                hi == g.offsets@[v + 1],
                lo <= j <= hi,
                nb == g.neighbors(v as int),
                strictly_sorted(nb),
                d@.len() == j,
                forall|i: int|
                    0 <= i < d@.len() ==> (#[trigger] d@[i]).0 < v || (d@[i].0 == v && j < hi
                        ==> d@[i].1 < g.targets@[j as int]),
                forall|i: int| 0 <= i < d@.len() ==> (#[trigger] d@[i]).0 <= v && d@[i].1 < n,
                forall|i: int, k: int| 0 <= i < k < d@.len() ==> d@[i] != d@[k],
                forall|p: (usize, usize)|
                    d@.contains(p) <==> (p.0 < v && g.neighbors(p.0 as int).contains(p.1)) || (p.0
                        == v && nb.subrange(0, j - lo).contains(p.1)),
            decreases hi - j,
        {
            let t = g.targets[j];
            let ghost before = d@;
            d.push((v, t));
            proof {
                assert(nb[j - lo] == t);
                assert(nb.subrange(0, j + 1 - lo) =~= nb.subrange(0, j - lo).push(t));
                assert forall|p: (usize, usize)|
                    d@.contains(p) <==> (p.0 < v && g.neighbors(p.0 as int).contains(p.1)) || (p.0
                        == v && nb.subrange(0, j + 1 - lo).contains(p.1)) by {
                    if d@.contains(p) {
                        let q = choose|q: int| 0 <= q < d@.len() && d@[q] == p;
                        if q < before.len() {
                            assert(before.contains(p));
                        } else {
                            assert(nb.subrange(0, j + 1 - lo)[j - lo] == t);
                        }
                    }
                    if p.0 < v && g.neighbors(p.0 as int).contains(p.1) {
                        assert(before.contains(p));
                        let q = choose|q: int| 0 <= q < before.len() && before[q] == p;
                        assert(d@[q] == p);
                    }
                    if p.0 == v && nb.subrange(0, j + 1 - lo).contains(p.1) {
                        let sub = nb.subrange(0, j + 1 - lo);
                        let q = choose|q: int| 0 <= q < sub.len() && #[trigger] sub[q] == p.1;
                        if q < j - lo {
                            assert(nb.subrange(0, j - lo)[q] == p.1);
                            assert(before.contains(p));
                            let r = choose|r: int| 0 <= r < before.len() && before[r] == p;
                            assert(d@[r] == p);
                        } else {
                            assert(d@[d@.len() - 1] == p);
                        }
                    }
                }
                if j + 1 < hi {
                    assert(nb[j - lo] < nb[j + 1 - lo]);
                }
            }
            j = j + 1;
        }
        proof {
            assert(nb.subrange(0, hi - lo) =~= nb);
        }
        v = v + 1;
    }
    proof {
        assert(d@.no_duplicates());
        assert forall|p: (usize, usize)|
            d@.contains(p) <==> exists|i: int| 0 <= i < edges@.len() && normalize(edges@[i], o) == p by {
            let nbr = g.neighbors(p.0 as int);
            if p.0 < n {
                let full = neighbors_of(norm@, p.0 as int, Orientation::Directed);
                lemma_out_list_directed(norm@, norm@.len() as int, p.0 as int, p.1);
                assert(nbr.to_set().contains(p.1) == full.to_set().contains(p.1));
                if exists|i: int| 0 <= i < edges@.len() && normalize(edges@[i], o) == p {
                    let i = choose|i: int| 0 <= i < edges@.len() && normalize(edges@[i], o) == p;
                    assert(norm@[i] == p);
                }
            } else {
                if exists|i: int| 0 <= i < edges@.len() && normalize(edges@[i], o) == p {
                    let i = choose|i: int| 0 <= i < edges@.len() && normalize(edges@[i], o) == p;
                    assert(norm@[i] == p);
                    lemma_id_bound_mono(norm@, 0, norm@.len() as int);
                }
            }
        }
        lemma_id_bound_mono(d@, 0, d@.len() as int);
        lemma_id_bound_mono(edges@, 0, edges@.len() as int);
        lemma_id_bound_mono(norm@, 0, norm@.len() as int);
        let ne = node_count_of(edges@);
        let nd = node_count_of(d@);
        // every id of d is an id of edges, and the other way round
        assert forall|i: int| 0 <= i < d@.len() implies d@[i].0 < ne && d@[i].1 < ne by {
            assert(d@.contains(d@[i]));
            let q = choose|q: int| 0 <= q < edges@.len() && normalize(edges@[q], o) == d@[i];
        }
        lemma_id_bound_le(d@, d@.len() as int, ne);
        if ne > 0 {
            lemma_id_bound_witness(edges@, edges@.len() as int);
            let w = choose|w: int|
                0 <= w < edges@.len() && (edges@[w].0 + 1 == ne || edges@[w].1 + 1 == ne);
            let p = normalize(edges@[w], o);
            assert(d@.contains(p));
            let q = choose|q: int| 0 <= q < d@.len() && d@[q] == p;
            assert(d@[q].0 < nd && d@[q].1 < nd);
        }
        assert(d@.len() <= edges@.len()) by {
            assert(g.entry_count() <= stored_count(norm@.len(), Orientation::Directed));
        }
    }
    d
}

} // verus!
