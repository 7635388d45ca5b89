use std::sync::Arc;
use vstd::prelude::*;

use crate::graph::GraphVariant;
use crate::store::{KeyedStore, StoreKey};

verus! {

/// The largest number of rows in one chunk of a stored property.
pub const CHUNK_SIZE: usize = 10000;

/// Identifies one computed property: the graph it was computed on and its key.
pub struct PropertyId {
    pub graph_name: String,
    pub property_key: String,
}

impl View for PropertyId {
    type V = (Seq<char>, Seq<char>);

    open spec fn view(&self) -> (Seq<char>, Seq<char>) {
        (self.graph_name@, self.property_key@)
    }
}

impl StoreKey for PropertyId {
    fn same_key(&self, other: &Self) -> (r: bool) {
        self.graph_name == other.graph_name && self.property_key == other.property_key
    }
}

impl PropertyId {
    pub fn new(graph_name: String, property_key: String) -> (r: PropertyId)
        ensures
            r@ == (graph_name@, property_key@),
    {
        PropertyId { graph_name, property_key }
    }

    /// A second identifier with the same names.
    pub fn copy(&self) -> (r: PropertyId)
        ensures
            r@ == self@,
    {
        PropertyId { graph_name: self.graph_name.clone(), property_key: self.property_key.clone() }
    }
}

/// The single column that a stored property holds.
pub struct ColumnSchema {
    pub column_name: String,
}

/// A computed property: its column and its values, cut into chunks in node order.
pub struct PropertyEntry<V> {
    pub schema: ColumnSchema,
    pub chunks: Vec<Vec<V>>,
}

/// The values of `chunks`, one chunk after the other.
pub open spec fn flatten<V>(chunks: Seq<Vec<V>>) -> Seq<V>
    decreases chunks.len(),
{
    if chunks.len() == 0 {
        Seq::empty()
    } else {
        flatten(chunks.drop_last()) + chunks.last()@
    }
}

/// The number of chunks of at most `limit` rows that `n` rows need.
pub open spec fn chunk_count(n: int, limit: int) -> int {
    (n + limit - 1) / limit
}

/// Every chunk holds `limit` values but the last, which holds between one and `limit`.
pub open spec fn chunked_at<V>(chunks: Seq<Vec<V>>, limit: int) -> bool {
    forall|i: int|
        0 <= i < chunks.len() ==> 0 < (#[trigger] chunks[i])@.len() <= limit && (i + 1 < chunks.len()
            ==> chunks[i]@.len() == limit)
}

proof fn lemma_chunk_count(c: int, n: int, limit: int)
    requires
        limit > 0,
        0 <= c,
        c * limit >= n,
        n > (c - 1) * limit,
    ensures
        c == chunk_count(n, limit),
{
    assert((c - 1) * limit + 1 <= n + limit - 1 + 1 - limit) by (nonlinear_arith)
        requires
            n > (c - 1) * limit,
    ;
    assert(c * limit <= n + limit - 1) by (nonlinear_arith)
        requires
            n > (c - 1) * limit,
            limit > 0,
    ;
    assert(n + limit - 1 < (c + 1) * limit) by (nonlinear_arith)
        requires
            c * limit >= n,
            limit > 0,
    ;
    vstd::arithmetic::div_mod::lemma_div_is_ordered_by_denominator(0, 1, 1);
    lemma_div_between(n + limit - 1, c, limit);
}

proof fn lemma_div_between(x: int, c: int, d: int)
    requires
        d > 0,
        c * d <= x < (c + 1) * d,
    ensures
        x / d == c,
{
    vstd::arithmetic::div_mod::lemma_fundamental_div_mod(x, d);
    let q = x / d;
    let r = x % d;
    assert(0 <= r < d);
    if q < c {
        assert(q * d + d <= c * d) by (nonlinear_arith)
            requires
                q < c,
                d > 0,
        ;
        assert(x == d * q + r);
        assert(d * q == q * d) by (nonlinear_arith);
    } else if q > c {
        assert((c + 1) * d <= q * d) by (nonlinear_arith)
            requires
                q > c,
                d > 0,
        ;
        assert(d * q == q * d) by (nonlinear_arith);
    }
}

/// Cuts `values` into chunks of `limit` rows, keeping their order.
pub fn into_chunks<V: Copy>(values: &Vec<V>, limit: usize) -> (r: Vec<Vec<V>>)
    requires
        limit > 0,
    ensures
        flatten(r@) == values@,
        r@.len() == chunk_count(values@.len() as int, limit as int),
        chunked_at(r@, limit as int),
{
    let n = values.len();
    let mut chunks: Vec<Vec<V>> = Vec::new();
    let mut start: usize = 0;
    while start < n
        invariant
            n == values@.len(),
            limit > 0,
            start <= n,
            flatten(chunks@) == values@.subrange(0, start as int),
            start == chunks@.len() * limit,
            chunked_at(chunks@, limit as int),
            forall|i: int| 0 <= i < chunks@.len() ==> (#[trigger] chunks@[i])@.len() == limit,
        decreases n - start,
    {
        let end: usize = if n - start > limit {
            start + limit
        } else {
            n
        };
        let mut chunk: Vec<V> = Vec::new();
        let mut i: usize = start;
        while i < end
            invariant
                start <= i <= end,
                end <= n,
                n == values@.len(),
                chunk@ == values@.subrange(start as int, i as int),
            decreases end - i,
        {
            chunk.push(values[i]);
            i = i + 1;
        }
        let ghost prev = chunks@;
        chunks.push(chunk);
        proof {
            assert(chunks@.drop_last() =~= prev);
            assert(values@.subrange(0, end as int) =~= values@.subrange(0, start as int)
                + values@.subrange(start as int, end as int));
            if end < n {
                assert(end == chunks@.len() * limit) by (nonlinear_arith)
                    requires
                        end == start + limit,
                        start == prev.len() * limit,
                        chunks@.len() == prev.len() + 1,
                ;
            }
        }
        if end == n {
            proof {
                assert(chunked_at(chunks@, limit as int));
                assert(values@.subrange(0, n as int) =~= values@);
                assert(chunks@.len() * limit >= n && n > (chunks@.len() - 1) * limit)
                    by (nonlinear_arith)
                    requires
                        n - start <= limit,
                        start < n,
                        start == prev.len() * limit,
                        chunks@.len() == prev.len() + 1,
                ;
                lemma_chunk_count(chunks@.len() as int, n as int, limit as int);
            }
            return chunks;
        }
        start = end;
    }
    proof {
        assert(values@.subrange(0, n as int) =~= values@);
        assert(n > (chunks@.len() - 1) * limit) by (nonlinear_arith)
            requires
                n == chunks@.len() * limit,
                limit > 0,
        ;
        lemma_chunk_count(chunks@.len() as int, n as int, limit as int);
    }
    chunks
}

/// The graphs held under their names.
pub struct GraphCatalog {
    graphs: KeyedStore<String, Arc<GraphVariant>>,
}

impl GraphCatalog {
    pub closed spec fn wf(&self) -> bool {
        &&& self.graphs.wf()
        &&& forall|k: Seq<char>| #[trigger]
            self.graphs.view().contains_key(k) ==> self.graphs.view()[k].wf()
    }

    /// The graphs by name.
    pub closed spec fn view(&self) -> Map<Seq<char>, GraphVariant> {
        self.graphs.view().map_values(|g: Arc<GraphVariant>| *g)
    }

    pub fn new() -> (r: GraphCatalog)
        ensures
            r.wf(),
            r.view() == Map::<Seq<char>, GraphVariant>::empty(),
    {
        let r = GraphCatalog { graphs: KeyedStore::new() };
        assert(r.view() =~= Map::<Seq<char>, GraphVariant>::empty());
        r
    }

    /// Stores `graph` under `name`, replacing any graph stored under it before.
    pub fn insert(&mut self, name: String, graph: GraphVariant)
        requires
            old(self).wf(),
            graph.wf(),
        ensures
            final(self).wf(),
            final(self).view() == old(self).view().insert(name@, graph),
    {
        let ghost k = name@;
        self.graphs.insert(name, Arc::new(graph));
        assert(self.view() =~= old(self).view().insert(k, graph));
    }

    /// The graph stored under `name`, if any.
    pub fn get(&self, name: &String) -> (r: Option<&Arc<GraphVariant>>)
        requires
            self.wf(),
        ensures
            r.is_some() == self.view().contains_key(name@),
            r.is_some() ==> **r.unwrap() == self.view()[name@] && (**r.unwrap()).wf(),
    {
        self.graphs.get(name)
    }

    pub fn len(&self) -> (r: usize)
        requires
            self.wf(),
        ensures
            r == self.view().len(),
    {
        assert(self.view().dom() =~= self.graphs.view().dom());
        self.graphs.len()
    }
}

/// The computed properties held under their identifiers.
pub struct PropertyStore<V> {
    entries: KeyedStore<PropertyId, PropertyEntry<V>>,
}

impl<V> PropertyStore<V> {
    pub closed spec fn wf(&self) -> bool {
        self.entries.wf()
    }

    /// The entries by (graph name, property key).
    pub closed spec fn view(&self) -> Map<(Seq<char>, Seq<char>), PropertyEntry<V>> {
        self.entries.view()
    }

    pub fn new() -> (r: PropertyStore<V>)
        ensures
            r.wf(),
            r.view() == Map::<(Seq<char>, Seq<char>), PropertyEntry<V>>::empty(),
    {
        PropertyStore { entries: KeyedStore::new() }
    }

    /// Stores `entry` under `id`, replacing any entry stored under it before.
    pub fn insert(&mut self, id: PropertyId, entry: PropertyEntry<V>)
        requires
            old(self).wf(),
        ensures
            final(self).wf(),
            final(self).view() == old(self).view().insert(id@, entry),
    {
        self.entries.insert(id, entry)
    }

    /// The entry stored under `id`, if any.
    pub fn get(&self, id: &PropertyId) -> (r: Option<&PropertyEntry<V>>)
        requires
            self.wf(),
        ensures
            r.is_some() == self.view().contains_key(id@),
            r.is_some() ==> *r.unwrap() == self.view()[id@],
    {
        self.entries.get(id)
    }
}

/// Storing a graph under a name replaces whatever that name held: afterwards the name
/// yields the new graph, never the one before it, and every other name keeps its graph.
pub proof fn lemma_insert_replaces(
    before: GraphCatalog,
    after: GraphCatalog,
    name: Seq<char>,
    graph: GraphVariant,
)
    requires
        after.view() == before.view().insert(name, graph),
    ensures
        after.view().contains_key(name),
        after.view()[name] == graph,
        after.view().dom() == before.view().dom().insert(name),
        forall|k: Seq<char>|
            k != name && before.view().contains_key(k) ==> #[trigger] after.view()[k]
                == before.view()[k],
{
}

} // verus!
