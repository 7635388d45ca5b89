use std::sync::Arc;
use vstd::prelude::*;
use vstd::string::StringExecFns;

use crate::catalog::{
    chunk_count, chunked_at, flatten, into_chunks, ColumnSchema, GraphCatalog, PropertyEntry,
    PropertyId, PropertyStore, CHUNK_SIZE,
};
use crate::codec::{
    parse_command, parse_compute, parse_create, Algorithm, ComputeConfig, CreateGraphCommand,
    CreateGraphFromFileConfig, FileFormat, FlightAction,
};
use crate::error::{ErrorKind, ProtocolError};
use crate::formats::{file_edges, file_readable, read_edges};
use crate::graph::{arranged, distinct_edges, ids_fit, stored_count, neighbors_of, node_count_of, CsrLayout, GraphVariant, Orientation};

verus! {

/// A value of an integer column can serve as a node id: it is present, not negative,
/// and below the largest `usize`.
pub open spec fn id_in_range(x: i64) -> bool {
    0 <= x && x < usize::MAX
}

/// Some row of the two columns holds a null.
pub open spec fn has_null(sources: Seq<Option<i64>>, targets: Seq<Option<i64>>) -> bool {
    exists|i: int| 0 <= i < sources.len() && (sources[i] is None || targets[i] is None)
}

/// Some row of the two columns holds an id that is negative or too large.
pub open spec fn has_bad_id(sources: Seq<Option<i64>>, targets: Seq<Option<i64>>) -> bool {
    exists|i: int|
        0 <= i < sources.len() && (!id_in_range(sources[i]->0) || !id_in_range(targets[i]->0))
}

/// The edge pairs of two columns that hold only valid ids.
pub open spec fn pairs_of(sources: Seq<Option<i64>>, targets: Seq<Option<i64>>) -> Seq<(usize, usize)> {
    Seq::new(sources.len(), |i: int| (sources[i]->0 as usize, targets[i]->0 as usize))
}

/// The most edges that an announced count makes room for in advance; a larger
/// announcement is only a hint and the list grows as edges arrive.
pub const PRESIZE_LIMIT: u64 = 1048576;

/// The edges received so far in a streamed ingest.
pub struct EdgeList {
    edges: Vec<(usize, usize)>,
}

impl EdgeList {
    pub closed spec fn view(&self) -> Seq<(usize, usize)> {
        self.edges@
    }

    /// An empty list; `capacity` is how many edges the client announced.
    pub fn with_capacity(capacity: u64) -> (r: EdgeList)
        ensures
            r.view() == Seq::<(usize, usize)>::empty(),
            ids_fit(r.view()),
    {
        let cap: usize = if capacity <= PRESIZE_LIMIT {
            capacity as usize
        } else {
            PRESIZE_LIMIT as usize
        };
        EdgeList { edges: Vec::with_capacity(cap) }
    }

    /// Appends the rows of one batch of (source, target) columns. A null is an internal
    /// fault, a negative or oversized id or columns of unequal length a bad argument; on
    /// a fault nothing is appended.
    pub fn push_batch(&mut self, sources: &Vec<Option<i64>>, targets: &Vec<Option<i64>>) -> (r: Result<(), ProtocolError>)
        requires
            ids_fit(old(self).view()),
        ensures
            ids_fit(final(self).view()),
            sources@.len() != targets@.len() ==> r is Err && r->Err_0.kind == ErrorKind::InvalidArgument,
            sources@.len() == targets@.len() && has_null(sources@, targets@) ==> r is Err
                && r->Err_0.kind == ErrorKind::Internal,
            sources@.len() == targets@.len() && !has_null(sources@, targets@) && has_bad_id(
                sources@,
                targets@,
            ) ==> r is Err && r->Err_0.kind == ErrorKind::InvalidArgument,
            r is Ok <==> (sources@.len() == targets@.len() && !has_null(sources@, targets@)
                && !has_bad_id(sources@, targets@)),
            r is Ok ==> final(self).view() == old(self).view() + pairs_of(sources@, targets@),
            r is Err ==> final(self).view() == old(self).view(),
    {
        if sources.len() != targets.len() {
            return Err(ProtocolError::invalid_argument("Source and target columns differ in length"));
        }
        let n = sources.len();
        let mut i: usize = 0;
        while i < n
            invariant
                n == sources@.len(),
                n == targets@.len(),
                0 <= i <= n,
                forall|j: int| 0 <= j < i ==> sources@[j] is Some && targets@[j] is Some,
                self.edges@ == old(self).edges@,
                ids_fit(self.edges@),
            decreases n - i,
        {
            if sources[i].is_none() || targets[i].is_none() {
                return Err(ProtocolError::internal("Unexpected null value in edge batch"));
            }
            i = i + 1;
        }
        let mut i: usize = 0;
        while i < n
            invariant
                n == sources@.len(),
                n == targets@.len(),
                0 <= i <= n,
                !has_null(sources@, targets@),
                forall|j: int|
                    0 <= j < i ==> id_in_range(sources@[j]->0) && id_in_range(targets@[j]->0),
                self.edges@ == old(self).edges@,
                ids_fit(self.edges@),
            decreases n - i,
        {
            let s = sources[i].unwrap();
            let t = targets[i].unwrap();
            if s < 0 || t < 0 || s as u64 >= usize::MAX as u64 || t as u64 >= usize::MAX as u64 {
                return Err(ProtocolError::invalid_argument("Node id out of range"));
            }
            i = i + 1;
        }
        let ghost before = self.edges@;
        let mut i: usize = 0;
        while i < n
            invariant
                n == sources@.len(),
                n == targets@.len(),
                0 <= i <= n,
                !has_null(sources@, targets@),
                !has_bad_id(sources@, targets@),
                ids_fit(before),
                self.edges@ == before + pairs_of(sources@, targets@).subrange(0, i as int),
                ids_fit(self.edges@),
            decreases n - i,
        {
            let s = sources[i].unwrap();
            let t = targets[i].unwrap();
            proof {
                assert(id_in_range(sources@[i as int]->0) && id_in_range(targets@[i as int]->0));
            }
            self.edges.push((s as usize, t as usize));
            i = i + 1;
            assert(self.edges@ =~= before + pairs_of(sources@, targets@).subrange(0, i as int));
        }
        assert(pairs_of(sources@, targets@).subrange(0, n as int) =~= pairs_of(sources@, targets@));
        Ok(())
    }

    pub fn len(&self) -> (r: usize)
        ensures
            r == self.view().len(),
    {
        self.edges.len()
    }

    /// The edges held by the bytes of a graph file in `format`; a file that cannot be
    /// read in that format is a bad argument.
    pub fn from_file_bytes(bytes: &Vec<u8>, format: FileFormat) -> (r: Result<EdgeList, ProtocolError>)
        ensures
            r is Ok <==> file_readable(bytes@, format),
            r is Ok ==> r->Ok_0.view() == file_edges(bytes@, format) && ids_fit(r->Ok_0.view()),
            r is Err ==> r->Err_0.kind == ErrorKind::InvalidArgument,
    {
        let edges = read_edges(bytes, format)?;
        Ok(EdgeList { edges })
    }

    /// Builds the graph of the received edges. Fails only where the edges are too many
    /// for the adjacency structure to be counted in a `usize`.
    pub fn build(&self, orientation: Orientation, layout: CsrLayout) -> (r: Result<GraphVariant, ProtocolError>)
        requires
            ids_fit(self.view()),
        ensures
            r is Ok <==> self.view().len() * 2 <= usize::MAX,
            r is Err ==> r->Err_0.kind == ErrorKind::Internal,
            r is Ok ==> ({
                let g = r->Ok_0;
                &&& g.wf()
                &&& g.spec_orientation() == orientation
                &&& g.csr().layout == layout
                &&& g.csr().node_count == node_count_of(self.view())
                &&& g.csr().entry_count() == stored_count(g.spec_edge_count(), orientation)
                &&& g.spec_edge_count() <= self.view().len()
                &&& layout != CsrLayout::Deduplicated ==> g.spec_edge_count() == self.view().len()
                &&& layout != CsrLayout::Deduplicated ==> forall|v: int|
                    0 <= v < g.csr().node_count ==> arranged(
                        #[trigger] g.csr().neighbors(v),
                        neighbors_of(self.view(), v, orientation),
                        layout,
                    )
                &&& layout == CsrLayout::Deduplicated ==> exists|d: Seq<(usize, usize)>|
                    distinct_edges(d, self.view(), orientation) && g.spec_edge_count() == d.len()
            }),
    {
        if self.edges.len() > usize::MAX / 2 {
            return Err(ProtocolError::internal("Edge list too large"));
        }
        Ok(GraphVariant::from_edge_list(&self.edges, orientation, layout))
    }
}

/// What creating a graph reports.
#[derive(Clone, Copy, Debug, PartialEq, Eq, Structural)]
pub struct CreateActionResult {
    pub node_count: usize,
    pub edge_count: usize,
}

/// A protocol action that the service offers.
pub struct ActionType {
    pub action_type: String,
    pub description: String,
}

/// The orientation that an algorithm needs.
pub open spec fn required_orientation(a: Algorithm) -> Orientation {
    match a {
        Algorithm::PageRank(_) => Orientation::Directed,
        Algorithm::TriangleCount => Orientation::Undirected,
    }
}

/// The graph analytics service: the graphs by name and the computed properties, whose
/// values are of type `V`.
pub struct FlightServiceImpl<V> {
    graph_catalog: GraphCatalog,
    property_store: PropertyStore<V>,
}

impl<V> FlightServiceImpl<V> {
    /// Both stores are well formed, and every stored property is cut into chunks of
    /// `CHUNK_SIZE` rows.
    pub closed spec fn wf(&self) -> bool {
        &&& self.graph_catalog.wf()
        &&& self.property_store.wf()
        &&& forall|k: (Seq<char>, Seq<char>)| #[trigger]
            self.property_store.view().contains_key(k) ==> chunked_at(
                self.property_store.view()[k].chunks@,
                CHUNK_SIZE as int,
            )
    }

    /// The stored graphs by name.
    pub closed spec fn graphs(&self) -> Map<Seq<char>, GraphVariant> {
        self.graph_catalog.view()
    }

    /// The stored properties by (graph name, property key).
    pub closed spec fn properties(&self) -> Map<(Seq<char>, Seq<char>), PropertyEntry<V>> {
        self.property_store.view()
    }

    /// A service that holds nothing yet.
    pub fn new() -> (r: Self)
        ensures
            r.wf(),
            r.graphs() == Map::<Seq<char>, GraphVariant>::empty(),
            r.properties() == Map::<(Seq<char>, Seq<char>), PropertyEntry<V>>::empty(),
    {
        FlightServiceImpl { graph_catalog: GraphCatalog::new(), property_store: PropertyStore::new() }
    }

    /// Stores a constructed graph under `name`, replacing any graph of that name, and
    /// reports its size.
    pub fn commit_graph(&mut self, name: String, graph: GraphVariant) -> (r: CreateActionResult)
        requires
            old(self).wf(),
            graph.wf(),
        ensures
            final(self).wf(),
            final(self).graphs() == old(self).graphs().insert(name@, graph),
            final(self).properties() == old(self).properties(),
            r.node_count == graph.csr().node_count,
            r.edge_count == graph.spec_edge_count(),
    {
        let result = CreateActionResult { node_count: graph.node_count(), edge_count: graph.edge_count() };
        self.graph_catalog.insert(name, graph);
        result
    }

    /// Reads the command that opens a streamed ingest from its descriptor payload.
    pub fn begin_ingest(descriptor: Option<&Vec<u8>>) -> (r: Result<(CreateGraphCommand, EdgeList), ProtocolError>)
        ensures
            descriptor is None ==> r is Err && r->Err_0.kind == ErrorKind::InvalidArgument,
            descriptor is Some ==> match r {
                Ok((c, e)) => parse_command(descriptor.unwrap()@) == Some(c@) && e.view() == Seq::<
                    (usize, usize),
                >::empty() && ids_fit(e.view()),
                Err(err) => parse_command(descriptor.unwrap()@) is None && err.kind
                    == ErrorKind::InvalidArgument,
            },
    {
        match descriptor {
            None => Err(ProtocolError::invalid_argument("Missing flight descriptor")),
            Some(bytes) => {
                let command = CreateGraphCommand::decode(bytes)?;
                let edges = EdgeList::with_capacity(command.edge_count);
                Ok((command, edges))
            },
        }
    }

    /// Looks up the graph that a compute request names and checks that its orientation
    /// suits the algorithm. The lookup does not compute: the caller runs the algorithm
    /// on the graph it is handed.
    pub fn begin_compute(&self, config: &ComputeConfig) -> (r: Result<&Arc<GraphVariant>, ProtocolError>)
        requires
            self.wf(),
        ensures
            !self.graphs().contains_key(config.graph_name@) ==> r is Err && r->Err_0.kind
                == ErrorKind::NotFound,
            self.graphs().contains_key(config.graph_name@) && self.graphs()[config.graph_name@].spec_orientation()
                != required_orientation(config.algorithm) ==> r is Err && r->Err_0.kind
                == ErrorKind::InvalidArgument,
            r is Ok <==> self.graphs().contains_key(config.graph_name@)
                && self.graphs()[config.graph_name@].spec_orientation() == required_orientation(
                config.algorithm,
            ),
            r is Ok ==> **r->Ok_0 == self.graphs()[config.graph_name@] && (**r->Ok_0).wf(),
            r is Err && r->Err_0.kind == ErrorKind::InvalidArgument && config.algorithm is PageRank
                ==> r->Err_0.message@ == "Page Rank requires a directed graph"@,
            r is Err && r->Err_0.kind == ErrorKind::InvalidArgument && config.algorithm is TriangleCount
                ==> r->Err_0.message@ == "Triangle count requires an undirected graph"@,
    {
        let graph = match self.graph_catalog.get(&config.graph_name) {
            Some(g) => g,
            None => return Err(ProtocolError::not_found("Graph not found")),
        };
        let orientation = (**graph).orientation();
        match config.algorithm {
            Algorithm::PageRank(_) => {
                if orientation != Orientation::Directed {
                    return Err(ProtocolError::invalid_argument("Page Rank requires a directed graph"));
                }
            },
            Algorithm::TriangleCount => {
                if orientation != Orientation::Undirected {
                    return Err(
                        ProtocolError::invalid_argument("Triangle count requires an undirected graph"),
                    );
                }
            },
        }
        Ok(graph)
    }

    /// Stores the per-node values of a finished computation under (graph name, property
    /// key), cut into chunks of `CHUNK_SIZE` rows in node order, and returns the new
    /// property's identifier.
    pub fn store_property(&mut self, graph_name: &String, property_key: &String, column_name: &str, values: &Vec<V>) -> (r: PropertyId)
        where
            V: Copy,
        requires
            old(self).wf(),
        ensures
            final(self).wf(),
            r@ == (graph_name@, property_key@),
            final(self).graphs() == old(self).graphs(),
            final(self).properties().dom() == old(self).properties().dom().insert(r@),
            forall|k: (Seq<char>, Seq<char>)|
                k != r@ && old(self).properties().contains_key(k) ==> (#[trigger] final(self).properties()[k])
                    == old(self).properties()[k],
            ({
                let e = final(self).properties()[r@];
                &&& e.schema.column_name@ == column_name@
                &&& flatten(e.chunks@) == values@
                &&& e.chunks@.len() == chunk_count(values@.len() as int, CHUNK_SIZE as int)
                &&& chunked_at(e.chunks@, CHUNK_SIZE as int)
            }),
    {
        let chunks = into_chunks(values, CHUNK_SIZE);
        let entry = PropertyEntry { schema: ColumnSchema { column_name: String::from_str(column_name) }, chunks };
        let id = PropertyId::new(graph_name.clone(), property_key.clone());
        let result = id.copy();
        self.property_store.insert(id, entry);
        result
    }

    /// The stored property under `id`: its column, then its chunks in order. Nothing is
    /// computed here.
    pub fn get_property(&self, id: &PropertyId) -> (r: Result<&PropertyEntry<V>, ProtocolError>)
        requires
            self.wf(),
        ensures
            match r {
                Ok(e) => self.properties().contains_key(id@) && *e == self.properties()[id@]
                    && chunked_at(e.chunks@, CHUNK_SIZE as int),
                Err(err) => !self.properties().contains_key(id@) && err.kind == ErrorKind::NotFound,
            },
    {
        match self.property_store.get(id) {
            Some(e) => Ok(e),
            None => Err(ProtocolError::not_found("Property not found")),
        }
    }

    /// The stored property that a ticket names: its column, then its chunks in order.
    /// Nothing is computed here.
    pub fn do_get(&self, ticket: &Vec<u8>) -> (r: Result<&PropertyEntry<V>, ProtocolError>)
        requires
            self.wf(),
        ensures
            crate::codec::parse_ticket(ticket@) is None ==> r is Err && r->Err_0.kind
                == ErrorKind::InvalidArgument,
            crate::codec::parse_ticket(ticket@) is Some ==> match r {
                Ok(e) => self.properties().contains_key(crate::codec::parse_ticket(ticket@).unwrap())
                    && *e == self.properties()[crate::codec::parse_ticket(ticket@).unwrap()]
                    && chunked_at(e.chunks@, CHUNK_SIZE as int),
                Err(err) => !self.properties().contains_key(
                    crate::codec::parse_ticket(ticket@).unwrap(),
                ) && err.kind == ErrorKind::NotFound,
            },
    {
        let id = PropertyId::from_ticket(ticket)?;
        self.get_property(&id)
    }
}

impl<V> Default for FlightServiceImpl<V> {
    fn default() -> (r: Self)
        ensures
            r.wf(),
            r.graphs() == Map::<Seq<char>, GraphVariant>::empty(),
            r.properties() == Map::<(Seq<char>, Seq<char>), PropertyEntry<V>>::empty(),
    {
        Self::new()
    }
}

/// Reads an action from its type name and body: "create" loads a graph from a file,
/// "compute" runs an algorithm; any other name is a bad argument.
pub fn decode_action(action_type: &str, body: &Vec<u8>) -> (r: Result<FlightAction, ProtocolError>)
    ensures
        action_type@ == "create"@ ==> match r {
            Ok(FlightAction::Create(c)) => parse_create(body@) == Some(c@),
            Ok(FlightAction::Compute(_)) => false,
            Err(e) => parse_create(body@) is None && e.kind == ErrorKind::InvalidArgument,
        },
        action_type@ == "compute"@ ==> match r {
            Ok(FlightAction::Compute(c)) => parse_compute(body@) == Some(c@),
            Ok(FlightAction::Create(_)) => false,
            Err(e) => parse_compute(body@) is None && e.kind == ErrorKind::InvalidArgument,
        },
        action_type@ != "create"@ && action_type@ != "compute"@ ==> r is Err && r->Err_0.kind
            == ErrorKind::InvalidArgument,
{
    proof {
        reveal_strlit("create");
        reveal_strlit("compute");
        assert("create"@[1] != "compute"@[1]);
    }
    let at = String::from_str(action_type);
    let create = String::from_str("create");
    let compute = String::from_str("compute");
    if at == create {
        Ok(FlightAction::Create(CreateGraphFromFileConfig::decode(body)?))
    } else if at == compute {
        Ok(FlightAction::Compute(ComputeConfig::decode(body)?))
    } else {
        Err(ProtocolError::invalid_argument("Unknown action type"))
    }
}

/// The actions that the service lists: a single, fixed entry for "create".
pub fn list_actions() -> (r: Vec<ActionType>)
    ensures
        r@.len() == 1,
        r@[0].action_type@ == "create"@,
        r@[0].description@ == "creates an in-memory graph"@,
{
    let mut r: Vec<ActionType> = Vec::new();
    r.push(
        ActionType {
            action_type: String::from_str("create"),
            description: String::from_str("creates an in-memory graph"),
        },
    );
    r
}

/// Handshakes are not supported.
pub fn handshake() -> (r: ProtocolError)
    ensures
        r.kind == ErrorKind::Unimplemented,
{
    ProtocolError::unimplemented()
}

/// Listing flights is not supported.
pub fn list_flights() -> (r: ProtocolError)
    ensures
        r.kind == ErrorKind::Unimplemented,
{
    ProtocolError::unimplemented()
}

/// Flight information is not supported.
pub fn get_flight_info() -> (r: ProtocolError)
    ensures
        r.kind == ErrorKind::Unimplemented,
{
    ProtocolError::unimplemented()
}

/// Schema lookups are not supported.
pub fn get_schema() -> (r: ProtocolError)
    ensures
        r.kind == ErrorKind::Unimplemented,
{
    ProtocolError::unimplemented()
}

/// Bidirectional exchange is not supported.
pub fn do_exchange() -> (r: ProtocolError)
    ensures
        r.kind == ErrorKind::Unimplemented,
{
    ProtocolError::unimplemented()
}

} // verus!
