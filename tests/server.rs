use graph_server::catalog::{into_chunks, GraphCatalog, PropertyId, CHUNK_SIZE};
use graph_server::codec::{
    Algorithm, ComputeConfig, CreateGraphCommand, CreateGraphFromFileConfig, FileFormat,
    FlightAction, PageRankConfig,
};
use graph_server::error::ErrorKind;
use graph_server::gateway::{
    decode_action, do_exchange, get_flight_info, get_schema, handshake, list_actions,
    list_flights, EdgeList, FlightServiceImpl,
};
use graph_server::graph::{Csr, CsrLayout, GraphVariant, Orientation};
use graph_server::triangles::global_triangle_count;

fn column(ids: &[i64]) -> Vec<Option<i64>> {
    ids.iter().map(|&x| Some(x)).collect()
}

fn command(name: &str, orientation: Orientation) -> CreateGraphCommand {
    CreateGraphCommand {
        graph_name: name.to_string(),
        edge_count: 5,
        csr_layout: CsrLayout::Unsorted,
        orientation,
    }
}

fn page_rank() -> Algorithm {
    Algorithm::PageRank(PageRankConfig {
        max_iterations: 20,
        tolerance_bits: 1e-4f64.to_bits(),
        damping_factor_bits: 0.85f32.to_bits(),
    })
}

fn ingest(
    service: &mut FlightServiceImpl<f32>,
    name: &str,
    orientation: Orientation,
    sources: &[i64],
    targets: &[i64],
) -> (usize, usize) {
    let cmd = command(name, orientation);
    let descriptor = cmd.encode();
    let (cmd, mut edges) = FlightServiceImpl::<f32>::begin_ingest(Some(&descriptor)).ok().unwrap();
    edges.push_batch(&column(sources), &column(targets)).ok().unwrap();
    let graph = edges.build(cmd.orientation, cmd.csr_layout).ok().unwrap();
    let result = service.commit_graph(cmd.graph_name.clone(), graph);
    (result.node_count, result.edge_count)
}

#[test]
fn scenario_directed_ingest_then_compute() {
    let mut service: FlightServiceImpl<f32> = FlightServiceImpl::new();
    let (nodes, edges) = ingest(
        &mut service,
        "g1",
        Orientation::Directed,
        &[0, 1, 2, 0, 3],
        &[1, 2, 0, 3, 2],
    );
    assert_eq!(nodes, 4);
    assert_eq!(edges, 5);

    let pr = ComputeConfig {
        graph_name: "g1".to_string(),
        algorithm: page_rank(),
        property_key: "pr".to_string(),
    };
    let graph = service.begin_compute(&pr).ok().unwrap().clone();
    assert_eq!(graph.node_count(), 4);
    let ranks: Vec<f32> = vec![0.1, 0.2, 0.3, 0.4];
    let id = service.store_property(&pr.graph_name, &pr.property_key, "page_rank", &ranks);
    let entry = service.do_get(&id.to_ticket()).ok().unwrap();
    let rows: usize = entry.chunks.iter().map(|c| c.len()).sum();
    assert_eq!(rows, 4);
    assert_eq!(entry.schema.column_name, "page_rank");

    let tc = ComputeConfig {
        graph_name: "g1".to_string(),
        algorithm: Algorithm::TriangleCount,
        property_key: "tc".to_string(),
    };
    let err = service.begin_compute(&tc).err().unwrap();
    assert_eq!(err.kind, ErrorKind::InvalidArgument);
    assert!(err.message.contains("requires an undirected graph"));
}

#[test]
fn node_count_is_distinct_ids_and_edge_count_is_pairs() {
    let mut service: FlightServiceImpl<f32> = FlightServiceImpl::new();
    let (nodes, edges) = ingest(
        &mut service,
        "u",
        Orientation::Undirected,
        &[0, 1, 2, 2],
        &[1, 2, 0, 3],
    );
    assert_eq!(nodes, 4);
    assert_eq!(edges, 4);
}

#[test]
fn undirected_csr_stores_each_edge_twice() {
    let g = Csr::from_edges(&vec![(0, 1), (1, 2)], Orientation::Undirected, CsrLayout::Sorted);
    assert_eq!(g.node_count, 3);
    assert_eq!(g.offsets, vec![0, 1, 3, 4]);
    assert_eq!(g.targets, vec![1, 0, 2, 1]);
    let d = Csr::from_edges(&vec![(0, 1), (1, 2), (0, 2)], Orientation::Directed, CsrLayout::Unsorted);
    assert_eq!(d.offsets, vec![0, 2, 3, 3]);
    assert_eq!(d.targets, vec![1, 2, 2]);
}

#[test]
fn empty_edge_list_gives_empty_graph() {
    let g = GraphVariant::from_edge_list(&vec![], Orientation::Directed, CsrLayout::Unsorted);
    assert_eq!(g.node_count(), 0);
    assert_eq!(g.edge_count(), 0);
}

#[test]
fn insert_under_existing_name_replaces() {
    let mut catalog = GraphCatalog::new();
    let first = GraphVariant::from_edge_list(&vec![(0, 1)], Orientation::Directed, CsrLayout::Unsorted);
    let second =
        GraphVariant::from_edge_list(&vec![(0, 1), (1, 2), (2, 3)], Orientation::Undirected, CsrLayout::Unsorted);
    catalog.insert("g".to_string(), first);
    catalog.insert("g".to_string(), second);
    assert_eq!(catalog.len(), 1);
    let g = catalog.get(&"g".to_string()).unwrap();
    assert_eq!(g.node_count(), 4);
    assert_eq!(g.orientation(), Orientation::Undirected);
    assert!(catalog.get(&"h".to_string()).is_none());
}

#[test]
fn wrong_orientation_leaves_store_unchanged() {
    let mut service: FlightServiceImpl<f32> = FlightServiceImpl::new();
    ingest(&mut service, "u", Orientation::Undirected, &[0, 1], &[1, 2]);
    let pr = ComputeConfig {
        graph_name: "u".to_string(),
        algorithm: page_rank(),
        property_key: "pr".to_string(),
    };
    let err = service.begin_compute(&pr).err().unwrap();
    assert_eq!(err.kind, ErrorKind::InvalidArgument);
    assert_eq!(err.message, "Page Rank requires a directed graph");
    let ticket = PropertyId::new("u".to_string(), "pr".to_string()).to_ticket();
    assert_eq!(service.do_get(&ticket).err().unwrap().kind, ErrorKind::NotFound);

    let tc = ComputeConfig {
        graph_name: "u".to_string(),
        algorithm: Algorithm::TriangleCount,
        property_key: "tc".to_string(),
    };
    assert!(service.begin_compute(&tc).is_ok());
}

#[test]
fn compute_on_unknown_graph_is_not_found() {
    let service: FlightServiceImpl<f32> = FlightServiceImpl::new();
    let tc = ComputeConfig {
        graph_name: "missing".to_string(),
        algorithm: Algorithm::TriangleCount,
        property_key: "tc".to_string(),
    };
    assert_eq!(service.begin_compute(&tc).err().unwrap().kind, ErrorKind::NotFound);
}

#[test]
fn retrieval_streams_chunks_in_order() {
    let mut service: FlightServiceImpl<u64> = FlightServiceImpl::new();
    let values: Vec<u64> = (0..25_001u64).collect();
    let id = service.store_property(&"g".to_string(), &"k".to_string(), "value", &values);
    let entry = service.do_get(&id.to_ticket()).ok().unwrap();
    assert_eq!(entry.chunks.len(), 3);
    assert_eq!(entry.chunks[0].len(), CHUNK_SIZE);
    assert_eq!(entry.chunks[2].len(), 5_001);
    let joined: Vec<u64> = entry.chunks.iter().flatten().copied().collect();
    assert_eq!(joined, values);

    let never = PropertyId::new("g".to_string(), "other".to_string()).to_ticket();
    assert_eq!(service.do_get(&never).err().unwrap().kind, ErrorKind::NotFound);
    assert_eq!(service.do_get(&vec![1, 2, 3]).err().unwrap().kind, ErrorKind::InvalidArgument);
}

#[test]
fn chunking_edges() {
    let empty: Vec<u8> = vec![];
    assert_eq!(into_chunks(&empty, 3).len(), 0);
    let exact: Vec<u8> = vec![1, 2, 3, 4, 5, 6];
    assert_eq!(into_chunks(&exact, 3), vec![vec![1, 2, 3], vec![4, 5, 6]]);
    assert_eq!(into_chunks(&exact, 4), vec![vec![1, 2, 3, 4], vec![5, 6]]);
}

#[test]
fn compute_config_round_trip() {
    let c = ComputeConfig {
        graph_name: "gräph".to_string(),
        algorithm: page_rank(),
        property_key: "pr".to_string(),
    };
    let bytes = c.encode();
    assert_eq!(&bytes[0..8], &[0, 0, 0, 0, 0, 0, 0, 6]);
    let d = ComputeConfig::decode(&bytes).ok().unwrap();
    assert_eq!(d.graph_name, "gräph");
    assert_eq!(d.algorithm, c.algorithm);
    assert_eq!(d.property_key, "pr");

    let t = ComputeConfig {
        graph_name: String::new(),
        algorithm: Algorithm::TriangleCount,
        property_key: "tc".to_string(),
    };
    let d = ComputeConfig::decode(&t.encode()).ok().unwrap();
    assert_eq!(d.graph_name, "");
    assert_eq!(d.algorithm, Algorithm::TriangleCount);
}

#[test]
fn command_and_create_round_trip() {
    let c = command("g1", Orientation::Undirected);
    let d = CreateGraphCommand::decode(&c.encode()).ok().unwrap();
    assert_eq!(d.graph_name, "g1");
    assert_eq!(d.edge_count, 5);
    assert_eq!(d.csr_layout, CsrLayout::Unsorted);
    assert_eq!(d.orientation, Orientation::Undirected);

    let f = CreateGraphFromFileConfig {
        graph_name: "web".to_string(),
        file_format: FileFormat::Graph500,
        path: "/data/web.g500".to_string(),
        csr_layout: CsrLayout::Deduplicated,
        orientation: Orientation::Directed,
    };
    match decode_action("create", &f.encode()).ok().unwrap() {
        FlightAction::Create(d) => {
            assert_eq!(d.graph_name, "web");
            assert_eq!(d.file_format, FileFormat::Graph500);
            assert_eq!(d.path, "/data/web.g500");
            assert_eq!(d.csr_layout, CsrLayout::Deduplicated);
            assert_eq!(d.orientation, Orientation::Directed);
        }
        FlightAction::Compute(_) => panic!("expected a create action"),
    }
}

#[test]
fn malformed_payloads_are_invalid_arguments() {
    let c = command("g1", Orientation::Directed);
    let mut bytes = c.encode();
    bytes.push(0);
    assert_eq!(CreateGraphCommand::decode(&bytes).err().unwrap().kind, ErrorKind::InvalidArgument);
    let mut bytes = c.encode();
    let last = bytes.len() - 1;
    bytes[last] = 7;
    assert_eq!(CreateGraphCommand::decode(&bytes).err().unwrap().kind, ErrorKind::InvalidArgument);
    let bad_utf8: Vec<u8> = vec![0, 0, 0, 0, 0, 0, 0, 1, 0xff, 1, 0, 0, 0, 0, 0, 0, 0, 0];
    assert_eq!(ComputeConfig::decode(&bad_utf8).err().unwrap().kind, ErrorKind::InvalidArgument);
    assert_eq!(
        decode_action("delete", &vec![]).err().unwrap().kind,
        ErrorKind::InvalidArgument
    );
    let missing = FlightServiceImpl::<f32>::begin_ingest(None).err().unwrap();
    assert_eq!(missing.kind, ErrorKind::InvalidArgument);
}

#[test]
fn batch_errors() {
    let mut edges = EdgeList::with_capacity(4);
    let err = edges.push_batch(&vec![Some(0), None], &column(&[1, 2])).err().unwrap();
    assert_eq!(err.kind, ErrorKind::Internal);
    let err = edges.push_batch(&column(&[0, -1]), &column(&[1, 2])).err().unwrap();
    assert_eq!(err.kind, ErrorKind::InvalidArgument);
    let err = edges.push_batch(&column(&[0]), &column(&[1, 2])).err().unwrap();
    assert_eq!(err.kind, ErrorKind::InvalidArgument);
    assert_eq!(edges.len(), 0);
    edges.push_batch(&column(&[0, 1]), &column(&[1, 2])).ok().unwrap();
    edges.push_batch(&column(&[2]), &column(&[0])).ok().unwrap();
    assert_eq!(edges.len(), 3);
}

#[test]
fn static_surface() {
    let actions = list_actions();
    assert_eq!(actions.len(), 1);
    assert_eq!(actions[0].action_type, "create");
    assert_eq!(actions[0].description, "creates an in-memory graph");
    for e in [handshake(), list_flights(), get_flight_info(), get_schema(), do_exchange()] {
        assert_eq!(e.kind, ErrorKind::Unimplemented);
    }
}

#[test]
fn layouts_sort_and_deduplicate() {
    let edges = vec![(0, 2), (0, 1), (0, 2), (1, 0)];
    let sorted = GraphVariant::from_edge_list(&edges, Orientation::Directed, CsrLayout::Sorted);
    assert_eq!(sorted.csr_ref().targets, vec![1, 2, 2, 0]);
    assert_eq!(sorted.edge_count(), 4);
    let dedup = GraphVariant::from_edge_list(&edges, Orientation::Directed, CsrLayout::Deduplicated);
    assert_eq!(dedup.csr_ref().offsets, vec![0, 2, 3, 3]);
    assert_eq!(dedup.csr_ref().targets, vec![1, 2, 0]);
    assert_eq!(dedup.edge_count(), 3);
    let unsorted = GraphVariant::from_edge_list(&edges, Orientation::Directed, CsrLayout::Unsorted);
    assert_eq!(unsorted.csr_ref().targets, vec![2, 1, 2, 0]);
}

#[test]
fn default_service_is_empty() {
    let service: FlightServiceImpl<f32> = Default::default();
    let ticket = PropertyId::new("g".to_string(), "k".to_string()).to_ticket();
    assert_eq!(service.do_get(&ticket).err().unwrap().kind, ErrorKind::NotFound);
}

#[test]
fn edge_list_text_file() {
    let text = b"0 1\n1 2\r\n\n2\t0\n".to_vec();
    let edges = EdgeList::from_file_bytes(&text, FileFormat::EdgeList).ok().unwrap();
    assert_eq!(edges.len(), 3);
    let g = edges.build(Orientation::Directed, CsrLayout::Unsorted).ok().unwrap();
    assert_eq!(g.node_count(), 3);
    assert_eq!(g.csr_ref().targets, vec![1, 2, 0]);

    let odd = b"0 1 2".to_vec();
    let err = EdgeList::from_file_bytes(&odd, FileFormat::EdgeList).err().unwrap();
    assert_eq!(err.kind, ErrorKind::InvalidArgument);
    let junk = b"0 x".to_vec();
    assert!(EdgeList::from_file_bytes(&junk, FileFormat::EdgeList).is_err());
    let huge = b"0 99999999999999999999999".to_vec();
    assert!(EdgeList::from_file_bytes(&huge, FileFormat::EdgeList).is_err());
}

#[test]
fn binary_edge_file() {
    let mut bytes = Vec::new();
    for x in [3u64, 1, 1, 0] {
        bytes.extend_from_slice(&x.to_le_bytes());
    }
    let edges = EdgeList::from_file_bytes(&bytes, FileFormat::Graph500).ok().unwrap();
    let g = edges.build(Orientation::Undirected, CsrLayout::Sorted).ok().unwrap();
    assert_eq!(g.node_count(), 4);
    assert_eq!(g.edge_count(), 2);
    assert_eq!(g.csr_ref().offsets, vec![0, 1, 3, 3, 4]);
    assert_eq!(g.csr_ref().targets, vec![1, 0, 3, 1]);
    bytes.pop();
    assert!(EdgeList::from_file_bytes(&bytes, FileFormat::Graph500).is_err());
}

#[test]
fn undirected_deduplicated_self_loop_counts_once() {
    let g = GraphVariant::from_edge_list(&vec![(0, 0)], Orientation::Undirected, CsrLayout::Deduplicated);
    assert_eq!(g.node_count(), 1);
    assert_eq!(g.edge_count(), 1);
    assert_eq!(g.csr_ref().targets, vec![0, 0]);
    let g = GraphVariant::from_edge_list(
        &vec![(0, 1), (1, 0), (1, 2), (2, 2), (2, 2)],
        Orientation::Undirected,
        CsrLayout::Deduplicated,
    );
    assert_eq!(g.edge_count(), 3);
    assert_eq!(g.csr_ref().offsets, vec![0, 1, 3, 6]);
    assert_eq!(g.csr_ref().targets, vec![1, 0, 2, 1, 2, 2]);
}

#[test]
fn oversized_capacity_hint_does_not_presize() {
    let mut edges = EdgeList::with_capacity(u64::MAX);
    edges.push_batch(&column(&[0]), &column(&[1])).ok().unwrap();
    assert_eq!(edges.len(), 1);
}

#[test]
fn triangle_counts() {
    let triangle = GraphVariant::from_edge_list(
        &vec![(0, 1), (1, 2), (2, 0)],
        Orientation::Undirected,
        CsrLayout::Unsorted,
    );
    assert_eq!(global_triangle_count(triangle.csr_ref()), 1);
    let k4 = GraphVariant::from_edge_list(
        &vec![(0, 1), (0, 2), (0, 3), (1, 2), (1, 3), (2, 3)],
        Orientation::Undirected,
        CsrLayout::Sorted,
    );
    assert_eq!(global_triangle_count(k4.csr_ref()), 4);
    let path = GraphVariant::from_edge_list(&vec![(0, 1), (1, 2)], Orientation::Undirected, CsrLayout::Sorted);
    assert_eq!(global_triangle_count(path.csr_ref()), 0);
}
