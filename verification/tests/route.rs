use railweave::model::{Provenance, SourceFormat};
use railweave::route::{select_driveable_path, EdgeLink};

fn edge(id: u64, from: u64, to: u64, source_id: Option<&str>) -> EdgeLink {
    EdgeLink {
        id,
        from,
        to,
        provenance: source_id.map(|s| Provenance {
            source_format: SourceFormat::TrackCsv,
            source_path: "t.csv".to_string(),
            source_id: Some(s.to_string()),
        }),
    }
}

#[test]
fn follows_the_single_chain_from_its_entry_node() {
    let nodes = [1, 2, 3];
    let edges = [edge(11, 2, 3, None), edge(10, 1, 2, None)];
    let (path, diagnostics) = select_driveable_path(&nodes, &edges).ok().unwrap();
    assert_eq!(path, vec![1, 0]);
    assert!(diagnostics.is_empty());
}

#[test]
fn branches_prefer_the_main_path_then_the_smallest_id() {
    let nodes = [1, 2, 3, 4];
    let edges = [edge(5, 1, 2, None), edge(4, 1, 3, None), edge(6, 3, 4, Some("x:main")), edge(7, 3, 2, None)];
    let (path, diagnostics) = select_driveable_path(&nodes, &edges).ok().unwrap();
    assert_eq!(path, vec![1, 2]);
    let messages: Vec<&str> = diagnostics.iter().map(|d| d.message.as_str()).collect();
    assert_eq!(
        messages,
        vec![
            "node 1 has 2 outgoing edges; selected edge 4 by stable edge-id order",
            "node 3 has 2 outgoing edges; selected edge 6 because it is marked as the main path",
            "selected 2 of 4 track edges for player rail 0; remaining branches are not exported yet",
        ]
    );
}

#[test]
fn broken_graphs_are_refused() {
    let e = select_driveable_path(&[1], &[]).err().unwrap();
    assert_eq!(e.code, "RW400_OPENBVE_EMPTY_NETWORK");
    let e = select_driveable_path(&[1], &[edge(3, 1, 2, None)]).err().unwrap();
    assert_eq!(e.code, "RW401_OPENBVE_DANGLING_EDGE");
    assert_eq!(e.message, "edge 3 references missing node 1 -> 2");
    let e = select_driveable_path(&[1, 2], &[edge(1, 1, 2, None), edge(2, 2, 1, None)]).err().unwrap();
    assert_eq!(e.code, "RW402_OPENBVE_NO_PATH_START");
    let e = select_driveable_path(&[1, 2, 3], &[edge(1, 1, 2, None), edge(2, 2, 3, None), edge(3, 3, 2, None)])
        .err()
        .unwrap();
    assert_eq!(e.code, "RW404_OPENBVE_PATH_LOOP");
    assert_eq!(e.to_message(), "RW404_OPENBVE_PATH_LOOP: selected driveable path loops at node 2");
}

#[test]
fn several_entry_nodes_are_reported() {
    let nodes = [1, 2, 3];
    let edges = [edge(1, 3, 2, None), edge(2, 1, 2, None)];
    let (path, diagnostics) = select_driveable_path(&nodes, &edges).ok().unwrap();
    assert_eq!(path, vec![1]);
    assert_eq!(diagnostics[0].code, "RW403_OPENBVE_MULTIPLE_STARTS");
    assert_eq!(diagnostics[0].message, "2 possible path starts found; selected node 1 deterministically");
}
