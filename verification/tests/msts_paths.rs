use railweave::pat::{pat_name, pat_nodes, pat_topology, PathNode};
use railweave::stf::stf_tokens;

fn tokens(text: &str) -> Vec<Vec<char>> {
    stf_tokens(&text.chars().collect::<Vec<char>>())
}

const SYNTHETIC_PAT: &str = r#"SIMISA@@@@@@@@@@JINX0P0t______
TrackPDPs (
  TrackPDP ( 10 20 0 100 0 1 1 )
  TrackPDP ( 10 20 100 101 0 2 0 )
  TrackPDP ( 11 20 -900 102 0 1 1 )
)
TrackPath (
  Name ( "Synthetic path" )
  TrPathNodes ( 3
    TrPathNode ( 00000000 1 4294967295 0 )
    TrPathNode ( 00000000 2 4294967295 1 )
    TrPathNode ( 00000000 4294967295 4294967295 2 )
  )
)
"#;

#[test]
fn path_nodes_and_name_are_read_from_tokens() {
    let t = tokens(SYNTHETIC_PAT);
    assert_eq!(
        pat_nodes(&t),
        vec![
            PathNode { next_main: 1, next_siding: u32::MAX, pdp_index: 0 },
            PathNode { next_main: 2, next_siding: u32::MAX, pdp_index: 1 },
            PathNode { next_main: u32::MAX, next_siding: u32::MAX, pdp_index: 2 },
        ]
    );
    assert_eq!(pat_name(&t).as_deref(), Some("Synthetic path"));
    assert_eq!(pat_name(&tokens("TrackPath ( TrPathNodes ( 0 ) )")), None);
}

#[test]
fn path_topology_numbers_nodes_then_edges() {
    let nodes = pat_nodes(&tokens(SYNTHETIC_PAT));
    let topology = pat_topology(&nodes, 3, 1, "PATHS/demo.pat");
    assert_eq!(topology.node_ids, vec![Some(1), Some(2), Some(3)]);
    let edges: Vec<(u64, u64, u64, String)> =
        topology.edges.iter().map(|e| (e.id, e.from, e.to, e.source_id.clone())).collect();
    assert_eq!(
        edges,
        vec![
            (4, 1, 2, "TrPathNode:0:main".to_string()),
            (5, 2, 3, "TrPathNode:1:main".to_string()),
        ]
    );
    assert_eq!(topology.diagnostics.len(), 1);
    assert_eq!(topology.diagnostics[0].code, "RW207_MSTS_IMPORT_SCOPE");
}

#[test]
fn path_topology_reports_missing_pdps_and_bad_links() {
    let nodes = vec![
        PathNode { next_main: 1, next_siding: 2, pdp_index: 0 },
        PathNode { next_main: 0, next_siding: 0, pdp_index: 9 },
        PathNode { next_main: 0, next_siding: 0, pdp_index: 1 },
    ];
    let topology = pat_topology(&nodes, 2, 10, "p.pat");
    assert_eq!(topology.node_ids, vec![Some(10), None, Some(11)]);
    let edges: Vec<(u64, u64, u64, String)> =
        topology.edges.iter().map(|e| (e.id, e.from, e.to, e.source_id.clone())).collect();
    assert_eq!(
        edges,
        vec![
            (12, 10, 11, "TrPathNode:0:siding".to_string()),
            (13, 11, 10, "TrPathNode:2:main".to_string()),
        ]
    );
    let notes: Vec<(String, String)> =
        topology.diagnostics.iter().map(|d| (d.code.clone(), d.message.clone())).collect();
    assert_eq!(
        notes,
        vec![
            ("RW205_MSTS_BAD_PDP_REFERENCE".to_string(), "TrPathNode 1 references missing TrackPDP 9".to_string()),
            ("RW206_MSTS_BAD_PATH_REFERENCE".to_string(), "TrPathNode 0 has invalid main link to 1".to_string()),
            (
                "RW207_MSTS_IMPORT_SCOPE".to_string(),
                "current MSTS/OpenRails PAT importer converts waypoint topology using 2048 m MSTS tiles; route-wide TDB geometry is preferred when a supported .tdb is available".to_string()
            ),
        ]
    );
    assert_eq!(
        topology.diagnostics[0].provenance.as_ref().and_then(|p| p.source_id.clone()).as_deref(),
        Some("TrPathNode:1")
    );
}
