use railweave::consist::{member_file_name, trains_ancestor, vehicle_candidates, vehicle_summary, ConsistMember};
use railweave::detect::Detection;
use railweave::importer::{
    adapter_note, after_tdb, check_adapter_output, check_adapter_schema, check_msts_content,
    multiple_paths_note, ADAPTER_OUTPUT_LIMIT,
};
use railweave::model::{AssetKind, AssetRef, Diagnostic, ImportError, Provenance, Severity, SourceFormat, IR_SCHEMA_VERSION};
use railweave::openbve::{route_gauge, train_cars};
use railweave::report::{diagnostic_line, scan_report};
use railweave::route::{is_known_msts_straight, is_main_edge, EdgeLink};

fn provenance(format: SourceFormat, path: &str, id: Option<&str>) -> Provenance {
    Provenance { source_format: format, source_path: path.to_string(), source_id: id.map(str::to_string) }
}

#[test]
fn adapter_output_and_schema_are_checked() {
    assert!(check_adapter_output(ADAPTER_OUTPUT_LIMIT).is_ok());
    let e = check_adapter_output(ADAPTER_OUTPUT_LIMIT + 1).err().unwrap();
    assert_eq!(e.code, "RW007_ADAPTER_OUTPUT_LIMIT");
    assert!(check_adapter_schema(IR_SCHEMA_VERSION).is_ok());
    let e = check_adapter_schema(IR_SCHEMA_VERSION + 1).err().unwrap();
    assert_eq!(e.code, "RW009_ADAPTER_SCHEMA");
    assert_eq!(
        e.message,
        format!("adapter returned IR schema {}, expected {}", IR_SCHEMA_VERSION + 1, IR_SCHEMA_VERSION)
    );
    let d = adapter_note("bin/adapter");
    assert_eq!((d.severity, d.code.as_str()), (Severity::Info, "RW010_EXTERNAL_ADAPTER"));
    assert_eq!(d.message, "source imported through external adapter bin/adapter");
}

#[test]
fn msts_sources_need_a_database_path_or_consist() {
    assert!(check_msts_content(0, 0, 1).is_ok());
    assert!(check_msts_content(1, 0, 0).is_ok());
    let e = check_msts_content(0, 0, 0).err().unwrap();
    assert_eq!(e.code, "RW200_MSTS_CONTENT_NOT_FOUND");
}

#[test]
fn a_failed_track_database_falls_back_to_a_path() {
    let (imported, note) = after_tdb(Ok(()), 2, 0, "a.tdb").ok().unwrap();
    assert!(imported);
    let note = note.unwrap();
    assert_eq!(note.code, "RW215_MSTS_MULTIPLE_TDB");
    assert_eq!(note.message, "2 TDB files found; imported a.tdb. Pass a specific .tdb file to choose another track database.");
    assert_eq!(after_tdb(Ok(()), 1, 3, "a.tdb").ok().unwrap().1.map(|d| d.code), None);

    let failure = || ImportError::new("RW211_MSTS_TDB_EMPTY", "nothing".to_string());
    let (imported, note) = after_tdb(Err(failure()), 1, 1, "a.tdb").ok().unwrap();
    assert!(!imported);
    assert_eq!(
        note.unwrap().message,
        "TDB import failed (RW211_MSTS_TDB_EMPTY: nothing); falling back to PAT topology because a supported path is available"
    );
    let e = after_tdb(Err(failure()), 1, 0, "a.tdb").err().unwrap();
    assert_eq!((e.code.as_str(), e.message.as_str()), ("RW211_MSTS_TDB_EMPTY", "nothing"));
}

#[test]
fn several_paths_are_reported() {
    assert!(multiple_paths_note(1, "p.pat").is_none());
    let d = multiple_paths_note(3, "p.pat").unwrap();
    assert_eq!(d.code, "RW204_MSTS_MULTIPLE_PATHS");
    assert_eq!(d.message, "3 PAT files found; imported p.pat. Pass a specific .pat file to choose another path.");
}

#[test]
fn consist_members_name_their_vehicle_files() {
    let engine = ConsistMember { name: "Motor".into(), folder: "EMU".into(), is_engine: true, flipped: false, uid: None };
    let wagon = ConsistMember { name: "Box".into(), folder: "F".into(), is_engine: false, flipped: true, uid: Some(2) };
    assert_eq!(member_file_name(&engine), "Motor.eng");
    assert_eq!(member_file_name(&wagon), "Box.wag");
    let components: Vec<String> = ["root", "Trains", "CONSISTS", "a.con"].iter().map(|s| s.to_string()).collect();
    assert_eq!(trains_ancestor(&components), Some(2));
    let components: Vec<String> = ["root", "CONSISTS", "a.con"].iter().map(|s| s.to_string()).collect();
    assert_eq!(trains_ancestor(&components), None);
}

#[test]
fn vehicle_files_are_the_first_msts_rolling_stock_per_id() {
    let asset = |id: u64, kind: AssetKind, format: SourceFormat, path: &str| AssetRef {
        id,
        kind,
        name: None,
        provenance: provenance(format, path, None),
    };
    let assets = vec![
        asset(1, AssetKind::RollingStock, SourceFormat::MstsOpenRails, "T/TRAINSET/EMU/Motor.eng"),
        asset(2, AssetKind::RollingStock, SourceFormat::MstsOpenRails, "T/TRAINSET/EMU/a.con"),
        asset(1, AssetKind::RollingStock, SourceFormat::MstsOpenRails, "T/TRAINSET/EMU/Again.wag"),
        asset(3, AssetKind::Mesh, SourceFormat::MstsOpenRails, "T/x.wag"),
        asset(4, AssetKind::RollingStock, SourceFormat::BveOpenBve, "T/y.eng"),
        asset(5, AssetKind::RollingStock, SourceFormat::MstsOpenRails, "T/TRAINSET/F/Box.WAG"),
    ];
    assert_eq!(vehicle_candidates(&assets), vec![0, 5]);
    // Only earlier MSTS rolling stock hides a later vehicle file with the same id.
    let others = vec![
        asset(7, AssetKind::Mesh, SourceFormat::MstsOpenRails, "T/x.s"),
        asset(7, AssetKind::RollingStock, SourceFormat::MstsOpenRails, "T/TRAINSET/E/a.eng"),
        asset(8, AssetKind::RollingStock, SourceFormat::BveOpenBve, "T/train.dat"),
        asset(8, AssetKind::RollingStock, SourceFormat::MstsOpenRails, "T/TRAINSET/E/b.wag"),
        asset(9, AssetKind::RollingStock, SourceFormat::MstsOpenRails, "T/CONSISTS/c.con"),
        asset(9, AssetKind::RollingStock, SourceFormat::MstsOpenRails, "T/TRAINSET/E/c.eng"),
    ];
    assert_eq!(vehicle_candidates(&others), vec![1, 3]);
    assert!(vehicle_summary(0).is_none());
    let d = vehicle_summary(2).unwrap();
    assert_eq!(d.code, "RW230_MSTS_VEHICLE_METADATA");
    assert_eq!(d.message, "parsed basic physical/brake metadata for 2 MSTS/OpenRails ENG/WAG vehicle file(s)");
}

#[test]
fn route_gauge_is_the_narrowest_with_a_note_unless_single() {
    let (g, note) = route_gauge(&[None, None]);
    assert_eq!(g, 1435);
    let note = note.unwrap();
    assert_eq!((note.severity, note.code.as_str()), (Severity::Info, "RW407_OPENBVE_DEFAULT_GAUGE"));
    let (g, note) = route_gauge(&[Some(1000), None, Some(1000)]);
    assert_eq!(g, 1000);
    assert!(note.is_none());
    let (g, note) = route_gauge(&[Some(1435), Some(1000), Some(1435), Some(1668)]);
    assert_eq!(g, 1000);
    let note = note.unwrap();
    assert_eq!(note.code, "RW408_OPENBVE_CONFLICTING_GAUGE");
    assert_eq!(note.message, "selected path contains multiple gauges {1000, 1435, 1668}; exporting 1000 mm");
}

#[test]
fn train_cars_count_engines_and_trailers() {
    assert_eq!(train_cars(&[], 0), (1, 0, true));
    assert_eq!(train_cars(&[true, false, false], 3), (1, 2, true));
    assert_eq!(train_cars(&[false, true, true], 1), (2, 1, false));
    assert_eq!(train_cars(&[false], 4), (1, 3, false));
}

#[test]
fn main_and_straight_edges_are_recognised_by_source_id() {
    let main = EdgeLink { id: 1, from: 1, to: 2, provenance: Some(provenance(SourceFormat::TrackCsv, "t.csv", Some("row:3:main"))) };
    let plain = EdgeLink { id: 2, from: 1, to: 3, provenance: Some(provenance(SourceFormat::TrackCsv, "t.csv", Some("row:4"))) };
    assert!(is_main_edge(&main));
    assert!(!is_main_edge(&plain));
    assert!(!is_main_edge(&EdgeLink { id: 3, from: 1, to: 2, provenance: None }));
    let straight = Some(provenance(SourceFormat::MstsOpenRails, "r.tdb", Some("TrackNode:2:TrVectorSection:0:geometry=straight")));
    assert!(is_known_msts_straight(&straight));
    let other = Some(provenance(SourceFormat::BveOpenBve, "r.csv", Some("x:geometry=straight")));
    assert!(!is_known_msts_straight(&other));
    assert!(!is_known_msts_straight(&None));
}

#[test]
fn diagnostics_and_scans_are_reported_as_lines() {
    let d = Diagnostic::new(Severity::Warning, "RW406_OPENBVE_BRANCHES_DROPPED", "two left".to_string());
    assert_eq!(diagnostic_line(&d), "warning [RW406_OPENBVE_BRANCHES_DROPPED]: two left");
    assert_eq!(
        scan_report("empty", &Vec::new()),
        vec!["Source: empty", "Format: unknown", "No known simulator fingerprints were found."]
    );
    let mut best = Detection::none("msts", SourceFormat::MstsOpenRails);
    best.add(60, "found route.trk");
    best.add(20, "found WORLD directory");
    let mut other = Detection::none("bve", SourceFormat::BveOpenBve);
    other.add(30, "found route.csv");
    assert_eq!(
        scan_report("r", &vec![best, other]),
        vec![
            "Source: r",
            "Best match: MSTS/OpenRails (80%)",
            "  - found route.trk",
            "  - found WORLD directory",
            "Alternative: BVE/OpenBVE (30%)",
            "  - found route.csv",
        ]
    );
}

#[test]
fn findings_add_up_to_at_most_100_in_order() {
    let mut d = Detection::none("x", SourceFormat::Unknown);
    assert_eq!((d.confidence, d.evidence.len()), (0, 0));
    d.add(60, "first");
    d.add(30, "second");
    assert_eq!(d.confidence, 90);
    d.add(200, "third");
    d.add(255, "fourth");
    assert_eq!(d.confidence, 100);
    assert_eq!(d.evidence, vec!["first", "second", "third", "fourth"]);
    assert_eq!((d.detector, d.format), ("x", SourceFormat::Unknown));
}
