use railweave::detect::{
    built_in_detectors, detect_all, prefix_request, BuiltInDetector, BveDetector, Detection,
    LoksimDetector, MstsDetector, RailWorksDetector, SourceDetector, TrainzDetector,
};
use railweave::model::SourceFormat;
use railweave::paths::SourceEntry;
use railweave::scan::{bve_route_candidates, files_with_extension, msts_pat_candidates, tsection_candidates};

fn entry(path: &str, is_dir: bool, contents: Option<&[u8]>) -> SourceEntry {
    let components: Vec<String> = path.split('/').map(str::to_string).collect();
    SourceEntry {
        name: components.last().cloned().unwrap_or_default(),
        components,
        is_file: !is_dir,
        is_dir,
        head: contents.map(|bytes| bytes.to_vec()),
    }
}

fn file(path: &str) -> SourceEntry {
    entry(path, false, None)
}

fn dir(path: &str) -> SourceEntry {
    entry(path, true, None)
}

fn text(path: &str, contents: &str) -> SourceEntry {
    entry(path, false, Some(contents.as_bytes()))
}

#[test]
fn detects_msts_route_layout() {
    let entries = vec![file("root/route.trk"), file("root/route.tdb"), dir("root/WORLD")];
    let detection = MstsDetector.detect(&entries);
    assert!(detection.confidence >= 70);
}

#[test]
fn detects_trainz_config() {
    let entries = vec![text("root/config.txt", "kuid <kuid:1:2>\nkind track\n")];
    let detection = TrainzDetector.detect(&entries);
    assert!(detection.confidence >= 70);
}

#[test]
fn detects_openbve_train() {
    let entries = vec![text("root/train.dat", "OPENBVE2000\n"), text("root/panel.animated", "Version 1.0\n")];
    let detection = BveDetector.detect(&entries);
    assert!(detection.confidence >= 50);
}

#[test]
fn msts_evidence_adds_up_in_rule_order() {
    let entries = vec![file("root/route.trk"), file("root/route.tdb"), dir("root/WORLD")];
    let detection = MstsDetector.detect(&entries);
    assert_eq!(detection.confidence, 77);
    assert_eq!(detection.detector, "msts-openrails");
    assert_eq!(detection.format, SourceFormat::MstsOpenRails);
    assert_eq!(
        detection.evidence,
        vec![
            "found MSTS .trk route file".to_string(),
            "found track database (.tdb)".to_string(),
            "found WORLD directory".to_string(),
        ]
    );
}

#[test]
fn confidence_saturates_at_one_hundred() {
    let mut detection = Detection::none("probe", SourceFormat::Unknown);
    detection.add(60, "first");
    detection.add(60, "second");
    detection.add(255, "third");
    assert_eq!(detection.confidence, 100);
    assert_eq!(detection.evidence.len(), 3);
    let entries = vec![
        file("root/a.trk"),
        file("root/a.tdb"),
        file("root/a.rdb"),
        dir("root/world"),
        dir("root/paths"),
        file("root/a.pat"),
        dir("root/activities"),
        file("root/a.con"),
    ];
    assert_eq!(MstsDetector.detect(&entries).confidence, 100);
}

#[test]
fn directories_do_not_count_as_files() {
    let entries = vec![dir("root/route.trk"), file("root/WORLD")];
    let detection = MstsDetector.detect(&entries);
    assert_eq!(detection.confidence, 0);
    assert!(detection.evidence.is_empty());
}

#[test]
fn bve_panel_cfg_counts_only_without_panel_animated() {
    let both = vec![file("t/panel.animated"), file("t/PANEL.CFG")];
    assert_eq!(BveDetector.detect(&both).confidence, 25);
    let cfg = vec![file("t/panel.cfg")];
    assert_eq!(BveDetector.detect(&cfg).confidence, 15);
}

#[test]
fn railworks_needs_both_layout_directories() {
    let one = vec![dir("r/Routes")];
    assert_eq!(RailWorksDetector.detect(&one).confidence, 0);
    let both = vec![dir("r/Routes"), dir("r/Content"), file("r/RouteProperties.xml")];
    assert_eq!(RailWorksDetector.detect(&both).confidence, 80);
}

#[test]
fn loksim_packages_are_recognised() {
    let entries = vec![file("l/a.L3DPACK"), file("l/b.l3dobj")];
    assert_eq!(LoksimDetector.detect(&entries).confidence, 100);
}

#[test]
fn detect_all_ranks_by_confidence_and_keeps_ties_in_detector_order() {
    let entries = vec![
        file("root/route.trk"),
        text("root/config.txt", "kuid <kuid:1:2>\nkind track\n"),
        file("root/x.l3dobj"),
    ];
    let detections = detect_all(&entries);
    let order: Vec<(&str, u8)> = detections.iter().map(|d| (d.detector, d.confidence)).collect();
    assert_eq!(order, vec![("trainz", 75), ("loksim3d", 50), ("msts-openrails", 45)]);

    let tied = vec![dir("root/routes"), dir("root/content"), file("root/x.rdb"), dir("root/activities")];
    let detections = detect_all(&tied);
    let order: Vec<(&str, u8)> = detections.iter().map(|d| (d.detector, d.confidence)).collect();
    assert_eq!(order, vec![("msts-openrails", 15), ("railworks", 15)]);
}

#[test]
fn detect_all_drops_detectors_without_evidence() {
    let entries = vec![file("root/readme.txt")];
    assert!(detect_all(&entries).is_empty());
}

#[test]
fn built_in_detectors_run_in_fixed_order() {
    let ids: Vec<&str> = built_in_detectors().iter().map(|d| d.id()).collect();
    assert_eq!(
        ids,
        vec!["msts-openrails", "trainz", "bve-openbve", "railworks", "loksim3d", "railweave-json", "geojson", "railweave-track-csv"]
    );
    assert_eq!(BuiltInDetector::Bve.format(), SourceFormat::BveOpenBve);
    assert_eq!(BuiltInDetector::TrackCsv.format(), SourceFormat::TrackCsv);
}

#[test]
fn only_route_csv_and_config_files_are_read() {
    assert_eq!(prefix_request(&file("a/Route.CSV")), Some(262144));
    assert_eq!(prefix_request(&file("a/CONFIG.TXT")), Some(65536));
    assert_eq!(prefix_request(&file("a/notes.txt")), None);
}

#[test]
fn trainz_config_prefix_is_limited_and_case_insensitive() {
    let mut late = vec![b' '; 70_000];
    late.extend_from_slice(b"kuid kind");
    let entries = vec![entry("root/config.txt", false, Some(&late))];
    assert_eq!(TrainzDetector.detect(&entries).confidence, 0);
    let upper = vec![text("root/Config.txt", "KUID <kuid:1:2>\nKIND track\n")];
    assert_eq!(TrainzDetector.detect(&upper).confidence, 75);
}

#[test]
fn utf16_route_files_are_decoded_before_matching() {
    let mut bytes = vec![0xff, 0xfe];
    for unit in "With Track\n0, .Curve 500; 0\n".encode_utf16() {
        bytes.extend_from_slice(&unit.to_le_bytes());
    }
    let entries = vec![entry("r/route.csv", false, Some(&bytes))];
    assert_eq!(BveDetector.detect(&entries).confidence, 45);
    let mut big = vec![0xfe, 0xff];
    for unit in "track.pitch 5".encode_utf16() {
        big.extend_from_slice(&unit.to_be_bytes());
    }
    let entries = vec![entry("r/route.csv", false, Some(&big))];
    assert_eq!(bve_route_candidates(&entries), vec![0]);
}

#[test]
fn candidates_come_in_path_order() {
    let entries = vec![
        text("r/b/route.csv", "With Track\n"),
        text("r/a/route.csv", "with track\n"),
        text("r/a/other.csv", "plain,data\n"),
        file("r/b.pat"),
        dir("r/a.pat"),
        file("r/z.tdb"),
        file("r/c/x.TDB"),
        file("r/global/tsection.dat"),
        file("r/TSECTION.DAT"),
    ];
    assert_eq!(bve_route_candidates(&entries), vec![1, 0]);
    assert_eq!(msts_pat_candidates(&entries), vec![4, 3]);
    assert_eq!(files_with_extension(&entries, "tdb"), vec![6, 5]);
    assert_eq!(tsection_candidates(&entries), vec![8, 7]);
}

#[test]
fn portable_files_are_detected_when_they_are_the_source() {
    let detections = detect_all(&[file("x/demo.railweave.csv")]);
    let found: Vec<(&str, u8, Vec<String>)> =
        detections.iter().map(|d| (d.detector, d.confidence, d.evidence.clone())).collect();
    assert_eq!(found, vec![("railweave-track-csv", 95, vec!["found RailWeave track CSV file".to_string()])]);
    assert_eq!(detect_all(&[file("x/a.geojson")])[0].format, SourceFormat::GeoJson);
    assert_eq!(detect_all(&[file("x/p.RailWeave.json")])[0].format, SourceFormat::RailWeave);
    assert!(detect_all(&[dir("x/a.geojson")]).is_empty());
    assert!(detect_all(&[file("x/a.geojson"), file("x/b.geojson")]).is_empty());
}
