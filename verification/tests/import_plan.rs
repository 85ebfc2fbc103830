use railweave::importer::{
    adapter_search, bridge_choice, bridge_missing, bridge_note, import_path, trainz_bridge_notes, trainz_config_entry,
    BridgeKind, Importer,
};
use railweave::model::SourceFormat;
use railweave::paths::SourceEntry;
use railweave::trainz::parse_trainz_config;

fn entry(path: &str, is_dir: bool, contents: Option<&str>) -> SourceEntry {
    let components: Vec<String> = path.split('/').map(str::to_string).collect();
    SourceEntry {
        name: components.last().cloned().unwrap_or_default(),
        components,
        is_file: !is_dir,
        is_dir,
        head: contents.map(|text| text.as_bytes().to_vec()),
    }
}

#[test]
fn missing_and_unknown_paths_are_refused() {
    let e = import_path(&[], false, false, "/nowhere").err().unwrap();
    assert_eq!(e.code, "RW001_PATH_NOT_FOUND");
    assert_eq!(e.message, "path does not exist: /nowhere");
    let e = import_path(&[entry("d/readme.txt", false, None)], true, false, "d").err().unwrap();
    assert_eq!(e.code, "RW002_UNKNOWN_FORMAT");
    assert_eq!(e.to_message(), "RW002_UNKNOWN_FORMAT: no supported simulator format detected at d");
}

#[test]
fn the_most_confident_format_picks_the_importer() {
    let msts = vec![entry("r/route.trk", false, None), entry("r/a.pat", false, None)];
    assert_eq!(import_path(&msts, true, false, "r").ok(), Some(Importer::Msts));
    let bve = vec![entry("r/route.csv", false, Some("With Track\n0, .Pitch 10\n"))];
    assert_eq!(import_path(&bve, true, false, "r").ok(), Some(Importer::Bve));
    let trainz = vec![entry("r/config.txt", false, Some("kuid <kuid:1:2>\nkind map\n"))];
    assert_eq!(import_path(&trainz, true, false, "r").ok(), Some(Importer::GameBridge(SourceFormat::Trainz)));
}

#[test]
fn bridge_files_are_chosen_by_kind_then_scan_order() {
    let entries = vec![
        entry("r/track.railweave.csv", false, None),
        entry("r/b.GEOJSON", false, None),
        entry("r/dir.railweave.json", true, None),
        entry("r/a.geojson", false, None),
        entry("r/notes.txt", false, None),
    ];
    assert_eq!(bridge_choice(&entries), Some((1, BridgeKind::GeoJson)));
    let csv = vec![entry("r/RailWeave-Track.csv", false, None)];
    assert_eq!(bridge_choice(&csv), Some((0, BridgeKind::TrackCsv)));
    assert_eq!(bridge_choice(&[entry("r/x.csv", false, None)]), None);
}

#[test]
fn bridge_messages_name_the_format() {
    let e = bridge_missing(SourceFormat::RailWorks);
    assert_eq!(e.code, "RW003_IMPORT_NEEDS_ADAPTER");
    assert!(e.message.starts_with("Train Simulator / RailWorks was detected, but this installation needs"));
    let d = bridge_note(SourceFormat::Trainz, "pkg/route.geojson");
    assert_eq!(d.code, "RW137_GAME_BRIDGE");
    assert_eq!(d.message, "detected Trainz source and imported its portable bridge pkg/route.geojson");
}

#[test]
fn trainz_bridge_keeps_identity_and_reports_loss() {
    let entries = vec![entry("r/x.txt", false, None), entry("r/sub", true, None), entry("r/CONFIG.txt", false, None)];
    assert_eq!(trainz_config_entry(&entries), Some(2));
    let parsed = parse_trainz_config("kind map\nusername \"Synthetic Valley\"\nkuid <kuid:123:456>\ntrainz-build 4.6\nbroken\n");
    let (title, notes) = trainz_bridge_notes("pkg/config.txt", &parsed);
    assert_eq!(title.as_deref(), Some("Synthetic Valley"));
    assert_eq!(notes[0].code, "RW138_TRAINZ_METADATA");
    assert_eq!(
        notes[0].message,
        "preserved Trainz asset metadata from pkg/config.txt (<kuid:123:456>, 4.6, map)"
    );
    assert_eq!(notes.len(), 2);
    assert_eq!(notes[1].code, "RW139_TRAINZ_METADATA_LOSS");
    assert!(notes[1].message.starts_with("pkg/config.txt line 5: "));
    let bare = parse_trainz_config("");
    let (title, notes) = trainz_bridge_notes("c.txt", &bare);
    assert!(title.is_none());
    assert_eq!(notes[0].message, "preserved Trainz asset metadata from c.txt");
}

#[test]
fn portable_files_given_as_the_source_pick_their_importers() {
    let one = |name: &str| vec![entry(&format!("r/{name}"), false, None)];
    assert_eq!(import_path(&one("demo.railweave.csv"), true, false, "x").ok(), Some(Importer::TrackCsv));
    assert_eq!(import_path(&one("RailWeave-Track.csv"), true, false, "x").ok(), Some(Importer::TrackCsv));
    assert_eq!(import_path(&one("line.GeoJSON"), true, false, "x").ok(), Some(Importer::GeoJson));
    assert_eq!(import_path(&one("p.railweave.json"), true, false, "x").ok(), Some(Importer::Interchange));
    // Inside a detected game folder the same file is a bridge, not the source.
    let game = vec![entry("r/RouteProperties.xml", false, None), entry("r/p.railweave.json", false, None)];
    assert_eq!(import_path(&game, true, false, "r").ok(), Some(Importer::GameBridge(SourceFormat::RailWorks)));
    // Alone with other files, a portable file is not taken as the source.
    let mixed = vec![entry("r/a.geojson", false, None), entry("r/notes.txt", false, None)];
    assert_eq!(import_path(&mixed, true, false, "r").err().unwrap().code, "RW002_UNKNOWN_FORMAT");
}

#[test]
fn unknown_sources_go_to_a_discovered_adapter() {
    let private = vec![entry("root/route.privatefmt", false, None)];
    assert_eq!(import_path(&private, true, true, "route").ok(), Some(Importer::Adapter));
    assert_eq!(import_path(&private, true, false, "route").err().unwrap().code, "RW002_UNKNOWN_FORMAT");
    let msts = vec![entry("r/route.trk", false, None)];
    assert_eq!(import_path(&msts, true, true, "r").ok(), Some(Importer::Msts));
    assert!(import_path(&private, false, true, "route").is_err());

    let components: Vec<String> = ["/", "tmp", "root", "route.PrivateFmt"].iter().map(|s| s.to_string()).collect();
    let search = adapter_search(&components, false).unwrap();
    assert_eq!(search.program, "railweave-adapter-privatefmt");
    assert_eq!(search.depths, vec![3, 2, 1]);
    let search = adapter_search(&components, true).unwrap();
    assert_eq!(search.depths, vec![4, 3, 2, 1]);
    let bare: Vec<String> = ["tmp", "README"].iter().map(|s| s.to_string()).collect();
    assert!(adapter_search(&bare, false).is_none());
    assert!(adapter_search(&Vec::new(), true).is_none());
}
