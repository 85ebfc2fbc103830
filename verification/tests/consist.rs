use railweave::consist::{
    consist_assets, consist_file_assets, msts_import_ending, parse_members, ConsistFile, ConsistSource, PlacedMember,
};
use railweave::model::AssetKind;

#[test]
fn parses_engine_wagon_order_and_flip() {
    let members = parse_members(
        r#"Train (
  TrainCfg (
    Demo
    Engine ( UiD ( 1 ) EngineData ( Motor EMU ) )
    Wagon ( Flip ( ) WagonData ( Trailer EMU ) UiD ( 2 ) )
  )
)"#,
    );
    assert_eq!(members.len(), 2);
    assert!(members[0].is_engine);
    assert_eq!(members[0].name, "Motor");
    assert!(!members[0].flipped);
    assert!(!members[1].is_engine);
    assert_eq!(members[1].name, "Trailer");
    assert!(members[1].flipped);
    assert_eq!(members[1].uid, Some(2));
}

#[test]
fn member_without_data_block_is_skipped_and_unclosed_block_stops_the_scan() {
    let members = parse_members(
        "Engine ( UiD ( 7 ) ) Wagon ( WagonData ( Box FREIGHT ) UiD ( -3 ) ) Engine ( EngineData ( Loco DIESEL )",
    );
    assert_eq!(members.len(), 1);
    assert_eq!(members[0].name, "Box");
    assert_eq!(members[0].folder, "FREIGHT");
    assert_eq!(members[0].uid, Some(-3));
}

#[test]
fn consist_members_become_numbered_rolling_stock_assets() {
    let members = parse_members(
        "Train ( Engine ( UiD ( 1 ) EngineData ( Motor EMU ) ) Wagon ( Flip ( ) WagonData ( Trailer EMU ) UiD ( 2 ) ) )",
    );
    let placed: Vec<PlacedMember> = members
        .into_iter()
        .enumerate()
        .map(|(index, member)| PlacedMember {
            path: format!("TRAINS/TRAINSET/EMU/{}.{}", member.name, if index == 0 { "eng" } else { "wag" }),
            exists: index == 0,
            member,
        })
        .collect();
    let files = vec![ConsistSource {
        path: "TRAINS/CONSISTS/demo.con".to_string(),
        stem: "demo".to_string(),
        members: placed,
    }];
    let (assets, diagnostics) = consist_assets(42, &files);
    assert_eq!(assets.len(), 2);
    assert_eq!(assets[0].id, 42);
    assert_eq!(assets[1].id, 43);
    assert_eq!(assets[0].kind, AssetKind::RollingStock);
    assert_eq!(assets[0].name.as_deref(), Some("EMU/Motor"));
    assert_eq!(
        assets[1].provenance.source_id.as_deref(),
        Some("consist=demo:member=1:role=wagon:uid=2:flipped=true")
    );
    assert_eq!(
        assets[0].provenance.source_id.as_deref(),
        Some("consist=demo:member=0:role=engine:uid=1:flipped=false")
    );
    assert_eq!(diagnostics.len(), 2);
    assert_eq!(diagnostics[0].code, "RW225_MSTS_CONSIST_MEMBERS");
    assert_eq!(
        diagnostics[0].message,
        "resolved 2 ordered member reference(s) from 1 MSTS consist file(s); member order, engine/wagon role and flip state are preserved in provenance"
    );
    assert_eq!(diagnostics[1].code, "RW226_MSTS_CONSIST_MEMBER_MISSING");
    assert!(diagnostics[1].message.starts_with("1 consist member file reference(s)"));
}

#[test]
fn member_ids_saturate_at_the_largest_id() {
    let members = parse_members("Wagon ( WagonData ( A X ) ) Wagon ( WagonData ( B X ) )");
    let placed: Vec<PlacedMember> = members
        .into_iter()
        .map(|member| PlacedMember { path: String::new(), exists: true, member })
        .collect();
    let files = vec![ConsistSource { path: String::new(), stem: "s".to_string(), members: placed }];
    let (assets, diagnostics) = consist_assets(u64::MAX, &files);
    assert_eq!(assets[0].id, u64::MAX);
    assert_eq!(assets[1].id, u64::MAX);
    assert_eq!(
        assets[0].provenance.source_id.as_deref(),
        Some("consist=s:member=0:role=wagon:uid=unknown:flipped=false")
    );
    assert_eq!(diagnostics.len(), 1);
}

#[test]
fn consist_files_become_numbered_rolling_stock_assets() {
    let files = vec![
        ConsistFile { path: "T/CONSISTS/a.con".into(), stem: Some("a".into()) },
        ConsistFile { path: "T/CONSISTS/b.con".into(), stem: Some("b".into()) },
    ];
    let assets = consist_file_assets(u64::MAX - 1, &files);
    let got: Vec<(u64, Option<String>, String)> =
        assets.iter().map(|a| (a.id, a.name.clone(), a.provenance.source_path.clone())).collect();
    assert_eq!(
        got,
        vec![
            (u64::MAX - 1, Some("a".to_string()), "T/CONSISTS/a.con".to_string()),
            (u64::MAX, Some("b".to_string()), "T/CONSISTS/b.con".to_string()),
        ]
    );
    assert!(assets.iter().all(|a| a.kind == AssetKind::RollingStock && a.provenance.source_id.is_none()));

    let (naming, note) = msts_import_ending(false, false, true, Some("stock".into()));
    let (title, description) = naming.unwrap();
    assert_eq!(title.as_deref(), Some("stock"));
    assert_eq!(description, "Imported from MSTS/OpenRails rolling-stock content");
    assert_eq!(note.unwrap().code, "RW208_MSTS_ASSET_IMPORT_SCOPE");
    let (naming, note) = msts_import_ending(true, false, false, Some("route".into()));
    assert!(naming.is_none() && note.is_none());
    assert!(msts_import_ending(false, true, false, None).0.is_none());
}
