use railweave::compose::{
    check_schema, check_version, compose_inputs, input_source, require_input, resolve, ComposeSpec,
    InputSource, InputSpec, LoadedInput,
};
use railweave::keymap::KeyMap;
use railweave::model::{AssetKind, AssetRef, Diagnostic, Provenance, Severity, SourceFormat};

fn asset(id: u64, name: &str) -> AssetRef {
    AssetRef {
        id,
        kind: AssetKind::RollingStock,
        name: Some(name.to_string()),
        provenance: Provenance {
            source_format: SourceFormat::MstsOpenRails,
            source_path: format!("{name}.con"),
            source_id: None,
        },
    }
}

fn input(ids: Vec<u64>, assets: Vec<AssetRef>, note: &str) -> LoadedInput {
    LoadedInput {
        entity_ids: ids,
        assets,
        vehicle_assets: Vec::new(),
        consist_members: Vec::new(),
        diagnostics: vec![Diagnostic::new(Severity::Info, note, note.to_string())],
    }
}

#[test]
fn inputs_name_exactly_one_source() {
    let both = InputSpec { source: Some("a".into()), ir: Some("b".into()) };
    let e = input_source("route", &both).err().unwrap();
    assert_eq!(e.code, "RW304_AMBIGUOUS_INPUT");
    assert_eq!(e.message, "input \"route\" must specify exactly one of source or ir");
    let none = InputSpec { source: None, ir: None };
    let e = input_source("route", &none).err().unwrap();
    assert_eq!(e.code, "RW305_EMPTY_INPUT");
    assert_eq!(e.to_message(), "RW305_EMPTY_INPUT: input \"route\" must specify source or ir");
    match input_source("route", &InputSpec { source: None, ir: Some("route.json".into()) }) {
        Ok(InputSource::Ir(path)) => assert_eq!(path, "route.json"),
        _ => panic!("expected an IR input"),
    }
}

#[test]
fn versions_are_checked() {
    assert!(check_version(1).is_ok());
    let e = check_version(2).err().unwrap();
    assert_eq!((e.code.as_str(), e.message.as_str()), ("RW309_MANIFEST_VERSION", "unsupported manifest version 2"));
    assert!(check_schema("stock", 1).is_ok());
    let e = check_schema("stock", 7).err().unwrap();
    assert_eq!(e.code, "RW310_IR_VERSION");
    assert_eq!(e.message, "input \"stock\" uses IR schema 7, expected 1");
}

#[test]
fn manifest_paths_resolve_against_the_manifest_folder() {
    assert_eq!(resolve("/data/project", "route"), "/data/project/route");
    assert_eq!(resolve("/data/project/", "route"), "/data/project/route");
    assert_eq!(resolve("/data/project", "/abs/route"), "/abs/route");
    assert_eq!(resolve("", "route"), "route");
}

#[test]
fn composes_network_metadata_and_renumbered_assets() {
    let mut inputs: KeyMap<LoadedInput> = KeyMap::new();
    inputs.insert("route".to_string(), input(vec![1, 2, 9], vec![asset(3, "old")], "R"));
    inputs.insert("stock".to_string(), input(vec![], vec![asset(1, "ED4M"), asset(2, "ED9M")], "S"));
    let spec = ComposeSpec { network: "route".into(), metadata: Some("stock".into()), assets: vec!["stock".into()] };
    let c = compose_inputs(&spec, &inputs).ok().unwrap();
    assert_eq!(c.network, "route");
    assert_eq!(c.metadata, "stock");
    let ids: Vec<u64> = c.assets.iter().map(|a| a.id).collect();
    assert_eq!(ids, vec![10, 11]);
    assert_eq!(c.assets[0].name.as_deref(), Some("ED4M"));
    let codes: Vec<&str> = c.diagnostics.iter().map(|d| d.code.as_str()).collect();
    assert_eq!(codes, vec!["R", "S", "RW300_COMPOSED"]);
    assert_eq!(
        c.diagnostics[2].message,
        "composed network from \"route\", metadata from \"stock\", assets from [stock]"
    );

    let default_spec = ComposeSpec { network: "route".into(), metadata: None, assets: vec![] };
    let c = compose_inputs(&default_spec, &inputs).ok().unwrap();
    assert_eq!(c.metadata, "route");
    assert_eq!(c.assets.len(), 1);
    assert_eq!(c.assets[0].id, 10);
    assert_eq!(
        c.diagnostics[2].message,
        "composed network from \"route\", metadata from \"route\", assets from [route]"
    );
}

#[test]
fn unknown_inputs_are_refused() {
    let mut inputs: KeyMap<LoadedInput> = KeyMap::new();
    inputs.insert("route".to_string(), input(vec![1], vec![], "R"));
    assert!(require_input(&inputs, "route").is_ok());
    let spec = ComposeSpec { network: "route".into(), metadata: None, assets: vec!["route".into(), "missing".into(), "gone".into()] };
    let e = compose_inputs(&spec, &inputs).err().unwrap();
    assert_eq!(e.code, "RW306_UNKNOWN_INPUT");
    assert_eq!(e.message, "composition references unknown input \"missing\"");
    let spec = ComposeSpec { network: "net".into(), metadata: None, assets: vec![] };
    assert_eq!(compose_inputs(&spec, &inputs).err().unwrap().message, "composition references unknown input \"net\"");
}

#[test]
fn vehicles_and_consists_follow_their_renumbered_assets() {
    let mut inputs: KeyMap<LoadedInput> = KeyMap::new();
    inputs.insert("route".to_string(), input(vec![1, 2, 9], vec![], "R"));
    let mut stock = input(vec![], vec![asset(7, "demo"), asset(1, "Motor"), asset(2, "Trailer")], "S");
    stock.vehicle_assets = vec![1, 2];
    stock.consist_members = vec![vec![1, 2], vec![2]];
    inputs.insert("stock".to_string(), stock);
    let mut more = input(vec![], vec![asset(1, "Loco")], "M");
    more.vehicle_assets = vec![1];
    inputs.insert("more".to_string(), more);
    let spec = ComposeSpec { network: "route".into(), metadata: None, assets: vec!["stock".into(), "more".into()] };
    let c = compose_inputs(&spec, &inputs).ok().unwrap();
    let ids: Vec<u64> = c.assets.iter().map(|a| a.id).collect();
    assert_eq!(ids, vec![10, 11, 12, 13]);
    let vehicles: Vec<(&str, usize, u64)> = c.vehicles.iter().map(|v| (v.input.as_str(), v.index, v.asset_id)).collect();
    assert_eq!(vehicles, vec![("stock", 0, 11), ("stock", 1, 12), ("more", 0, 13)]);
    let consists: Vec<(&str, usize, Vec<u64>)> =
        c.consists.iter().map(|k| (k.input.as_str(), k.index, k.members.clone())).collect();
    assert_eq!(consists, vec![("stock", 0, vec![11, 12]), ("stock", 1, vec![12])]);
}

#[test]
fn dangling_vehicle_and_consist_references_are_refused() {
    let mut inputs: KeyMap<LoadedInput> = KeyMap::new();
    inputs.insert("route".to_string(), input(vec![1], vec![], "R"));
    let mut stock = input(vec![], vec![asset(1, "Motor")], "S");
    stock.consist_members = vec![vec![1, 5]];
    inputs.insert("stock".to_string(), stock);
    let spec = ComposeSpec { network: "route".into(), metadata: None, assets: vec!["stock".into()] };
    let e = compose_inputs(&spec, &inputs).err().unwrap();
    assert_eq!(e.code, "RW311_DANGLING_REFERENCE");
    assert_eq!(e.message, "input \"stock\" references missing asset 5");
}
