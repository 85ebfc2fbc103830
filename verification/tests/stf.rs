use railweave::msts::{
    block_values, first_value, include_paths, mark_geometry, normalized_include, parse_pins,
    parse_source_key, parse_tdb_pins, split_quantity, unit_of, TdbPin, Unit, UnitKind,
};
use railweave::model::{Provenance, SourceFormat};
use railweave::stf::{find_block, matching_paren, parse_i32, parse_u32, parse_usize, stf_tokens};

fn chars(s: &str) -> Vec<char> {
    s.chars().collect()
}

fn tokens(s: &str) -> Vec<Vec<char>> {
    stf_tokens(&chars(s))
}

fn texts(t: &[Vec<char>]) -> Vec<String> {
    t.iter().map(|v| v.iter().collect()).collect()
}

#[test]
fn tokenizer_splits_words_parentheses_and_quotes() {
    let t = tokens("Wagon(Name \"two words\" x\"y )\n\"open");
    assert_eq!(texts(&t), vec!["Wagon", "(", "Name", "two words", "x\"y", ")", "open"]);
    assert!(tokens("  \t\n").is_empty());
    assert_eq!(texts(&tokens("\"\"")), vec![""]);
}

#[test]
fn blocks_close_at_the_matching_parenthesis() {
    let t = tokens("A ( B ( c ) d ) UiD ( 1 )");
    assert_eq!(matching_paren(&t, 1), Some(7));
    assert_eq!(matching_paren(&t, 0), None);
    assert_eq!(matching_paren(&t, 99), None);
    assert_eq!(find_block(&t, &chars("uid")), Some((9, 11)));
    assert_eq!(find_block(&t, &chars("missing")), None);
    let open = tokens("X ( ( )");
    assert_eq!(matching_paren(&open, 1), None);
    assert_eq!(find_block(&open, &chars("x")), None);
}

#[test]
fn integers_parse_as_str_parse_does() {
    assert_eq!(parse_i32(&chars("-2147483648")), Some(i32::MIN));
    assert_eq!(parse_i32(&chars("2147483648")), None);
    assert_eq!(parse_i32(&chars("+17")), Some(17));
    assert_eq!(parse_i32(&chars("-")), None);
    assert_eq!(parse_i32(&chars("1 2")), None);
    assert_eq!(parse_u32(&chars("4294967295")), Some(u32::MAX));
    assert_eq!(parse_u32(&chars("4294967296")), None);
    assert_eq!(parse_u32(&chars("-0")), None);
    assert_eq!(parse_u32(&chars("")), None);
    assert_eq!(parse_usize(&chars("+007")), Some(7));
    assert_eq!(parse_usize(&chars("12a")), None);
}

#[test]
fn tdb_pins_skip_the_counts_and_unreadable_pins() {
    let t = tokens("TrPins ( 1 2 TrPin ( 5 1 ) TrPin ( 6 x ) TrPin ( 7 -1 ) )");
    assert_eq!(
        parse_tdb_pins(&t),
        vec![TdbPin { link: 5, direction: 1 }, TdbPin { link: 7, direction: -1 }]
    );
    assert_eq!(parse_pins(&t), vec![5, 6, 7]);
    assert!(parse_tdb_pins(&tokens("TrJunctionNode ( 0 )")).is_empty());
}

#[test]
fn source_keys_name_a_node_and_a_section() {
    assert_eq!(parse_source_key("TrackNode:12:TrVectorSection:3"), Some((12, 3)));
    assert_eq!(parse_source_key("TrackNode:12:TrVectorSection:3:geometry=curve"), Some((12, 3)));
    assert_eq!(parse_source_key("TrackNode:12:TrVectorSection"), None);
    assert_eq!(parse_source_key("Node:12:TrVectorSection:3"), None);
    assert_eq!(parse_source_key("TrackNode:-1:TrVectorSection:3"), None);
}

#[test]
fn geometry_is_marked_once() {
    let mut p = Provenance {
        source_format: SourceFormat::MstsOpenRails,
        source_path: "route.tdb".to_string(),
        source_id: Some("TrackNode:1:TrVectorSection:0".to_string()),
    };
    mark_geometry(&mut p, "curve");
    assert_eq!(p.source_id.as_deref(), Some("TrackNode:1:TrVectorSection:0:geometry=curve"));
    mark_geometry(&mut p, "straight");
    assert_eq!(p.source_id.as_deref(), Some("TrackNode:1:TrVectorSection:0:geometry=curve"));
    let mut none = Provenance { source_format: SourceFormat::MstsOpenRails, source_path: String::new(), source_id: None };
    mark_geometry(&mut none, "curve");
    assert!(none.source_id.is_none());
}

#[test]
fn includes_are_listed_and_resolved() {
    let t = tokens("include ( \"..\\..\\Global\\tsection.dat\" ) SIMISA Include ( local.dat )");
    assert_eq!(include_paths(&t), vec!["..\\..\\Global\\tsection.dat".to_string(), "local.dat".to_string()]);
    assert_eq!(normalized_include("ROUTES/Demo", "..\\Global\\tsection.dat"), "ROUTES/Demo/../Global/tsection.dat");
    assert_eq!(normalized_include("ROUTES/Demo/", "/abs/t.dat"), "/abs/t.dat");
}

#[test]
fn block_values_give_the_tokens_inside() {
    let t = tokens("Wagon ( Size ( 3m 4m 20m ) Mass ( 48t ) Empty ( ) )");
    let size = block_values(&t, "size").unwrap();
    assert_eq!(texts(&size), vec!["3m", "4m", "20m"]);
    assert_eq!(first_value(&t, "MASS"), Some(chars("48t")));
    assert_eq!(first_value(&t, "empty"), None);
    assert_eq!(block_values(&t, "power"), None);
}

#[test]
fn quantities_split_into_number_and_unit() {
    let q = split_quantity("  48,5T # comment").unwrap();
    assert_eq!(q.number, "48.5");
    assert_eq!(q.suffix, "t");
    assert_eq!(q.raw, "48,5T");
    let q = split_quantity("1.2e+3kN").unwrap();
    assert_eq!(q.number, "1.2e+3");
    assert_eq!(q.suffix, "kn");
    assert_eq!(split_quantity(" # only").err().as_deref(), Some("empty quantity"));
    assert_eq!(split_quantity("t12").err().as_deref(), Some("invalid numeric value \"t12\""));
    assert_eq!(split_quantity("-.").err().as_deref(), Some("invalid numeric value \"-.\""));
}

#[test]
fn units_follow_the_table_and_refuse_guesses() {
    assert_eq!(unit_of(UnitKind::Mass, "t-uk", "12t-uk"), Ok(Unit::LongTon));
    assert_eq!(unit_of(UnitKind::Speed, "", "30"), Ok(Unit::MetresPerSecond));
    assert_eq!(unit_of(UnitKind::Force, "lb", "5lb"), Ok(Unit::PoundForce));
    assert_eq!(unit_of(UnitKind::Distance, "in/2", "3in/2"), Ok(Unit::HalfInch));
    assert_eq!(
        unit_of(UnitKind::Mass, "stone", "12stone"),
        Err("unsupported mass unit \"stone\" in \"12stone\"".to_string())
    );
}
