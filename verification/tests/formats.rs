use railweave::bve::{parse_command, route_line, split_quoted, RouteLine};
use railweave::track_csv::{csv_value, track_csv_links, track_csv_table};

fn chars(s: &str) -> Vec<char> {
    s.chars().collect()
}

fn texts(t: &[Vec<char>]) -> Vec<String> {
    t.iter().map(|v| v.iter().collect()).collect()
}

#[test]
fn quoted_separators_do_not_split() {
    let fields = split_quoted(&chars(" 0 , .Sta \"A, B\" ;x ,"), ',');
    assert_eq!(texts(&fields), vec!["0", ".Sta \"A, B\" ;x", ""]);
    assert_eq!(texts(&split_quoted(&chars(""), ';')), vec![""]);
}

#[test]
fn track_commands_are_read_in_both_spellings() {
    let c = parse_command(&chars(" Track.Curve 500; 0 "), false).unwrap();
    assert_eq!(c.name, "curve");
    assert_eq!(c.args, vec!["500".to_string(), "0".to_string()]);
    let c = parse_command(&chars("..Sta(\"Origin; Town\";30)"), true).unwrap();
    assert_eq!(c.name, "sta");
    assert_eq!(c.args, vec!["Origin; Town".to_string(), "30".to_string()]);
    let c = parse_command(&chars(".Limit = 80"), true).unwrap();
    assert_eq!(c.name, "limit");
    assert_eq!(c.args, vec!["80".to_string()]);
    assert!(parse_command(&chars(".Curve 500"), false).is_none());
    assert!(parse_command(&chars("Options.BlockLength 25"), true).is_none());
    assert!(parse_command(&chars("   "), true).is_none());
}

#[test]
fn track_csv_table_needs_x_and_z_columns() {
    let t = track_csv_table("# portable track\n\n X , Y ,Z,Line\n0,0,0,main\r\n  # note\n0,0,100,main\n").unwrap();
    assert_eq!(t.headers, vec!["x", "y", "z", "line"]);
    assert_eq!(t.rows.len(), 2);
    assert_eq!(t.rows[1], vec!["0", "0", "100", "main"]);
    let empty = track_csv_table("\n# only comments\n").err().unwrap();
    assert_eq!(empty.code, "RW131_CSV_EMPTY");
    assert_eq!(empty.message, "track CSV is empty");
    let no_z = track_csv_table("x,y\n1,2\n").err().unwrap();
    assert_eq!(no_z.code, "RW132_CSV_HEADER");
    assert_eq!(no_z.message, "track CSV requires \"z\" column");
    let no_x = track_csv_table("east,z\n1,2\n").err().unwrap();
    assert_eq!(no_x.message, "track CSV requires \"x\" column");
}

#[test]
fn csv_values_use_the_first_named_column_with_a_value() {
    let headers: Vec<String> = vec!["x".into(), "speed".into(), "maxspeed".into(), "speed".into()];
    let row: Vec<String> = vec!["1".into(), "  ".into(), " 80 ".into(), "90".into()];
    assert_eq!(csv_value(&headers, &row, &["speed_limit_kmh", "speed", "maxspeed"]), Some("80".to_string()));
    assert_eq!(csv_value(&headers, &row, &["X"]), Some("1".to_string()));
    assert_eq!(csv_value(&headers, &vec!["1".to_string()], &["speed"]), None);
    assert_eq!(csv_value(&headers, &row, &[]), None);
}

#[test]
fn rows_of_one_line_are_joined_in_order() {
    let names: Vec<String> = vec!["main".into(), "main".into(), "branch".into(), "branch".into(), "main".into()];
    let links = track_csv_links(&names).unwrap();
    let view: Vec<(u64, Option<u64>)> = links.iter().map(|l| (l.node_id, l.edge_id)).collect();
    assert_eq!(view, vec![(1, None), (2, Some(3)), (4, None), (5, Some(6)), (7, None)]);
    let lonely: Vec<String> = vec!["a".into(), "b".into()];
    let error = track_csv_links(&lonely).err().unwrap();
    assert_eq!(error.code, "RW135_CSV_NO_TRACK");
    assert_eq!(error.message, "track CSV did not produce any connected segments");
}

#[test]
fn route_lines_are_comments_sections_or_expressions() {
    assert!(matches!(route_line(&chars("   ")), RouteLine::Skip));
    assert!(matches!(route_line(&chars("; comment")), RouteLine::Skip));
    assert!(matches!(route_line(&chars(" ' note")), RouteLine::Skip));
    assert!(matches!(route_line(&chars("\u{feff}With TRACK  ")), RouteLine::Namespace(true)));
    assert!(matches!(route_line(&chars("with Route")), RouteLine::Namespace(false)));
    assert!(matches!(route_line(&chars("Without")), RouteLine::Expressions(_)));
    match route_line(&chars(" 100, .Sta \"A, B\";x , .Pitch 5 ")) {
        RouteLine::Expressions(e) => assert_eq!(texts(&e), vec!["100", ".Sta \"A, B\";x", ".Pitch 5"]),
        _ => panic!("expected expressions"),
    }
}
