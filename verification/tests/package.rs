use railweave::model::{Diagnostic, Severity};
use railweave::openbve::{package_diagnostics, package_names, package_slug, route_with_train_folder, station_name, PackageOptions};

#[test]
fn slugs_are_lowercase_words_joined_by_single_dashes() {
    assert_eq!(package_slug("Demo Route"), "demo-route");
    assert_eq!(package_slug("  --Weird__Name!! 2  "), "weird-name-2");
    assert_eq!(package_slug("Łódź Kaliska"), "d-kaliska");
    assert_eq!(package_slug("!!!"), "");
}

#[test]
fn package_names_fall_back_in_order() {
    let named = PackageOptions { name: Some("Demo Route".into()), copy_native_openbve_train: false };
    let n = package_names(&named, &Some("Title".into()));
    assert_eq!((n.display_name.as_str(), n.slug.as_str()), ("Demo Route", "demo-route"));
    let unnamed = PackageOptions { name: None, copy_native_openbve_train: false };
    let n = package_names(&unnamed, &Some("???".into()));
    assert_eq!((n.display_name.as_str(), n.slug.as_str()), ("???", "railweave"));
    let n = package_names(&unnamed, &None);
    assert_eq!((n.display_name.as_str(), n.slug.as_str()), ("RailWeave conversion", "railweave-conversion"));
}

#[test]
fn station_names_lose_separators() {
    assert_eq!(station_name("  Origin, Town;\r\n"), "Origin  Town");
    assert_eq!(station_name("Terminus"), "Terminus");
}

#[test]
fn the_train_folder_goes_before_the_first_track_section() {
    let csv = "With Options\n.BlockLength 1\n\nWith Track\n0, .Pitch 0\nWith Track\n";
    assert_eq!(
        route_with_train_folder(csv, "demo"),
        "With Options\n.BlockLength 1\n\nWith Train\n.Folder demo\n\nWith Track\n0, .Pitch 0\nWith Track\n"
    );
    assert_eq!(route_with_train_folder("no track", "demo"), "no track");
}

#[test]
fn packages_drop_the_asset_notice_only() {
    let route = vec![
        Diagnostic::new(Severity::Warning, "RW406_OPENBVE_BRANCHES_DROPPED", "a".into()),
        Diagnostic::new(Severity::Info, "RW414_OPENBVE_ASSETS_NOT_EXPORTED", "b".into()),
        Diagnostic::new(Severity::Info, "RW410_OPENBVE_INFERRED_LENGTH", "c".into()),
    ];
    let kept: Vec<String> = package_diagnostics(&route).into_iter().map(|d| d.code).collect();
    assert_eq!(kept, vec!["RW406_OPENBVE_BRANCHES_DROPPED", "RW410_OPENBVE_INFERRED_LENGTH"]);
}
