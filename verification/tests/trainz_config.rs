use railweave::trainz::parse_trainz_config;

    #[test]
    fn parses_documented_route_metadata_without_assets() {
        let parsed = parse_trainz_config(
            r#"
            kind map
            username "Synthetic Valley"
            kuid <kuid:123:456>
            trainz-build 4.6
            map-kuid <kuid:123:999>
            "#,
        );

        assert_eq!(parsed.config.kind.as_deref(), Some("map"));
        assert_eq!(parsed.config.username.as_deref(), Some("Synthetic Valley"));
        assert_eq!(parsed.config.kuid.as_deref(), Some("<kuid:123:456>"));
        assert_eq!(parsed.config.trainz_build.as_deref(), Some("4.6"));
        assert_eq!(parsed.config.map_kuid.as_deref(), Some("<kuid:123:999>"));
        assert!(parsed.diagnostics.is_empty());
    }

    #[test]
    fn preserves_unknown_fields_and_reports_loss_explicitly() {
        let parsed = parse_trainz_config("kind map\ncustom-track-rule keep-me\n");
        assert_eq!(
            parsed
                .config
                .unknown_keys
                .get("custom-track-rule")
                .map(String::as_str),
            Some("keep-me")
        );
        assert_eq!(parsed.diagnostics.len(), 1);
        assert_eq!(
            parsed.diagnostics[0].key.as_deref(),
            Some("custom-track-rule")
        );
    }

    #[test]
    fn malformed_lines_do_not_disappear_silently() {
        let parsed = parse_trainz_config("kind map\nbroken_line\nusername Test\n");
        assert_eq!(parsed.config.username.as_deref(), Some("Test"));
        assert_eq!(parsed.diagnostics.len(), 1);
        assert_eq!(parsed.diagnostics[0].line, 2);
    }

    #[test]
    fn accepts_nested_trainz_containers_without_false_malformed_diagnostics() {
        let parsed = parse_trainz_config(
            r#"
            kind map
            username "Synthetic Valley"
            kuid <kuid:123:456>
            obsolete-table
            {
                0 <kuid:123:100>
                1 <kuid:123:101>
            }
            trainz-build 4.6
            "#,
        );

        assert_eq!(parsed.config.kind.as_deref(), Some("map"));
        assert_eq!(parsed.config.trainz_build.as_deref(), Some("4.6"));
        assert!(parsed.diagnostics.is_empty());
    }

    #[test]
    fn accepts_container_header_separated_by_blank_lines() {
        let parsed = parse_trainz_config(
            r#"
            kind map
            obsolete-table

            {
                0 <kuid:123:100>
            }
            username Test
            "#,
        );

        assert_eq!(parsed.config.username.as_deref(), Some("Test"));
        assert!(parsed.diagnostics.is_empty());
    }

    #[test]
    fn reports_comment_like_lines_instead_of_accepting_them() {
        let parsed = parse_trainz_config(
            "kind map\n// not a Trainz comment\n; neither is this\nrem nor this\n# nor this\nusername Test\n",
        );

        assert_eq!(parsed.config.username.as_deref(), Some("Test"));
        assert_eq!(parsed.diagnostics.len(), 4);
        assert!(parsed
            .diagnostics
            .iter()
            .all(|diagnostic| diagnostic.message.contains("does not support comment lines")));
        assert_eq!(
            parsed
                .diagnostics
                .iter()
                .map(|diagnostic| diagnostic.line)
                .collect::<Vec<_>>(),
            vec![2, 3, 4, 5]
        );
    }

    #[test]
    fn comment_like_line_cannot_bridge_a_container_header_to_its_brace() {
        let parsed = parse_trainz_config(
            "kind map\nobsolete-table\n// invalid separator\n{\n0 <kuid:1:2>\n}\n",
        );

        assert_eq!(parsed.diagnostics.len(), 2);
        assert!(parsed.diagnostics[0].message.contains("expected key/value"));
        assert!(parsed.diagnostics[1]
            .message
            .contains("does not support comment lines"));
    }

    #[test]
    fn duplicate_top_level_keys_are_reported_without_overwriting_the_first_value() {
        let parsed = parse_trainz_config("kind map\nusername First\nkind scenery\nusername Second\n");

        assert_eq!(parsed.config.kind.as_deref(), Some("map"));
        assert_eq!(parsed.config.username.as_deref(), Some("First"));
        assert_eq!(parsed.diagnostics.len(), 2);
        assert_eq!(
            parsed
                .diagnostics
                .iter()
                .map(|diagnostic| diagnostic.line)
                .collect::<Vec<_>>(),
            vec![3, 4]
        );
        assert!(parsed
            .diagnostics
            .iter()
            .all(|diagnostic| diagnostic.message.contains("duplicate Trainz metadata key")));
    }

    #[test]
    fn uppercase_ascii_keys_are_reported_without_hiding_the_metadata() {
        let parsed = parse_trainz_config("Kind map\nUserName Test\n");

        assert_eq!(parsed.config.kind.as_deref(), Some("map"));
        assert_eq!(parsed.config.username.as_deref(), Some("Test"));
        assert_eq!(parsed.diagnostics.len(), 2);
        assert!(parsed
            .diagnostics
            .iter()
            .all(|diagnostic| diagnostic.message.contains("uppercase ASCII")));
    }

    #[test]
    fn reports_unbalanced_container_braces() {
        let unterminated = parse_trainz_config("kind map\nobsolete-table\n{\n0 <kuid:1:2>\n");
        assert!(unterminated
            .diagnostics
            .iter()
            .any(|diagnostic| diagnostic.message.contains("unterminated")));

        let unmatched = parse_trainz_config("kind map\n}\n");
        assert!(unmatched
            .diagnostics
            .iter()
            .any(|diagnostic| diagnostic.message.contains("unmatched")));
    }
