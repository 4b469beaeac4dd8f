//! Queries over a small fixture catalogue: three languages and one form with
//! known values. `Gamma` deliberately carries an invalid `tags` cell.

use lat::catalog::{Catalog, Table};
use lat::db::{facets, get, search, seed_needed};
use lat::json::parse_json_array;
use lat::catalog::TableError;
use lat::json::{JsonReader, cell_values, checked_values};
use lat::models::{CellValue, Cells, Pattern, PatternType, Row, SearchFilters, row_from_cells};

#[allow(clippy::too_many_arguments)]
fn row(
    name: &str,
    description: &str,
    focus: &str,
    category: &str,
    classification: &str,
    feature: &str,
    tags: &str,
    themes: &str,
) -> Row {
    row_from_cells(&reader(), cells(name, description, focus, category, classification, feature, tags, themes))
        .expect("SQLite reads the cells")
}

#[allow(clippy::too_many_arguments)]
fn cells(
    name: &str,
    description: &str,
    focus: &str,
    category: &str,
    classification: &str,
    feature: &str,
    tags: &str,
    themes: &str,
) -> Cells {
    Cells {
        name: name.to_owned(),
        description: description.to_owned(),
        focus: focus.to_owned(),
        category: category.to_owned(),
        classification: classification.to_owned(),
        feature: feature.to_owned(),
        forced_choice: String::new(),
        attachment: String::new(),
        tags: tags.to_owned(),
        themes: themes.to_owned(),
    }
}

fn reader() -> JsonReader {
    JsonReader::open().expect("an in-memory SQLite connection")
}

fn fixture() -> Catalog {
    let languages = vec![
        row(
            "Alpha",
            "first sample",
            "causal chain",
            "Language",
            "isolate",
            "marks the agent",
            r#"["alpha", "shared"]"#,
            r#"["Causality"]"#,
        ),
        row(
            "Beta",
            "second sample",
            "spatial frame",
            "Register",
            "Bantu",
            "marks the place",
            r#"["beta", "shared"]"#,
            r#"["Causality", "Space & orientation"]"#,
        ),
        row(
            "Gamma",
            "third sample",
            "",
            "Language",
            "",
            "",
            "not json at all",
            r#"["Time & aspect"]"#,
        ),
    ];
    let forms = vec![row(
        "Haiku",
        "a cut between two images",
        "brevity",
        "Poetic form",
        "Japanese",
        "seventeen morae",
        r#"["cut", "shared"]"#,
        r#"["Time & aspect"]"#,
    )];
    Catalog {
        forms: Table::new(forms).expect("distinct names"),
        languages: Table::new(languages).expect("distinct names"),
    }
}

fn names(patterns: &[Pattern]) -> Vec<&str> {
    patterns.iter().map(|p| p.name.as_str()).collect()
}

fn filters() -> SearchFilters {
    SearchFilters::default()
}

fn find(catalog: &Catalog, kind: Option<PatternType>, filters: SearchFilters) -> Vec<Pattern> {
    search(catalog, kind, &filters)
}

// ---- parse_json_array --------------------------------------------------------

#[test]
fn parse_json_array_reads_a_string_array() {
    assert_eq!(parse_json_array(r#"["a", "b"]"#), vec!["a", "b"]);
}

#[test]
fn parse_json_array_falls_back_to_empty_on_broken_input() {
    assert!(parse_json_array("not json").is_empty());
    assert!(parse_json_array("").is_empty());
    assert!(parse_json_array(r#"{"a": 1}"#).is_empty());
}

// ---- seeding -----------------------------------------------------------------

#[test]
fn only_an_empty_database_is_seeded() {
    assert!(seed_needed(0, 0));
    assert!(!seed_needed(1, 0), "a filled forms table is not empty");
    assert!(!seed_needed(0, 3), "a filled languages table is not empty");
    assert!(!seed_needed(1, 3));
}

// ---- tables --------------------------------------------------------------------

#[test]
fn rows_are_ordered_by_name_whatever_order_they_come_in() {
    let table = Table::new(vec![
        row("Gamma", "", "", "", "", "", "[]", "[]"),
        row("Alpha", "", "", "", "", "", "[]", "[]"),
        row("Beta", "", "", "", "", "", "[]", "[]"),
    ])
    .unwrap();
    let catalog = Catalog {
        forms: Table::empty(),
        languages: table,
    };
    let all = find(&catalog, None, filters());
    assert_eq!(names(&all), vec!["Alpha", "Beta", "Gamma"]);
}

#[test]
fn a_name_given_twice_is_refused() {
    let result = Table::new(vec![
        row("Alpha", "one", "", "", "", "", "[]", "[]"),
        row("Beta", "", "", "", "", "", "[]", "[]"),
        row("Alpha", "two", "", "", "", "", "[]", "[]"),
    ]);
    match result {
        Err(duplicate) => assert_eq!(duplicate.name, "Alpha"),
        Ok(_) => panic!("a duplicate name must be refused"),
    }
}

#[test]
fn the_name_order_is_by_code_point() {
    // Upper case sorts before lower case, as SQLite's BINARY collation has it.
    let table = Table::new(vec![
        row("haiku", "", "", "", "", "", "[]", "[]"),
        row("Zulu", "", "", "", "", "", "[]", "[]"),
        row("Ähnlich", "", "", "", "", "", "[]", "[]"),
    ])
    .unwrap();
    let catalog = Catalog {
        forms: table,
        languages: Table::empty(),
    };
    let all = find(&catalog, None, filters());
    assert_eq!(names(&all), vec!["Zulu", "haiku", "Ähnlich"]);
}

// ---- search: shape -----------------------------------------------------------

#[test]
fn search_without_filters_returns_forms_then_languages_each_sorted() {
    let conn = fixture();
    let all = search(&conn, None, &filters());
    assert_eq!(names(&all), vec!["Haiku", "Alpha", "Beta", "Gamma"]);
}

#[test]
fn search_restricted_to_a_kind_reads_only_that_table() {
    let conn = fixture();

    let forms = search(&conn, Some(PatternType::Form), &filters());
    assert_eq!(names(&forms), vec!["Haiku"]);
    assert!(forms.iter().all(|p| p.kind == PatternType::Form));

    let languages = search(&conn, Some(PatternType::Language), &filters());
    assert_eq!(names(&languages), vec!["Alpha", "Beta", "Gamma"]);
    assert!(languages.iter().all(|p| p.kind == PatternType::Language));
}

#[test]
fn every_column_is_mapped_onto_the_pattern() {
    let conn = fixture();
    let found = get(&conn, PatternType::Language, "Beta").unwrap();

    assert_eq!(found.kind, PatternType::Language);
    assert_eq!(found.name, "Beta");
    assert_eq!(found.description, "second sample");
    assert_eq!(found.focus, "spatial frame");
    assert_eq!(found.category, "Register");
    assert_eq!(found.classification, "Bantu");
    assert_eq!(found.feature, "marks the place");
    assert_eq!(found.tags, vec!["beta", "shared"]);
    assert_eq!(found.themes, vec!["Causality", "Space & orientation"]);
}

// ---- search: individual filters ----------------------------------------------

#[test]
fn category_filter_matches_exactly() {
    let conn = fixture();
    let found = find(
        &conn,
        Some(PatternType::Language),
        SearchFilters {
            category: Some("Register".to_owned()),
            ..filters()
        },
    );
    assert_eq!(names(&found), vec!["Beta"]);

    let partial = find(
        &conn,
        None,
        SearchFilters {
            category: Some("Regis".to_owned()),
            ..filters()
        },
    );
    assert!(partial.is_empty(), "category is exact, not a substring");
}

#[test]
fn classification_filter_matches_exactly() {
    let conn = fixture();
    let found = find(
        &conn,
        None,
        SearchFilters {
            classification: Some("Japanese".to_owned()),
            ..filters()
        },
    );
    assert_eq!(names(&found), vec!["Haiku"]);
}

#[test]
fn focus_filter_matches_a_substring() {
    let conn = fixture();
    let found = find(
        &conn,
        None,
        SearchFilters {
            focus: Some("chain".to_owned()),
            ..filters()
        },
    );
    assert_eq!(names(&found), vec!["Alpha"]);
}

#[test]
fn a_substring_filter_ignores_ascii_case() {
    let conn = fixture();
    let found = find(
        &conn,
        None,
        SearchFilters {
            focus: Some("CAUSAL".to_owned()),
            ..filters()
        },
    );
    assert_eq!(names(&found), vec!["Alpha"]);
}

#[test]
fn an_underscore_in_a_substring_filter_stands_for_one_character() {
    let conn = fixture();
    let found = find(
        &conn,
        None,
        SearchFilters {
            focus: Some("spa_ial".to_owned()),
            ..filters()
        },
    );
    assert_eq!(names(&found), vec!["Beta"]);
}

#[test]
fn tag_filter_matches_a_whole_array_element() {
    let conn = fixture();
    let shared = find(
        &conn,
        None,
        SearchFilters {
            tag: Some("shared".to_owned()),
            ..filters()
        },
    );
    assert_eq!(names(&shared), vec!["Haiku", "Alpha", "Beta"]);

    let partial = find(
        &conn,
        None,
        SearchFilters {
            tag: Some("shar".to_owned()),
            ..filters()
        },
    );
    assert!(partial.is_empty(), "a tag matches the whole element only");
}

#[test]
fn theme_filter_matches_a_whole_array_element() {
    let conn = fixture();
    let found = find(
        &conn,
        None,
        SearchFilters {
            theme: Some("Space & orientation".to_owned()),
            ..filters()
        },
    );
    assert_eq!(names(&found), vec!["Beta"]);
}

#[test]
fn text_filter_reaches_name_description_feature_tags_and_classification() {
    let conn = fixture();
    let by = |needle: &str| {
        let found = find(
            &conn,
            None,
            SearchFilters {
                text: Some(needle.to_owned()),
                ..filters()
            },
        );
        names(&found)
            .iter()
            .map(|name| (*name).to_owned())
            .collect::<Vec<_>>()
    };

    assert_eq!(by("Haiku"), vec!["Haiku"], "name");
    assert_eq!(by("second sample"), vec!["Beta"], "description");
    assert_eq!(by("seventeen"), vec!["Haiku"], "feature");
    assert_eq!(by("alpha"), vec!["Alpha"], "tags");
    assert_eq!(by("Bantu"), vec!["Beta"], "classification");
}

#[test]
fn text_filter_does_not_reach_the_focus_column() {
    let conn = fixture();
    let found = find(
        &conn,
        None,
        SearchFilters {
            text: Some("spatial frame".to_owned()),
            ..filters()
        },
    );
    assert!(found.is_empty());
}

#[test]
fn exclude_names_drops_the_listed_patterns() {
    let conn = fixture();
    let found = find(
        &conn,
        None,
        SearchFilters {
            exclude_names: vec!["Alpha".to_owned(), "Haiku".to_owned()],
            ..filters()
        },
    );
    assert_eq!(names(&found), vec!["Beta", "Gamma"]);
}

#[test]
fn exclude_names_ignores_unknown_names() {
    let conn = fixture();
    let found = find(
        &conn,
        None,
        SearchFilters {
            exclude_names: vec!["Nonexistent".to_owned()],
            ..filters()
        },
    );
    assert_eq!(found.len(), 4);
}

#[test]
fn filters_are_combined_with_and() {
    let conn = fixture();
    let matching = find(
        &conn,
        None,
        SearchFilters {
            tag: Some("shared".to_owned()),
            theme: Some("Causality".to_owned()),
            category: Some("Language".to_owned()),
            ..filters()
        },
    );
    assert_eq!(names(&matching), vec!["Alpha"]);

    let contradictory = find(
        &conn,
        None,
        SearchFilters {
            tag: Some("alpha".to_owned()),
            theme: Some("Time & aspect".to_owned()),
            ..filters()
        },
    );
    assert!(contradictory.is_empty(), "AND, not OR");
}

#[test]
fn forced_choice_filter_matches_a_substring_and_attachment_exactly() {
    let mut tuyuca = row("Tuyuca", "", "", "Language", "", "", "[]", "[]");
    tuyuca.forced_choice = "the source of the information".to_owned();
    tuyuca.attachment = "verb".to_owned();
    let mut tariana = row("Tariana", "", "", "Language", "", "", "[]", "[]");
    tariana.forced_choice = "the source of the information".to_owned();
    tariana.attachment = "verb".to_owned();
    let mut basque = row("Basque", "", "", "Language", "", "", "[]", "[]");
    basque.forced_choice = "whether the act was willed".to_owned();
    basque.attachment = "subject".to_owned();
    let catalog = Catalog {
        forms: Table::empty(),
        languages: Table::new(vec![tuyuca, tariana, basque]).unwrap(),
    };

    let same = find(
        &catalog,
        Some(PatternType::Language),
        SearchFilters {
            forced_choice: Some("source of the information".to_owned()),
            attachment: Some("verb".to_owned()),
            ..filters()
        },
    );
    assert_eq!(names(&same), vec!["Tariana", "Tuyuca"]);

    let partial = find(
        &catalog,
        None,
        SearchFilters {
            attachment: Some("ver".to_owned()),
            ..filters()
        },
    );
    assert!(partial.is_empty(), "attachment is exact");

    let tuyuca = get(&catalog, PatternType::Language, "Tuyuca").unwrap();
    assert_eq!(tuyuca.forced_choice, "the source of the information");
    assert_eq!(tuyuca.attachment, "verb");
}

// ---- search: robustness --------------------------------------------------------

#[test]
fn a_row_with_invalid_json_tags_does_not_break_the_search() {
    let conn = fixture();

    let all = search(&conn, Some(PatternType::Language), &filters());
    let gamma = all.iter().find(|p| p.name == "Gamma").unwrap();
    assert!(gamma.tags.is_empty());
    assert_eq!(gamma.themes, vec!["Time & aspect"]);

    let tagged = find(
        &conn,
        None,
        SearchFilters {
            tag: Some("shared".to_owned()),
            ..filters()
        },
    );
    assert!(!names(&tagged).contains(&"Gamma"));
}

#[test]
fn filter_values_are_bound_as_parameters_not_spliced_into_sql() {
    let conn = fixture();
    let injection = "' OR 1=1 --";

    for filters in [
        SearchFilters {
            text: Some(injection.to_owned()),
            ..filters()
        },
        SearchFilters {
            category: Some(injection.to_owned()),
            ..filters()
        },
        SearchFilters {
            tag: Some(injection.to_owned()),
            ..filters()
        },
        SearchFilters {
            exclude_names: vec![injection.to_owned()],
            category: Some("no such category".to_owned()),
            ..filters()
        },
    ] {
        let found = search(&conn, None, &filters);
        assert!(found.is_empty(), "injected text must be data, not SQL");
    }
}

#[test]
fn like_wildcards_in_a_text_filter_stay_wildcards() {
    let conn = fixture();
    let found = find(
        &conn,
        None,
        SearchFilters {
            text: Some("%".to_owned()),
            ..filters()
        },
    );
    assert_eq!(found.len(), 4);
}

// ---- get -------------------------------------------------------------------------

#[test]
fn get_returns_the_pattern_of_the_requested_kind() {
    let conn = fixture();
    let found = get(&conn, PatternType::Form, "Haiku");
    assert_eq!(found.map(|p| p.name), Some("Haiku".to_owned()));
}

#[test]
fn get_is_none_for_an_unknown_name() {
    let conn = fixture();
    assert!(get(&conn, PatternType::Form, "Sonnet").is_none());
}

#[test]
fn get_does_not_look_in_the_other_table() {
    let conn = fixture();
    assert!(
        get(&conn, PatternType::Language, "Haiku").is_none(),
        "Haiku is a form, not a language"
    );
}

#[test]
fn get_matches_the_name_exactly() {
    let conn = fixture();
    assert!(get(&conn, PatternType::Form, "Haik").is_none());
    assert!(get(&conn, PatternType::Form, "haiku").is_none());
}

// ---- facets ----------------------------------------------------------------------

#[test]
fn facets_for_one_kind_are_distinct_sorted_and_without_empties() {
    let conn = fixture();
    let facets = facets(&conn, Some(PatternType::Language)).unwrap();
    assert_eq!(facets.len(), 1);

    let languages = &facets[0];
    assert_eq!(languages.kind, PatternType::Language);
    assert_eq!(languages.categories, vec!["Language", "Register"]);
    assert_eq!(languages.classifications, vec!["Bantu", "isolate"]);
    assert_eq!(languages.tags, vec!["alpha", "beta", "shared"]);
    assert_eq!(
        languages.themes,
        vec!["Causality", "Space & orientation", "Time & aspect"]
    );
}

#[test]
fn facets_without_a_kind_return_forms_then_languages() {
    let conn = fixture();
    let facets = facets(&conn, None).unwrap();
    assert_eq!(facets.len(), 2);
    assert_eq!(facets[0].kind, PatternType::Form);
    assert_eq!(facets[1].kind, PatternType::Language);
    assert_eq!(facets[0].tags, vec!["cut", "shared"]);
}

#[test]
fn facets_survive_a_row_with_invalid_json() {
    let conn = fixture();
    let facets = facets(&conn, Some(PatternType::Language)).unwrap();
    assert_eq!(facets[0].tags, vec!["alpha", "beta", "shared"]);
}

#[test]
fn facets_list_the_attachments_without_empties() {
    let mut one = row("One", "", "", "", "", "", "[]", "[]");
    one.attachment = "verb".to_owned();
    let mut two = row("Two", "", "", "", "", "", "[]", "[]");
    two.attachment = "subject".to_owned();
    let mut three = row("Three", "", "", "", "", "", "[]", "[]");
    three.attachment = "verb".to_owned();
    let four = row("Four", "", "", "", "", "", "[]", "[]");
    let catalog = Catalog {
        forms: Table::new(vec![one, two, three, four]).unwrap(),
        languages: Table::empty(),
    };
    let facets = facets(&catalog, Some(PatternType::Form)).unwrap();
    assert_eq!(facets[0].attachments, vec!["subject", "verb"]);
}

#[test]
fn every_fixture_facet_value_is_reachable_by_a_filter() {
    let conn = fixture();
    for facet in facets(&conn, None).unwrap() {
        let kind = Some(facet.kind);
        for tag in &facet.tags {
            let found = find(
                &conn,
                kind,
                SearchFilters {
                    tag: Some(tag.clone()),
                    ..filters()
                },
            );
            assert!(!found.is_empty(), "tag '{tag}' matches nothing");
        }
        for theme in &facet.themes {
            let found = find(
                &conn,
                kind,
                SearchFilters {
                    theme: Some(theme.clone()),
                    ..filters()
                },
            );
            assert!(!found.is_empty(), "theme '{theme}' matches nothing");
        }
        for category in &facet.categories {
            let found = find(
                &conn,
                kind,
                SearchFilters {
                    category: Some(category.clone()),
                    ..filters()
                },
            );
            assert!(!found.is_empty(), "category '{category}' matches nothing");
        }
        for classification in &facet.classifications {
            let found = find(
                &conn,
                kind,
                SearchFilters {
                    classification: Some(classification.clone()),
                    ..filters()
                },
            );
            assert!(
                !found.is_empty(),
                "classification '{classification}' matches nothing"
            );
        }
    }
}

#[test]
fn a_listed_pattern_is_found_again_by_its_name() {
    let conn = fixture();
    for pattern in search(&conn, None, &filters()) {
        let again = get(&conn, pattern.kind, &pattern.name).unwrap();
        assert_eq!(again.name, pattern.name);
        assert_eq!(again.description, pattern.description);
        assert_eq!(again.tags, pattern.tags);
    }
}

#[test]
fn a_tag_is_found_beside_values_that_are_not_text() {
    // json_each of ["shared", 1] yields the text 'shared' and the number 1.
    let mixed = row("Mixed", "", "", "", "", "", r#"["shared", 1]"#, "[]");
    let catalog = Catalog {
        forms: Table::new(vec![mixed]).unwrap(),
        languages: Table::empty(),
    };
    let found = find(
        &catalog,
        None,
        SearchFilters {
            tag: Some("shared".to_owned()),
            ..filters()
        },
    );
    assert_eq!(names(&found), vec!["Mixed"]);
}

#[test]
fn a_value_that_is_not_text_fails_the_facets() {
    let mixed = row("Mixed", "", "", "", "", "", r#"["shared", 1]"#, "[]");
    let catalog = Catalog {
        forms: Table::empty(),
        languages: Table::new(vec![mixed]).unwrap(),
    };
    assert!(facets(&catalog, Some(PatternType::Language)).is_err());
    assert!(facets(&catalog, None).is_err());
    assert!(facets(&catalog, Some(PatternType::Form)).is_ok());
}

#[test]
fn a_nested_array_is_listed_by_its_json_text() {
    // json_each of ["a", ["b"]] yields the text 'a' and the text '["b"]'.
    let nested = row("Nested", "", "", "", "", "", r#"["a", ["b"]]"#, "[]");
    let catalog = Catalog {
        forms: Table::new(vec![nested]).unwrap(),
        languages: Table::empty(),
    };
    let facets = facets(&catalog, Some(PatternType::Form)).unwrap();
    assert_eq!(facets[0].tags, vec![r#"["b"]"#, "a"]);
}

#[test]
fn json_each_reads_each_string_of_an_array() {
    let values = cell_values(&reader(), r#"["alpha", "shared"]"#).unwrap();
    assert_eq!(
        values,
        vec![
            CellValue::Text("alpha".to_owned()),
            CellValue::Text("shared".to_owned())
        ]
    );
}

#[test]
fn json_each_reads_values_that_are_not_text_as_other() {
    let values = cell_values(&reader(), r#"["shared", 1, null, true]"#).unwrap();
    assert_eq!(
        values,
        vec![
            CellValue::Text("shared".to_owned()),
            CellValue::Other,
            CellValue::Other,
            CellValue::Other
        ]
    );
}

#[test]
fn json_each_reads_a_nested_array_as_its_json_text() {
    let values = cell_values(&reader(), r#"["a", ["b"]]"#).unwrap();
    assert_eq!(
        values,
        vec![CellValue::Text("a".to_owned()), CellValue::Text(r#"["b"]"#.to_owned())]
    );
}

#[test]
fn a_cell_that_is_not_json_yields_nothing() {
    assert_eq!(cell_values(&reader(), "not json at all").unwrap(), Vec::<CellValue>::new());
    assert_eq!(cell_values(&reader(), "").unwrap(), Vec::<CellValue>::new());
    assert_eq!(cell_values(&reader(), "[1,").unwrap(), Vec::<CellValue>::new());
    assert_eq!(cell_values(&reader(), "[]").unwrap(), Vec::<CellValue>::new());
}

#[test]
fn a_row_keeps_its_cells_and_reads_their_elements() {
    let r = row_from_cells(
        &reader(),
        Cells {
            name: "Alpha".to_owned(),
            description: "d".to_owned(),
            focus: "f".to_owned(),
            category: "c".to_owned(),
            classification: "k".to_owned(),
            feature: "x".to_owned(),
            forced_choice: "choice".to_owned(),
            attachment: "verb".to_owned(),
            tags: r#"["t1"]"#.to_owned(),
            themes: "broken".to_owned(),
        },
    )
    .unwrap();
    assert_eq!(r.name, "Alpha");
    assert_eq!(r.forced_choice, "choice");
    assert_eq!(r.attachment, "verb");
    assert_eq!(r.tags, r#"["t1"]"#);
    assert_eq!(r.themes, "broken");
    assert_eq!(r.tag_elements, vec![CellValue::Text("t1".to_owned())]);
    assert_eq!(r.theme_elements, Vec::<CellValue>::new());
}

#[test]
fn a_refused_cell_reads_as_empty_whatever_json_each_gave() {
    assert_eq!(checked_values(false, None), Some(Vec::new()));
    assert_eq!(
        checked_values(false, Some(vec![CellValue::Other])),
        Some(Vec::new())
    );
    assert_eq!(
        checked_values(true, Some(vec![CellValue::Other])),
        Some(vec![CellValue::Other])
    );
    assert_eq!(checked_values(true, None), None);
}

#[test]
fn text_that_is_not_utf8_is_not_read_as_text() {
    // A lone surrogate escape decodes to bytes that are not UTF-8.
    let values = cell_values(&reader(), r#"["a", "\ud800"]"#).unwrap();
    assert_eq!(values, vec![CellValue::Text("a".to_owned()), CellValue::Other]);
}

#[test]
fn a_table_is_made_of_cells_in_name_order() {
    let table = Table::from_cells(
        &reader(),
        vec![
            cells("Beta", "", "", "", "", "", r#"["b"]"#, "[]"),
            cells("Alpha", "", "", "", "", "", "broken", "[]"),
        ],
    )
    .unwrap();
    let rows = table.rows();
    assert_eq!(rows.len(), 2);
    assert_eq!(rows[0].name, "Alpha");
    assert_eq!(rows[0].tag_elements, Vec::<CellValue>::new());
    assert_eq!(rows[1].name, "Beta");
    assert_eq!(rows[1].tag_elements, vec![CellValue::Text("b".to_owned())]);
}

#[test]
fn cells_of_one_name_twice_are_refused() {
    let err = Table::from_cells(
        &reader(),
        vec![
            cells("Alpha", "", "", "", "", "", "[]", "[]"),
            cells("Alpha", "again", "", "", "", "", "[]", "[]"),
        ],
    )
    .err()
    .unwrap();
    match err {
        TableError::Duplicate(dup) => assert_eq!(dup.name, "Alpha"),
        TableError::Unreadable { .. } => panic!("the cells are readable"),
    }
}

#[test]
fn every_pattern_found_by_a_tag_or_theme_lists_it() {
    let catalog = fixture();
    for (tag, theme) in [(Some("shared"), None), (None, Some("Causality")), (Some("beta"), Some("Causality"))] {
        let found = find(
            &catalog,
            None,
            SearchFilters {
                tag: tag.map(str::to_owned),
                theme: theme.map(str::to_owned),
                ..filters()
            },
        );
        assert!(!found.is_empty());
        for p in &found {
            if let Some(t) = tag {
                assert!(p.tags.iter().any(|x| x == t));
            }
            if let Some(t) = theme {
                assert!(p.themes.iter().any(|x| x == t));
            }
        }
    }
}

#[test]
fn two_rows_of_one_name_are_refused_with_that_name() {
    let err = Table::new(vec![
        row("Alpha", "", "", "", "", "", "[]", "[]"),
        row("Beta", "", "", "", "", "", "[]", "[]"),
        row("Alpha", "again", "", "", "", "", "[]", "[]"),
    ])
    .err()
    .unwrap();
    assert_eq!(err.name, "Alpha");
}
