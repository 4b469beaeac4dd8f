use lat::models::PatternType;
use lat::server::{GetParams, ListParams, SearchParams, missing_pattern_message};

fn no_params() -> SearchParams {
    SearchParams {
        kind: None,
        tag: None,
        theme: None,
        category: None,
        classification: None,
        focus: None,
        forced_choice: None,
        attachment: None,
        text: None,
        exclude_names: None,
    }
}

#[test]
fn search_parameters_are_all_optional() {
    let params = no_params();
    let (kind, filters) = params.split();

    assert!(kind.is_none());
    assert!(filters.tag.is_none());
    assert!(filters.theme.is_none());
    assert!(filters.category.is_none());
    assert!(filters.classification.is_none());
    assert!(filters.focus.is_none());
    assert!(filters.text.is_none());
    assert!(
        filters.exclude_names.is_empty(),
        "a missing exclude_names must not exclude anything"
    );
}

#[test]
fn search_parameters_are_split_into_kind_and_filters() {
    let params = SearchParams {
        kind: Some(PatternType::Language),
        tag: Some("ergative".to_owned()),
        theme: Some("Causality".to_owned()),
        category: Some("Language".to_owned()),
        classification: Some("isolate".to_owned()),
        focus: Some("chain".to_owned()),
        text: Some("aspect".to_owned()),
        exclude_names: Some(vec!["German".to_owned(), "English".to_owned()]),
        ..no_params()
    };
    let (kind, filters) = params.split();

    assert_eq!(kind, Some(PatternType::Language));
    assert_eq!(filters.tag.as_deref(), Some("ergative"));
    assert_eq!(filters.theme.as_deref(), Some("Causality"));
    assert_eq!(filters.category.as_deref(), Some("Language"));
    assert_eq!(filters.classification.as_deref(), Some("isolate"));
    assert_eq!(filters.focus.as_deref(), Some("chain"));
    assert_eq!(filters.text.as_deref(), Some("aspect"));
    assert_eq!(filters.exclude_names, vec!["German", "English"]);
}

#[test]
fn the_combination_parameters_reach_the_filters() {
    let params = SearchParams {
        forced_choice: Some("the source of the information".to_owned()),
        attachment: Some("verb".to_owned()),
        ..no_params()
    };
    let (_, filters) = params.split();
    assert_eq!(
        filters.forced_choice.as_deref(),
        Some("the source of the information")
    );
    assert_eq!(filters.attachment.as_deref(), Some("verb"));
}

#[test]
fn get_and_list_parameters_carry_their_values() {
    let params = GetParams {
        kind: PatternType::Form,
        name: "Haiku".to_owned(),
    };
    assert_eq!(params.kind, PatternType::Form);
    assert_eq!(params.name, "Haiku");

    let both = ListParams { kind: None };
    assert!(both.kind.is_none());
}

#[test]
fn get_pattern_reports_an_unknown_name_in_words() {
    let text = missing_pattern_message(PatternType::Form, "No Such Form");
    assert_eq!(text, "No pattern 'No Such Form' of kind Form found.");
    assert!(text.contains("No Such Form"));
}

#[test]
fn a_miss_in_the_other_table_names_its_kind() {
    let text = missing_pattern_message(PatternType::Language, "Haiku");
    assert!(text.contains("No pattern"));
    assert!(text.ends_with("of kind Language found."));
}
