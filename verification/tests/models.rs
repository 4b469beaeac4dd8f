use lat::models::{PatternType, SearchFilters};

#[test]
fn each_kind_names_its_own_table() {
    assert_eq!(PatternType::Form.table(), "forms");
    assert_eq!(PatternType::Language.table(), "languages");
}

#[test]
fn default_filters_are_all_empty() {
    let filters = SearchFilters::default();
    assert!(filters.tag.is_none());
    assert!(filters.theme.is_none());
    assert!(filters.category.is_none());
    assert!(filters.classification.is_none());
    assert!(filters.focus.is_none());
    assert!(filters.text.is_none());
    assert!(filters.exclude_names.is_empty());
    assert!(filters.forced_choice.is_none());
    assert!(filters.attachment.is_none());
}
