//! Data types for the thinking patterns (languages and forms).

use vstd::prelude::*;

use crate::json::{JsonReader, cell_values, fits_sqlite, json_cell_values, json_elements, strings_view};

verus! {

/// Kind of a pattern. Determines which table is read.
#[derive(Debug, Clone, Copy, PartialEq, Eq, Structural)]
pub enum PatternType {
    /// A bound poetic form or writing technique.
    Form,
    /// A natural language or linguistic register.
    Language,
}

/// The name of the table that holds the patterns of a kind.
pub open spec fn table_name(kind: PatternType) -> Seq<char> {
    match kind {
        PatternType::Form => "forms"@,
        PatternType::Language => "languages"@,
    }
}

/// The name of a kind as `{:?}` prints it.
pub open spec fn kind_debug_name(kind: PatternType) -> Seq<char> {
    match kind {
        PatternType::Form => "Form"@,
        PatternType::Language => "Language"@,
    }
}

impl PatternType {
    /// Name of the SQLite table for this pattern kind.
    pub fn table(self) -> (name: &'static str)
        ensures
            name@ == table_name(self),
    {
        match self {
            PatternType::Form => "forms",
            PatternType::Language => "languages",
        }
    }
}

/// One value that SQLite's `json_each` yields of a JSON cell: UTF-8 text (a
/// string element, or the JSON text of a nested array or object), or another
/// value (a number, a boolean, `null`, or text that is not valid UTF-8).
#[derive(Debug, PartialEq, Eq)]
pub enum CellValue {
    Text(String),
    Other,
}

/// A `json_each` value as characters.
pub enum CellValueView {
    Text(Seq<char>),
    Other,
}

impl View for CellValue {
    type V = CellValueView;

    open spec fn view(&self) -> CellValueView {
        match self {
            CellValue::Text(s) => CellValueView::Text(s@),
            CellValue::Other => CellValueView::Other,
        }
    }
}

/// The views of a sequence of `json_each` values.
pub open spec fn values_view(v: Seq<CellValue>) -> Seq<CellValueView> {
    v.map_values(|c: CellValue| c@)
}

/// One row of a pattern table, every cell as stored: `tags` and `themes`
/// hold the raw text of a JSON array. `tag_elements` and `theme_elements`
/// hold what `json_each` yields of those cells when they are valid JSON, and
/// nothing when they are not; `row_from_cells` reads them so
/// (`read_from_cells`).
#[derive(Debug)]
pub struct Row {
    pub name: String,
    pub description: String,
    pub focus: String,
    pub category: String,
    pub classification: String,
    pub feature: String,
    pub forced_choice: String,
    pub attachment: String,
    pub tags: String,
    pub themes: String,
    pub tag_elements: Vec<CellValue>,
    pub theme_elements: Vec<CellValue>,
}

/// The cells of a row as character sequences.
pub struct RowView {
    pub name: Seq<char>,
    pub description: Seq<char>,
    pub focus: Seq<char>,
    pub category: Seq<char>,
    pub classification: Seq<char>,
    pub feature: Seq<char>,
    pub forced_choice: Seq<char>,
    pub attachment: Seq<char>,
    pub tags: Seq<char>,
    pub themes: Seq<char>,
    pub tag_elements: Seq<CellValueView>,
    pub theme_elements: Seq<CellValueView>,
}

impl View for Row {
    type V = RowView;

    open spec fn view(&self) -> RowView {
        RowView {
            name: self.name@,
            description: self.description@,
            focus: self.focus@,
            category: self.category@,
            classification: self.classification@,
            feature: self.feature@,
            forced_choice: self.forced_choice@,
            attachment: self.attachment@,
            tags: self.tags@,
            themes: self.themes@,
            tag_elements: values_view(self.tag_elements@),
            theme_elements: values_view(self.theme_elements@),
        }
    }
}

/// Whether a row's elements are what the filters read of its `tags` and
/// `themes` cells.
pub open spec fn read_from_cells(r: RowView) -> bool {
    &&& r.tag_elements == json_cell_values(r.tags)
    &&& r.theme_elements == json_cell_values(r.themes)
}

/// The cells of one row of a pattern table, as read from the database.
#[derive(Debug)]
pub struct Cells {
    pub name: String,
    pub description: String,
    pub focus: String,
    pub category: String,
    pub classification: String,
    pub feature: String,
    pub forced_choice: String,
    pub attachment: String,
    pub tags: String,
    pub themes: String,
}

impl View for Cells {
    type V = RowView;

    /// The row these cells make: every cell as it is, and the elements of
    /// `tags` and `themes` as the filters read them.
    open spec fn view(&self) -> RowView {
        RowView {
            name: self.name@,
            description: self.description@,
            focus: self.focus@,
            category: self.category@,
            classification: self.classification@,
            feature: self.feature@,
            forced_choice: self.forced_choice@,
            attachment: self.attachment@,
            tags: self.tags@,
            themes: self.themes@,
            tag_elements: json_cell_values(self.tags@),
            theme_elements: json_cell_values(self.themes@),
        }
    }
}

/// The row that some cells make: the elements of its `tags` and `themes`
/// cells are read through SQLite's `json_valid` and `json_each`. There is
/// always a row when both cells are within SQLite's length limit.
pub fn row_from_cells(reader: &JsonReader, cells: Cells) -> (row: Option<Row>)
    ensures
        row matches Some(r) ==> r@ == cells@,
        fits_sqlite(cells.tags@) && fits_sqlite(cells.themes@) ==> row is Some,
{
    let tag_elements = match cell_values(reader, cells.tags.as_str()) {
        Some(v) => v,
        None => {
            return None;
        },
    };
    let theme_elements = match cell_values(reader, cells.themes.as_str()) {
        Some(v) => v,
        None => {
            return None;
        },
    };
    let Cells {
        name,
        description,
        focus,
        category,
        classification,
        feature,
        forced_choice,
        attachment,
        tags,
        themes,
    } = cells;
    Some(
        Row {
            name,
            description,
            focus,
            category,
            classification,
            feature,
            forced_choice,
            attachment,
            tags,
            themes,
            tag_elements,
            theme_elements,
        },
    )
}

/// The views of a sequence of rows.
pub open spec fn rows_view(rows: Seq<Row>) -> Seq<RowView> {
    rows.map_values(|r: Row| r@)
}

/// A complete pattern with all fields.
#[derive(Debug)]
pub struct Pattern {
    pub kind: PatternType,
    pub name: String,
    pub description: String,
    pub focus: String,
    pub category: String,
    pub classification: String,
    pub feature: String,
    pub forced_choice: String,
    pub attachment: String,
    pub tags: Vec<String>,
    pub themes: Vec<String>,
}

/// A pattern as character sequences.
pub struct PatternView {
    pub kind: PatternType,
    pub name: Seq<char>,
    pub description: Seq<char>,
    pub focus: Seq<char>,
    pub category: Seq<char>,
    pub classification: Seq<char>,
    pub feature: Seq<char>,
    pub forced_choice: Seq<char>,
    pub attachment: Seq<char>,
    pub tags: Seq<Seq<char>>,
    pub themes: Seq<Seq<char>>,
}

impl View for Pattern {
    type V = PatternView;

    open spec fn view(&self) -> PatternView {
        PatternView {
            kind: self.kind,
            name: self.name@,
            description: self.description@,
            focus: self.focus@,
            category: self.category@,
            classification: self.classification@,
            feature: self.feature@,
            forced_choice: self.forced_choice@,
            attachment: self.attachment@,
            tags: strings_view(self.tags@),
            themes: strings_view(self.themes@),
        }
    }
}

/// The views of a sequence of patterns.
pub open spec fn patterns_view(v: Seq<Pattern>) -> Seq<PatternView> {
    v.map_values(|p: Pattern| p@)
}

/// The pattern a row of a table of the given kind stands for: its cells, with
/// the JSON array cells read as their elements.
pub open spec fn pattern_of(kind: PatternType, r: RowView) -> PatternView {
    PatternView {
        kind: kind,
        name: r.name,
        description: r.description,
        focus: r.focus,
        category: r.category,
        classification: r.classification,
        feature: r.feature,
        forced_choice: r.forced_choice,
        attachment: r.attachment,
        tags: json_elements(r.tags),
        themes: json_elements(r.themes),
    }
}

/// The available filter values of a table, so the agent knows valid filters.
#[derive(Debug)]
pub struct Facets {
    pub kind: PatternType,
    pub categories: Vec<String>,
    pub classifications: Vec<String>,
    pub attachments: Vec<String>,
    pub tags: Vec<String>,
    pub themes: Vec<String>,
}

/// Facets as sequences of character sequences.
pub struct FacetsView {
    pub kind: PatternType,
    pub categories: Seq<Seq<char>>,
    pub classifications: Seq<Seq<char>>,
    pub attachments: Seq<Seq<char>>,
    pub tags: Seq<Seq<char>>,
    pub themes: Seq<Seq<char>>,
}

impl View for Facets {
    type V = FacetsView;

    open spec fn view(&self) -> FacetsView {
        FacetsView {
            kind: self.kind,
            categories: strings_view(self.categories@),
            classifications: strings_view(self.classifications@),
            attachments: strings_view(self.attachments@),
            tags: strings_view(self.tags@),
            themes: strings_view(self.themes@),
        }
    }
}

/// The view of an optional string.
pub open spec fn opt_view(o: Option<String>) -> Option<Seq<char>> {
    match o {
        Some(s) => Some(s@),
        None => None,
    }
}

/// Filter criteria for a search. All optional, combined with AND.
#[derive(Debug)]
pub struct SearchFilters {
    /// Exact tag (an element of the tags array).
    pub tag: Option<String>,
    /// Exact theme (an element of the themes array).
    pub theme: Option<String>,
    /// Exact category.
    pub category: Option<String>,
    /// Exact classification.
    pub classification: Option<String>,
    /// Substring within the focus field.
    pub focus: Option<String>,
    /// Substring within the forced_choice field.
    pub forced_choice: Option<String>,
    /// Exact attachment.
    pub attachment: Option<String>,
    /// Free text across name, description, feature, tags and classification.
    pub text: Option<String>,
    /// Names to exclude from results (e.g. the user's own/source language, so
    /// contrasting lenses surface). Empty means no exclusion.
    pub exclude_names: Vec<String>,
}

/// Search filters as character sequences.
pub struct FiltersView {
    pub tag: Option<Seq<char>>,
    pub theme: Option<Seq<char>>,
    pub category: Option<Seq<char>>,
    pub classification: Option<Seq<char>>,
    pub focus: Option<Seq<char>>,
    pub forced_choice: Option<Seq<char>>,
    pub attachment: Option<Seq<char>>,
    pub text: Option<Seq<char>>,
    pub exclude_names: Seq<Seq<char>>,
}

impl View for SearchFilters {
    type V = FiltersView;

    open spec fn view(&self) -> FiltersView {
        FiltersView {
            tag: opt_view(self.tag),
            theme: opt_view(self.theme),
            category: opt_view(self.category),
            classification: opt_view(self.classification),
            focus: opt_view(self.focus),
            forced_choice: opt_view(self.forced_choice),
            attachment: opt_view(self.attachment),
            text: opt_view(self.text),
            exclude_names: strings_view(self.exclude_names@),
        }
    }
}

/// Filters that restrict nothing.
pub open spec fn no_filters() -> FiltersView {
    FiltersView {
        tag: None,
        theme: None,
        category: None,
        classification: None,
        focus: None,
        forced_choice: None,
        attachment: None,
        text: None,
        exclude_names: Seq::empty(),
    }
}

impl Default for SearchFilters {
    fn default() -> (filters: Self)
        ensures
            filters@ == no_filters(),
    {
        let filters = SearchFilters {
            tag: None,
            theme: None,
            category: None,
            classification: None,
            focus: None,
            forced_choice: None,
            attachment: None,
            text: None,
            exclude_names: Vec::new(),
        };
        assert(filters@.exclude_names =~= Seq::<Seq<char>>::empty());
        filters
    }
}

} // verus!
