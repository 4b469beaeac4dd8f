//! The parameters of the four tools and the answers that need no database.

use vstd::prelude::*;

use crate::json::strings_view;
use crate::models::{
    FiltersView, PatternType, SearchFilters, kind_debug_name, no_filters, opt_view,
};

verus! {

/// Parameters for the search. All fields optional, combined with AND.
#[derive(Debug)]
pub struct SearchParams {
    /// Pattern kind: 'form', 'language', or omit for both.
    pub kind: Option<PatternType>,
    /// Exact tag (an element of the tags array).
    pub tag: Option<String>,
    /// Exact theme, e.g. 'Causality' or 'Coexistence'.
    pub theme: Option<String>,
    /// Exact category, e.g. 'Poetic form', 'Register' or 'Technique'.
    pub category: Option<String>,
    /// Exact classification.
    pub classification: Option<String>,
    /// Substring that should appear in the focus field.
    pub focus: Option<String>,
    /// Substring in the forced_choice field: the choice a pattern makes
    /// obligatory, e.g. 'source of the information'.
    pub forced_choice: Option<String>,
    /// Exact attachment: the constituent a pattern interrogates, e.g. 'verb',
    /// 'subject', 'noun', 'possessive', 'whole passage'.
    pub attachment: Option<String>,
    /// Free text across name, description, feature, tags and classification.
    pub text: Option<String>,
    /// Names to exclude, e.g. the user's own language, so that contrasting
    /// lenses surface rather than the structure they already think in.
    pub exclude_names: Option<Vec<String>>,
}

/// The filters that search parameters stand for; a missing exclusion list
/// excludes nothing.
pub open spec fn filters_of(p: SearchParams) -> FiltersView {
    FiltersView {
        tag: opt_view(p.tag),
        theme: opt_view(p.theme),
        category: opt_view(p.category),
        classification: opt_view(p.classification),
        focus: opt_view(p.focus),
        forced_choice: opt_view(p.forced_choice),
        attachment: opt_view(p.attachment),
        text: opt_view(p.text),
        exclude_names: match p.exclude_names {
            Some(names) => strings_view(names@),
            None => Seq::empty(),
        },
    }
}

impl SearchParams {
    /// Splits the parameters into the kind and the filters.
    pub fn split(self) -> (parts: (Option<PatternType>, SearchFilters))
        ensures
            parts.0 == self.kind,
            parts.1@ == filters_of(self),
    {
        let ghost params = self;
        let exclude_names = match self.exclude_names {
            Some(names) => names,
            None => Vec::new(),
        };
        let filters = SearchFilters {
            tag: self.tag,
            theme: self.theme,
            category: self.category,
            classification: self.classification,
            focus: self.focus,
            forced_choice: self.forced_choice,
            attachment: self.attachment,
            text: self.text,
            exclude_names,
        };
        assert(filters@.exclude_names =~= filters_of(params).exclude_names);
        (self.kind, filters)
    }
}

/// Search parameters that give no filter restrict nothing, so a search with
/// them lists what `list_patterns` lists; a missing exclusion list and an
/// empty one are the same.
pub proof fn empty_search_parameters_filter_nothing(p: SearchParams)
    requires
        p.tag is None,
        p.theme is None,
        p.category is None,
        p.classification is None,
        p.focus is None,
        p.forced_choice is None,
        p.attachment is None,
        p.text is None,
        p.exclude_names matches Some(names) ==> names@.len() == 0,
    ensures
        filters_of(p) == no_filters(),
{
    assert(filters_of(p).exclude_names =~= Seq::<Seq<char>>::empty());
}

/// Parameters for fetching a single pattern.
#[derive(Debug)]
pub struct GetParams {
    /// Pattern kind: 'form' or 'language'.
    pub kind: PatternType,
    /// Exact name of the pattern.
    pub name: String,
}

/// Parameters for listing / facets, optionally restricted to one kind.
#[derive(Debug)]
pub struct ListParams {
    /// Optional pattern kind ('form' or 'language') to restrict to.
    pub kind: Option<PatternType>,
}

/// The answer to a lookup that found nothing: a message, not an error.
pub fn missing_pattern_message(kind: PatternType, name: &str) -> (text: String)
    ensures
        text@ == "No pattern '"@ + name@ + "' of kind "@ + kind_debug_name(kind) + " found."@,
{
    let mut text = "No pattern '".to_owned();
    text.append(name);
    text.append("' of kind ");
    match kind {
        PatternType::Form => text.append("Form"),
        PatternType::Language => text.append("Language"),
    }
    text.append(" found.");
    text
}

} // verus!
