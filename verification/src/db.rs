//! Typed queries over the catalogue: search by filters, lookup by name and
//! the available filter values.

use vstd::prelude::*;

use crate::catalog::{
    Catalog, Table, lemma_insert_sorted, lemma_sorted_distinct, names_of, strictly_sorted, table_of,
};
use crate::json::{json_cell_values, json_elements, parse_json_array, strings_view};
use crate::like::{
    contains_pattern, contains_pattern_of, lemma_contains_occurrence,
    lemma_contains_occurrence_in_any_case, like_match, literal_in_any_case, lemma_contains_itself, lemma_percent_matches_everything, like,
    like_contains,
};
use crate::models::{
    FiltersView, Pattern, PatternType, PatternView, Row, RowView, SearchFilters, no_filters,
    pattern_of, read_from_cells,
    patterns_view, rows_view,
};
use crate::text::{
    chars_equal, chars_of, lemma_str_less_total, less_than, str_less,
};
use crate::models::{CellValue, CellValueView, Facets, FacetsView, values_view};

verus! {

// ---- what a filter accepts -------------------------------------------------

/// An exact filter: absent, or equal to the cell.
pub open spec fn exact_ok(cell: Seq<char>, want: Option<Seq<char>>) -> bool {
    match want {
        Some(w) => cell == w,
        None => true,
    }
}

/// A substring filter: absent, or `cell LIKE '%want%'`.
pub open spec fn contains_ok(cell: Seq<char>, want: Option<Seq<char>>) -> bool {
    match want {
        Some(w) => like_contains(cell, w),
        None => true,
    }
}

/// The free-text filter: absent, or found in the name, description, feature,
/// raw tags or classification.
pub open spec fn text_ok(r: RowView, want: Option<Seq<char>>) -> bool {
    match want {
        Some(t) => like_contains(r.name, t) || like_contains(r.description, t) || like_contains(
            r.feature,
            t,
        ) || like_contains(r.tags, t) || like_contains(r.classification, t),
        None => true,
    }
}

/// An element filter: absent, or equal to a text value that `json_each`
/// yields of the cell.
pub open spec fn element_ok(cells: Seq<CellValueView>, want: Option<Seq<char>>) -> bool {
    match want {
        Some(w) => cells.contains(CellValueView::Text(w)),
        None => true,
    }
}

/// Whether a row passes every filter.
pub open spec fn row_matches(r: RowView, f: FiltersView) -> bool {
    &&& exact_ok(r.category, f.category)
    &&& exact_ok(r.classification, f.classification)
    &&& contains_ok(r.focus, f.focus)
    &&& contains_ok(r.forced_choice, f.forced_choice)
    &&& exact_ok(r.attachment, f.attachment)
    &&& text_ok(r, f.text)
    &&& !f.exclude_names.contains(r.name)
    &&& element_ok(r.tag_elements, f.tag)
    &&& element_ok(r.theme_elements, f.theme)
}

/// The patterns of the rows that pass the filters, in the order of the rows.
pub open spec fn query_spec(rows: Seq<RowView>, kind: PatternType, f: FiltersView) -> Seq<
    PatternView,
>
    decreases rows.len(),
{
    if rows.len() == 0 {
        Seq::empty()
    } else {
        let rest = query_spec(rows.drop_last(), kind, f);
        if row_matches(rows.last(), f) {
            rest.push(pattern_of(kind, rows.last()))
        } else {
            rest
        }
    }
}

/// What a search returns: the matches of one table, or of the forms followed
/// by those of the languages.
pub open spec fn search_spec(c: Catalog, kind: Option<PatternType>, f: FiltersView) -> Seq<
    PatternView,
> {
    match kind {
        Some(k) => query_spec(table_of(c, k), k, f),
        None => query_spec(c.forms@, PatternType::Form, f) + query_spec(
            c.languages@,
            PatternType::Language,
            f,
        ),
    }
}

// ---- the filters, executed -------------------------------------------------

fn exact_filter(cell: &String, want: &Option<String>) -> (ok: bool)
    ensures
        ok == exact_ok(cell@, crate::models::opt_view(*want)),
{
    match want {
        Some(w) => *cell == *w,
        None => true,
    }
}

fn cell_contains(cell: &String, pattern: &Vec<char>) -> (ok: bool)
    ensures
        ok == crate::like::like_match(pattern@, cell@),
{
    like(pattern, &chars_of(cell.as_str()))
}

fn contains_filter(cell: &String, want: &Option<String>) -> (ok: bool)
    ensures
        ok == contains_ok(cell@, crate::models::opt_view(*want)),
{
    match want {
        Some(w) => cell_contains(cell, &contains_pattern_of(&chars_of(w.as_str()))),
        None => true,
    }
}

fn text_filter(row: &Row, want: &Option<String>) -> (ok: bool)
    ensures
        ok == text_ok(row@, crate::models::opt_view(*want)),
{
    match want {
        Some(t) => {
            let p = contains_pattern_of(&chars_of(t.as_str()));
            cell_contains(&row.name, &p) || cell_contains(&row.description, &p) || cell_contains(
                &row.feature,
                &p,
            ) || cell_contains(&row.tags, &p) || cell_contains(&row.classification, &p)
        },
        None => true,
    }
}

/// Whether `v` holds a string equal to `x`.
fn holds(v: &Vec<String>, x: &String) -> (found: bool)
    ensures
        found == strings_view(v@).contains(x@),
{
    let mut i: usize = 0;
    while i < v.len()
        invariant
            i <= v.len(),
            forall|k: int| 0 <= k < i ==> v@[k]@ != x@,
        decreases v.len() - i,
    {
        if v[i] == *x {
            assert(strings_view(v@)[i as int] == x@);
            return true;
        }
        i = i + 1;
    }
    proof {
        if strings_view(v@).contains(x@) {
            let k = choose|k: int| 0 <= k < strings_view(v@).len() && strings_view(v@)[k] == x@;
            assert(v@[k]@ == x@);
        }
    }
    false
}

fn element_filter(cells: &Vec<CellValue>, want: &Option<String>) -> (ok: bool)
    ensures
        ok == element_ok(values_view(cells@), crate::models::opt_view(*want)),
{
    match want {
        Some(w) => {
            let ghost t = CellValueView::Text(w@);
            let mut i: usize = 0;
            while i < cells.len()
                invariant
                    i <= cells.len(),
                    t == CellValueView::Text(w@),
                    crate::models::opt_view(*want) == Some(w@),
                    forall|k: int| 0 <= k < i ==> values_view(cells@)[k] != t,
                decreases cells.len() - i,
            {
                match &cells[i] {
                    CellValue::Text(s) => {
                        if *s == *w {
                            assert(cells@[i as int]@ == CellValueView::Text(s@));
                            assert(values_view(cells@)[i as int] == t);
                            assert(values_view(cells@).contains(t));
                            return true;
                        }
                    },
                    CellValue::Other => {},
                }
                i = i + 1;
            }
            proof {
                if values_view(cells@).contains(t) {
                    let k = choose|k: int| 0 <= k < values_view(cells@).len() && values_view(cells@)[k] == t;
                    assert(values_view(cells@)[k] != t);
                }
            }
            false
        },
        None => true,
    }
}

/// Whether a row passes every filter.
pub fn matches(row: &Row, filters: &SearchFilters) -> (ok: bool)
    ensures
        ok == row_matches(row@, filters@),
{
    exact_filter(&row.category, &filters.category) && exact_filter(
        &row.classification,
        &filters.classification,
    ) && contains_filter(&row.focus, &filters.focus) && contains_filter(
        &row.forced_choice,
        &filters.forced_choice,
    ) && exact_filter(&row.attachment, &filters.attachment) && text_filter(row, &filters.text)
        && !holds(&filters.exclude_names, &row.name) && element_filter(
        &row.tag_elements,
        &filters.tag,
    ) && element_filter(&row.theme_elements, &filters.theme)
}

/// The pattern a row of a table of the given kind stands for.
pub fn pattern_from_row(kind: PatternType, row: &Row) -> (p: Pattern)
    ensures
        p@ == pattern_of(kind, row@),
{
    Pattern {
        kind,
        name: row.name.clone(),
        description: row.description.clone(),
        focus: row.focus.clone(),
        category: row.category.clone(),
        classification: row.classification.clone(),
        feature: row.feature.clone(),
        forced_choice: row.forced_choice.clone(),
        attachment: row.attachment.clone(),
        tags: parse_json_array(row.tags.as_str()),
        themes: parse_json_array(row.themes.as_str()),
    }
}

/// Reads the patterns of one table that pass the filters, ordered by name.
pub fn query_table(table: &Table, kind: PatternType, filters: &SearchFilters) -> (out: Vec<
    Pattern,
>)
    ensures
        patterns_view(out@) == query_spec(table@, kind, filters@),
{
    let rows = table.rows();
    let mut out: Vec<Pattern> = Vec::new();
    let mut i: usize = 0;
    assert(table@.take(0) =~= Seq::<RowView>::empty());
    assert(patterns_view(out@) =~= Seq::<PatternView>::empty());
    while i < rows.len()
        invariant
            i <= rows.len(),
            rows_view(rows@) == table@,
            patterns_view(out@) == query_spec(table@.take(i as int), kind, filters@),
        decreases rows.len() - i,
    {
        let ghost before = out@;
        let row = &rows[i];
        proof {
            let t = table@.take(i + 1);
            assert(t.drop_last() =~= table@.take(i as int));
            assert(t.last() == row@);
        }
        if matches(row, filters) {
            let p = pattern_from_row(kind, row);
            out.push(p);
            assert(patterns_view(out@) =~= patterns_view(before).push(p@));
        }
        i = i + 1;
    }
    assert(table@.take(rows.len() as int) =~= table@);
    out
}

/// Searches patterns across one or both kinds: forms first, then languages.
pub fn search(catalog: &Catalog, kind: Option<PatternType>, filters: &SearchFilters) -> (out: Vec<
    Pattern,
>)
    ensures
        patterns_view(out@) == search_spec(*catalog, kind, filters@),
{
    match kind {
        Some(k) => query_table(catalog.table(k), k, filters),
        None => {
            let mut out = query_table(&catalog.forms, PatternType::Form, filters);
            let mut languages = query_table(&catalog.languages, PatternType::Language, filters);
            let ghost a = out@;
            let ghost b = languages@;
            out.append(&mut languages);
            assert(patterns_view(out@) =~= patterns_view(a) + patterns_view(b));
            out
        },
    }
}

/// Fetches a single pattern by kind and exact name.
pub fn get(catalog: &Catalog, kind: PatternType, name: &str) -> (found: Option<Pattern>)
    ensures
        match found {
            Some(p) => exists|i: int|
                0 <= i < table_of(*catalog, kind).len() && #[trigger] table_of(
                    *catalog,
                    kind,
                )[i].name == name@ && p@ == pattern_of(kind, table_of(*catalog, kind)[i]),
            None => forall|i: int|
                0 <= i < table_of(*catalog, kind).len() ==> #[trigger] table_of(
                    *catalog,
                    kind,
                )[i].name != name@,
        },
{
    let table = catalog.table(kind);
    let rows = table.rows();
    let wanted = chars_of(name);
    let mut i: usize = 0;
    while i < rows.len()
        invariant
            i <= rows.len(),
            rows_view(rows@) == table_of(*catalog, kind),
            wanted@ == name@,
            forall|k: int| 0 <= k < i ==> #[trigger] rows@[k].name@ != name@,
        decreases rows.len() - i,
    {
        if crate::text::chars_equal(&chars_of(rows[i].name.as_str()), &wanted) {
            let p = pattern_from_row(kind, &rows[i]);
            assert(table_of(*catalog, kind)[i as int] == rows@[i as int]@);
            return Some(p);
        }
        i = i + 1;
    }
    proof {
        assert forall|k: int| 0 <= k < table_of(*catalog, kind).len() implies #[trigger] table_of(
            *catalog,
            kind,
        )[k].name != name@ by {
            assert(table_of(*catalog, kind)[k] == rows@[k]@);
        }
    }
    None
}

// ---- seeding ---------------------------------------------------------------

/// Whether the seed is to be applied to a database whose tables hold the
/// given numbers of rows: only when both are empty, so a database is seeded
/// at most once and rows already there are never touched.
pub fn seed_needed(form_rows: u64, language_rows: u64) -> (seed: bool)
    ensures
        seed == (form_rows == 0 && language_rows == 0),
{
    form_rows == 0 && language_rows == 0
}

// ---- facets ----------------------------------------------------------------

/// A plain column that facets list.
#[derive(Clone, Copy)]
pub enum Column {
    Category,
    Classification,
    Attachment,
}

/// A column that holds a JSON array.
#[derive(Clone, Copy)]
pub enum ArrayColumn {
    Tags,
    Themes,
}

/// The cell of a row in a plain column.
pub open spec fn cell_of(r: RowView, col: Column) -> Seq<char> {
    match col {
        Column::Category => r.category,
        Column::Classification => r.classification,
        Column::Attachment => r.attachment,
    }
}

/// The cell of a row in an array column.
pub open spec fn array_cell_of(r: RowView, col: ArrayColumn) -> Seq<CellValueView> {
    match col {
        ArrayColumn::Tags => r.tag_elements,
        ArrayColumn::Themes => r.theme_elements,
    }
}

/// The non-empty values of a plain column.
pub open spec fn column_values(rows: Seq<RowView>, col: Column) -> Set<Seq<char>> {
    Set::new(
        |s: Seq<char>|
            s.len() > 0 && exists|i: int| 0 <= i < rows.len() && cell_of(#[trigger] rows[i], col) == s,
    )
}

/// The text values that `json_each` yields of the cells of an array column.
pub open spec fn element_values(rows: Seq<RowView>, col: ArrayColumn) -> Set<Seq<char>> {
    Set::new(
        |s: Seq<char>|
            exists|i: int|
                0 <= i < rows.len() && array_cell_of(#[trigger] rows[i], col).contains(
                    CellValueView::Text(s),
                ),
    )
}

/// `v` lists the strings of `values`, each once, in code-point order.
pub open spec fn lists(v: Seq<Seq<char>>, values: Set<Seq<char>>) -> bool {
    &&& strictly_sorted(v)
    &&& forall|s: Seq<char>| #[trigger] v.contains(s) <==> values.contains(s)
}

/// The facets of the rows of a table of the given kind.
pub open spec fn facets_of(f: FacetsView, kind: PatternType, rows: Seq<RowView>) -> bool {
    &&& f.kind == kind
    &&& lists(f.categories, column_values(rows, Column::Category))
    &&& lists(f.classifications, column_values(rows, Column::Classification))
    &&& lists(f.attachments, column_values(rows, Column::Attachment))
    &&& lists(f.tags, element_values(rows, ArrayColumn::Tags))
    &&& lists(f.themes, element_values(rows, ArrayColumn::Themes))
}

/// Adds a string to a sorted list of distinct strings, unless it is there.
fn insert_value(out: &mut Vec<String>, x: String)
    requires
        strictly_sorted(strings_view(old(out)@)),
    ensures
        strictly_sorted(strings_view(final(out)@)),
        forall|s: Seq<char>|
            #[trigger] strings_view(final(out)@).contains(s) <==> (strings_view(old(out)@).contains(s)
                || s == x@),
{
    let ghost old_v = strings_view(out@);
    let name = chars_of(x.as_str());
    let mut k: usize = 0;
    while k < out.len() && less_than(&chars_of(out[k].as_str()), &name)
        invariant
            k <= out.len(),
            old_v == strings_view(out@),
            name@ == x@,
            forall|i: int| 0 <= i < k ==> str_less(#[trigger] old_v[i], x@),
        decreases out.len() - k,
    {
        k = k + 1;
    }
    if k < out.len() && chars_equal(&chars_of(out[k].as_str()), &name) {
        assert(old_v[k as int] == x@);
        return;
    }
    proof {
        if k < out.len() {
            lemma_str_less_total(old_v[k as int], x@);
        }
        lemma_insert_sorted(old_v, k as int, x@);
    }
    out.insert(k, x);
    proof {
        let nv = strings_view(out@);
        assert(nv =~= old_v.insert(k as int, x@));
        assert forall|s: Seq<char>| #[trigger] nv.contains(s) <==> (old_v.contains(s) || s == x@) by {
            if nv.contains(s) {
                let i = choose|i: int| 0 <= i < nv.len() && nv[i] == s;
                if i < k {
                    assert(old_v[i] == s);
                } else if i > k {
                    assert(old_v[i - 1] == s);
                }
            }
            if old_v.contains(s) {
                let i = choose|i: int| 0 <= i < old_v.len() && old_v[i] == s;
                if i < k {
                    assert(nv[i] == s);
                } else {
                    assert(nv[i + 1] == s);
                }
            }
            if s == x@ {
                assert(nv[k as int] == s);
            }
        }
    }
}

fn column_cell(row: &Row, col: Column) -> (cell: &String)
    ensures
        cell@ == cell_of(row@, col),
{
    match col {
        Column::Category => &row.category,
        Column::Classification => &row.classification,
        Column::Attachment => &row.attachment,
    }
}

fn array_cell(row: &Row, col: ArrayColumn) -> (cells: &Vec<CellValue>)
    ensures
        values_view(cells@) == array_cell_of(row@, col),
{
    match col {
        ArrayColumn::Tags => &row.tag_elements,
        ArrayColumn::Themes => &row.theme_elements,
    }
}

/// The distinct non-empty values of a plain column, sorted.
pub fn distinct_column(table: &Table, col: Column) -> (out: Vec<String>)
    ensures
        lists(strings_view(out@), column_values(table@, col)),
{
    let rows = table.rows();
    let mut out: Vec<String> = Vec::new();
    let mut i: usize = 0;
    while i < rows.len()
        invariant
            i <= rows.len(),
            rows_view(rows@) == table@,
            strictly_sorted(strings_view(out@)),
            forall|s: Seq<char>|
                #[trigger] strings_view(out@).contains(s) <==> (s.len() > 0 && exists|k: int|
                    0 <= k < i && cell_of(#[trigger] table@[k], col) == s),
        decreases rows.len() - i,
    {
        let cell = column_cell(&rows[i], col);
        let ghost before = strings_view(out@);
        proof {
            assert(table@[i as int] == rows@[i as int]@);
        }
        if !cell.as_str().is_empty() {
            insert_value(&mut out, cell.clone());
        }
        proof {
            assert forall|s: Seq<char>|
                #[trigger] strings_view(out@).contains(s) <==> (s.len() > 0 && exists|k: int|
                    0 <= k < i + 1 && cell_of(#[trigger] table@[k], col) == s) by {
                if s.len() > 0 && cell_of(table@[i as int], col) == s {
                    assert(cell@.len() > 0);
                }
                if s.len() > 0 && exists|k: int| 0 <= k < i + 1 && cell_of(#[trigger] table@[k], col) == s {
                    let k = choose|k: int| 0 <= k < i + 1 && cell_of(#[trigger] table@[k], col) == s;
                    if k < i {
                        assert(before.contains(s));
                    }
                }
            }
        }
        i = i + 1;
    }
    proof {
        assert forall|s: Seq<char>| #[trigger] strings_view(out@).contains(s) <==> column_values(
            table@,
            col,
        ).contains(s) by {}
    }
    out
}

/// Every value of the cells is text.
pub open spec fn all_text(cells: Seq<CellValueView>) -> bool {
    forall|k: int| 0 <= k < cells.len() ==> #[trigger] cells[k] is Text
}

/// Every value that `json_each` yields of the cells of an array column is
/// text.
pub open spec fn column_all_text(rows: Seq<RowView>, col: ArrayColumn) -> bool {
    forall|i: int| 0 <= i < rows.len() ==> all_text(array_cell_of(#[trigger] rows[i], col))
}

/// A facet reached a value that is not text (a number, a boolean, `null`),
/// which cannot be read as a string.
#[derive(Debug)]
pub struct NonTextValue;

/// The distinct values of the JSON cells of a column, sorted. A cell that is
/// not valid JSON contributes nothing; a value that is not text makes the
/// whole call fail.
pub fn distinct_json(table: &Table, col: ArrayColumn) -> (res: Result<Vec<String>, NonTextValue>)
    ensures
        res is Ok <==> column_all_text(table@, col),
        res matches Ok(out) ==> lists(strings_view(out@), element_values(table@, col)),
{
    let rows = table.rows();
    let mut out: Vec<String> = Vec::new();
    let mut i: usize = 0;
    while i < rows.len()
        invariant
            i <= rows.len(),
            rows_view(rows@) == table@,
            strictly_sorted(strings_view(out@)),
            forall|k: int| 0 <= k < i ==> all_text(array_cell_of(#[trigger] table@[k], col)),
            forall|s: Seq<char>|
                #[trigger] strings_view(out@).contains(s) <==> exists|k: int|
                    0 <= k < i && array_cell_of(#[trigger] table@[k], col).contains(
                        CellValueView::Text(s),
                    ),
        decreases rows.len() - i,
    {
        let cells = array_cell(&rows[i], col);
        let ghost elems = values_view(cells@);
        let ghost start = strings_view(out@);
        proof {
            assert(table@[i as int] == rows@[i as int]@);
            assert(elems == array_cell_of(table@[i as int], col));
        }
        let mut j: usize = 0;
        let n = cells.len();
        while j < n
            invariant
                j <= n == elems.len() == cells@.len(),
                elems == values_view(cells@),
                i < rows.len(),
                rows_view(rows@) == table@,
                elems == array_cell_of(table@[i as int], col),
                forall|q: int| 0 <= q < j ==> #[trigger] elems[q] is Text,
                strictly_sorted(strings_view(out@)),
                forall|s: Seq<char>|
                    #[trigger] strings_view(out@).contains(s) <==> (start.contains(s)
                        || elems.take(j as int).contains(CellValueView::Text(s))),
            decreases n - j,
        {
            let ghost e = elems[j as int];
            match &cells[j] {
                CellValue::Text(item) => {
                    let ghost before = strings_view(out@);
                    proof {
                        assert(e == CellValueView::Text(item@));
                        assert(forall|s: Seq<char>|
                            #[trigger] before.contains(s) <==> (start.contains(s) || elems.take(
                                j as int,
                            ).contains(CellValueView::Text(s))));
                    }
                    insert_value(&mut out, item.clone());
                    proof {
                        assert(elems.take(j + 1) =~= elems.take(j as int).push(e));
                        assert forall|s: Seq<char>|
                            #[trigger] strings_view(out@).contains(s) <==> (start.contains(s)
                                || elems.take(j + 1).contains(CellValueView::Text(s))) by {
                            assert(strings_view(out@).contains(s) <==> (before.contains(s) || s
                                == item@));
                            let t = CellValueView::Text(s);
                            if elems.take(j + 1).contains(t) && s != item@ {
                                let q = choose|q: int|
                                    0 <= q < j + 1 && #[trigger] elems.take(j + 1)[q] == t;
                                assert(elems.take(j as int)[q] == t);
                            }
                            if elems.take(j as int).contains(t) {
                                let q = choose|q: int|
                                    0 <= q < j && #[trigger] elems.take(j as int)[q] == t;
                                assert(elems.take(j + 1)[q] == t);
                            }
                            if s == item@ {
                                assert(elems.take(j + 1)[j as int] == t);
                            }
                        }
                    }
                },
                CellValue::Other => {
                    proof {
                        assert(!(elems[j as int] is Text));
                        assert(!all_text(array_cell_of(table@[i as int], col)));
                    }
                    return Err(NonTextValue);
                },
            }
            j = j + 1;
        }
        proof {
            assert(elems.take(n as int) =~= elems);
            assert(all_text(elems));
            assert forall|s: Seq<char>|
                #[trigger] strings_view(out@).contains(s) <==> exists|k: int|
                    0 <= k < i + 1 && array_cell_of(#[trigger] table@[k], col).contains(
                        CellValueView::Text(s),
                    ) by {
                if exists|k: int|
                    0 <= k < i + 1 && array_cell_of(#[trigger] table@[k], col).contains(
                        CellValueView::Text(s),
                    ) {
                    let k = choose|k: int|
                        0 <= k < i + 1 && array_cell_of(#[trigger] table@[k], col).contains(
                            CellValueView::Text(s),
                        );
                    if k < i {
                        assert(start.contains(s));
                    }
                }
            }
        }
        i = i + 1;
    }
    proof {
        assert forall|s: Seq<char>| #[trigger] strings_view(out@).contains(s) <==> element_values(
            table@,
            col,
        ).contains(s) by {}
    }
    Ok(out)
}

/// Collects the available filter values of a table; fails when a JSON cell
/// yields a value that is not text.
pub fn facets_for(catalog: &Catalog, kind: PatternType) -> (res: Result<Facets, NonTextValue>)
    ensures
        res is Ok <==> (column_all_text(table_of(*catalog, kind), ArrayColumn::Tags)
            && column_all_text(table_of(*catalog, kind), ArrayColumn::Themes)),
        res matches Ok(f) ==> facets_of(f@, kind, table_of(*catalog, kind)),
{
    let table = catalog.table(kind);
    let categories = distinct_column(table, Column::Category);
    let classifications = distinct_column(table, Column::Classification);
    let attachments = distinct_column(table, Column::Attachment);
    let tags = match distinct_json(table, ArrayColumn::Tags) {
        Ok(v) => v,
        Err(e) => return Err(e),
    };
    let themes = match distinct_json(table, ArrayColumn::Themes) {
        Ok(v) => v,
        Err(e) => return Err(e),
    };
    Ok(Facets { kind, categories, classifications, attachments, tags, themes })
}

/// The facets of the table of a kind can be listed: every value its JSON
/// cells yield is text.
pub open spec fn facets_readable(c: Catalog, kind: PatternType) -> bool {
    column_all_text(table_of(c, kind), ArrayColumn::Tags) && column_all_text(
        table_of(c, kind),
        ArrayColumn::Themes,
    )
}

/// Returns facets for one kind, or for the forms and then the languages;
/// fails when a table read yields a JSON value that is not text.
pub fn facets(catalog: &Catalog, kind: Option<PatternType>) -> (res: Result<
    Vec<Facets>,
    NonTextValue,
>)
    ensures
        match kind {
            Some(k) => (res is Ok <==> facets_readable(*catalog, k)) && (res matches Ok(out) ==> out@.len()
                == 1 && facets_of(out@[0]@, k, table_of(*catalog, k))),
            None => (res is Ok <==> (facets_readable(*catalog, PatternType::Form) && facets_readable(
                *catalog,
                PatternType::Language,
            ))) && (res matches Ok(out) ==> out@.len() == 2 && facets_of(
                out@[0]@,
                PatternType::Form,
                catalog.forms@,
            ) && facets_of(out@[1]@, PatternType::Language, catalog.languages@)),
        },
{
    let mut out: Vec<Facets> = Vec::new();
    match kind {
        Some(k) => {
            out.push(facets_for(catalog, k)?);
        },
        None => {
            out.push(facets_for(catalog, PatternType::Form)?);
            out.push(facets_for(catalog, PatternType::Language)?);
        },
    }
    Ok(out)
}

// ---- properties of the queries ---------------------------------------------

/// The names of some patterns, in order.
pub open spec fn pattern_names(ps: Seq<PatternView>) -> Seq<Seq<char>> {
    ps.map_values(|p: PatternView| p.name)
}

/// A search returns the pattern of a row exactly when the row passes every
/// filter: nothing that fails a filter, nothing left out that passes them all.
pub proof fn search_returns_exactly_the_matching_rows(
    rows: Seq<RowView>,
    kind: PatternType,
    f: FiltersView,
)
    ensures
        forall|p: PatternView|
            #[trigger] query_spec(rows, kind, f).contains(p) <==> exists|i: int|
                0 <= i < rows.len() && row_matches(rows[i], f) && p == pattern_of(kind, rows[i]),
    decreases rows.len(),
{
    if rows.len() > 0 {
        let init = rows.drop_last();
        search_returns_exactly_the_matching_rows(init, kind, f);
        let rest = query_spec(init, kind, f);
        let q = query_spec(rows, kind, f);
        assert forall|p: PatternView| #[trigger] q.contains(p) <==> exists|i: int|
            0 <= i < rows.len() && row_matches(rows[i], f) && p == pattern_of(kind, rows[i]) by {
            if q.contains(p) {
                let k = choose|k: int| 0 <= k < q.len() && q[k] == p;
                if k < rest.len() {
                    assert(rest[k] == p);
                    assert(rest.contains(p));
                    let i = choose|i: int|
                        0 <= i < init.len() && row_matches(init[i], f) && p == pattern_of(kind, init[i]);
                    assert(rows[i] == init[i]);
                } else {
                    assert(row_matches(rows[rows.len() - 1], f));
                }
            }
            if exists|i: int|
                0 <= i < rows.len() && row_matches(rows[i], f) && p == pattern_of(kind, rows[i]) {
                let i = choose|i: int|
                    0 <= i < rows.len() && row_matches(rows[i], f) && p == pattern_of(kind, rows[i]);
                if i < rows.len() - 1 {
                    assert(init[i] == rows[i]);
                    assert(rest.contains(p));
                    let k = choose|k: int| 0 <= k < rest.len() && rest[k] == p;
                    assert(q[k] == p);
                } else {
                    assert(q[q.len() - 1] == p);
                }
            }
        }
    }
}

/// The results of a search over a table are in the order of their names.
pub proof fn search_results_are_sorted_by_name(
    rows: Seq<RowView>,
    kind: PatternType,
    f: FiltersView,
)
    requires
        strictly_sorted(names_of(rows)),
    ensures
        strictly_sorted(pattern_names(query_spec(rows, kind, f))),
    decreases rows.len(),
{
    if rows.len() > 0 {
        let init = rows.drop_last();
        assert(names_of(init) =~= names_of(rows).drop_last());
        search_results_are_sorted_by_name(init, kind, f);
        let rest = query_spec(init, kind, f);
        if row_matches(rows.last(), f) {
            let last = pattern_of(kind, rows.last());
            search_returns_exactly_the_matching_rows(init, kind, f);
            let names = pattern_names(rest.push(last));
            assert forall|i: int, j: int| 0 <= i < j < names.len() implies str_less(
                #[trigger] names[i],
                #[trigger] names[j],
            ) by {
                if j < rest.len() {
                    assert(names[i] == pattern_names(rest)[i]);
                    assert(names[j] == pattern_names(rest)[j]);
                } else {
                    assert(rest.contains(rest[i]));
                    let k = choose|k: int|
                        0 <= k < init.len() && row_matches(init[k], f) && rest[i] == pattern_of(
                            kind,
                            init[k],
                        );
                    assert(names_of(rows)[k] == init[k].name);
                    assert(names_of(rows)[rows.len() - 1] == rows.last().name);
                }
            }
        }
    }
}

/// Filters that accept the same rows give the same results.
pub proof fn lemma_same_matches_same_results(
    rows: Seq<RowView>,
    kind: PatternType,
    f: FiltersView,
    g: FiltersView,
)
    requires
        forall|i: int| 0 <= i < rows.len() ==> row_matches(rows[i], f) == row_matches(rows[i], g),
    ensures
        query_spec(rows, kind, f) == query_spec(rows, kind, g),
    decreases rows.len(),
{
    if rows.len() > 0 {
        let init = rows.drop_last();
        assert forall|i: int| 0 <= i < init.len() implies row_matches(init[i], f) == row_matches(
            init[i],
            g,
        ) by {
            assert(init[i] == rows[i]);
        }
        lemma_same_matches_same_results(init, kind, f, g);
        assert(row_matches(rows[rows.len() - 1], f) == row_matches(rows[rows.len() - 1], g));
    }
}

/// Without filters a search lists every row of the table, in order.
pub proof fn unfiltered_search_lists_every_row(rows: Seq<RowView>, kind: PatternType)
    ensures
        query_spec(rows, kind, no_filters()) == rows.map_values(|r: RowView| pattern_of(kind, r)),
    decreases rows.len(),
{
    if rows.len() > 0 {
        let init = rows.drop_last();
        unfiltered_search_lists_every_row(init, kind);
        assert(row_matches(rows.last(), no_filters()));
        assert(rows.map_values(|r: RowView| pattern_of(kind, r)) =~= init.map_values(
            |r: RowView| pattern_of(kind, r),
        ).push(pattern_of(kind, rows.last())));
    } else {
        assert(rows.map_values(|r: RowView| pattern_of(kind, r)) =~= Seq::<PatternView>::empty());
    }
}

/// A free-text filter of `%` alone finds every row.
pub proof fn a_percent_text_filter_matches_every_row(rows: Seq<RowView>, kind: PatternType)
    ensures
        query_spec(
            rows,
            kind,
            FiltersView { text: Some(seq!['%']), ..no_filters() },
        ) == query_spec(rows, kind, no_filters()),
{
    let f = FiltersView { text: Some(seq!['%']), ..no_filters() };
    assert forall|i: int| 0 <= i < rows.len() implies row_matches(rows[i], f) == row_matches(
        rows[i],
        no_filters(),
    ) by {
        let p = contains_pattern(seq!['%']);
        assert(p =~= seq!['%', '%', '%']);
        lemma_percent_matches_everything(p, rows[i].name);
    }
    lemma_same_matches_same_results(rows, kind, f, no_filters());
}

/// The patterns whose names are not among `names`, in order.
pub open spec fn drop_named(ps: Seq<PatternView>, names: Seq<Seq<char>>) -> Seq<PatternView>
    decreases ps.len(),
{
    if ps.len() == 0 {
        Seq::empty()
    } else {
        let rest = drop_named(ps.drop_last(), names);
        if names.contains(ps.last().name) {
            rest
        } else {
            rest.push(ps.last())
        }
    }
}

/// Excluding names removes exactly the patterns of those names from a search
/// and leaves the rest as it was.
pub proof fn excluding_names_drops_exactly_those_patterns(
    rows: Seq<RowView>,
    kind: PatternType,
    f: FiltersView,
    names: Seq<Seq<char>>,
)
    requires
        f.exclude_names.len() == 0,
    ensures
        query_spec(rows, kind, FiltersView { exclude_names: names, ..f }) == drop_named(
            query_spec(rows, kind, f),
            names,
        ),
    decreases rows.len(),
{
    if rows.len() > 0 {
        let init = rows.drop_last();
        excluding_names_drops_exactly_those_patterns(init, kind, f, names);
        let q = query_spec(init, kind, f);
        let last = rows.last();
        assert(!f.exclude_names.contains(last.name));
        if row_matches(last, f) {
            assert(q.push(pattern_of(kind, last)).drop_last() =~= q);
        }
    }
}

/// A filter on one value of a plain column.
pub open spec fn column_filter(col: Column, value: Seq<char>) -> FiltersView {
    match col {
        Column::Category => FiltersView { category: Some(value), ..no_filters() },
        Column::Classification => FiltersView { classification: Some(value), ..no_filters() },
        Column::Attachment => FiltersView { attachment: Some(value), ..no_filters() },
    }
}

/// A filter on one element of an array column.
pub open spec fn element_filter_on(col: ArrayColumn, value: Seq<char>) -> FiltersView {
    match col {
        ArrayColumn::Tags => FiltersView { tag: Some(value), ..no_filters() },
        ArrayColumn::Themes => FiltersView { theme: Some(value), ..no_filters() },
    }
}

/// Every value a facet lists for a plain column finds at least one pattern
/// when it is handed back as that column's filter.
pub proof fn every_listed_value_is_found_by_its_filter(
    rows: Seq<RowView>,
    kind: PatternType,
    col: Column,
    value: Seq<char>,
)
    requires
        column_values(rows, col).contains(value),
    ensures
        query_spec(rows, kind, column_filter(col, value)).len() > 0,
{
    let i = choose|i: int| 0 <= i < rows.len() && cell_of(#[trigger] rows[i], col) == value;
    let f = column_filter(col, value);
    assert(row_matches(rows[i], f));
    search_returns_exactly_the_matching_rows(rows, kind, f);
    assert(query_spec(rows, kind, f).contains(pattern_of(kind, rows[i])));
}

/// Every element a facet lists for an array column finds at least one
/// pattern when it is handed back as that column's filter.
pub proof fn every_listed_element_is_found_by_its_filter(
    rows: Seq<RowView>,
    kind: PatternType,
    col: ArrayColumn,
    value: Seq<char>,
)
    requires
        element_values(rows, col).contains(value),
    ensures
        query_spec(rows, kind, element_filter_on(col, value)).len() > 0,
{
    let i = choose|i: int|
        0 <= i < rows.len() && array_cell_of(#[trigger] rows[i], col).contains(
            CellValueView::Text(value),
        );
    let f = element_filter_on(col, value);
    assert(row_matches(rows[i], f));
    search_returns_exactly_the_matching_rows(rows, kind, f);
    assert(query_spec(rows, kind, f).contains(pattern_of(kind, rows[i])));
}

/// Whether the filters read a cell as the pattern does: the values that
/// `json_each` yields of it are the strings `serde_json` reads of it, as text,
/// in order (both none for a cell that is not a JSON array of strings).
pub open spec fn readings_agree(cell: Seq<char>) -> bool {
    json_cell_values(cell) == json_elements(cell).map_values(|s: Seq<char>| CellValueView::Text(s))
}

/// Every pattern that a tag filter finds lists that tag among its tags, and
/// every pattern that a theme filter finds lists that theme among its themes,
/// for rows read from their cells whose cells both readers read alike.
pub proof fn a_found_pattern_lists_the_filtered_element(
    rows: Seq<RowView>,
    kind: PatternType,
    f: FiltersView,
)
    requires
        forall|i: int|
            0 <= i < rows.len() ==> read_from_cells(#[trigger] rows[i]) && readings_agree(
                rows[i].tags,
            ) && readings_agree(rows[i].themes),
    ensures
        forall|k: int|
            0 <= k < query_spec(rows, kind, f).len() ==> (f.tag matches Some(w) ==> (
            #[trigger] query_spec(rows, kind, f)[k]).tags.contains(w)) && (f.theme matches Some(
                w,
            ) ==> query_spec(rows, kind, f)[k].themes.contains(w)),
{
    let q = query_spec(rows, kind, f);
    search_returns_exactly_the_matching_rows(rows, kind, f);
    assert forall|k: int| 0 <= k < q.len() implies (f.tag matches Some(w) ==> (
    #[trigger] q[k]).tags.contains(w)) && (f.theme matches Some(w) ==> q[k].themes.contains(w)) by {
        assert(q.contains(q[k]));
        let i = choose|i: int|
            0 <= i < rows.len() && row_matches(rows[i], f) && q[k] == pattern_of(kind, rows[i]);
        let r = rows[i];
        assert(read_from_cells(r));
        if let Some(w) = f.tag {
            let items = json_elements(r.tags);
            let cells = items.map_values(|s: Seq<char>| CellValueView::Text(s));
            assert(r.tag_elements == cells);
            let j = choose|j: int| 0 <= j < cells.len() && cells[j] == CellValueView::Text(w);
            assert(items[j] == w);
            assert(q[k].tags == items);
            assert(q[k].tags.contains(w));
        }
        if let Some(w) = f.theme {
            let items = json_elements(r.themes);
            let cells = items.map_values(|s: Seq<char>| CellValueView::Text(s));
            assert(r.theme_elements == cells);
            let j = choose|j: int| 0 <= j < cells.len() && cells[j] == CellValueView::Text(w);
            assert(items[j] == w);
            assert(q[k].themes == items);
            assert(q[k].themes.contains(w));
        }
    }
}

/// A search on the free text alone.
pub open spec fn text_filter_of(t: Seq<char>) -> FiltersView {
    FiltersView { text: Some(t), ..no_filters() }
}

/// A search on the focus alone.
pub open spec fn focus_filter_of(w: Seq<char>) -> FiltersView {
    FiltersView { focus: Some(w), ..no_filters() }
}

/// The free text is looked for in five columns: the name, the description,
/// the feature, the raw `tags` cell and the classification. A row passes the
/// free-text filter exactly when one of them contains the text in the sense
/// of `LIKE '%text%'`.
pub proof fn the_text_filter_searches_five_columns(r: RowView, t: Seq<char>)
    ensures
        row_matches(r, text_filter_of(t)) <==> (like_match(seq!['%'] + t + seq!['%'], r.name)
            || like_match(seq!['%'] + t + seq!['%'], r.description) || like_match(
            seq!['%'] + t + seq!['%'],
            r.feature,
        ) || like_match(seq!['%'] + t + seq!['%'], r.tags) || like_match(
            seq!['%'] + t + seq!['%'],
            r.classification,
        )),
{
    assert(contains_pattern(t) == seq!['%'] + t + seq!['%']);
    assert(element_ok(r.tag_elements, None) && element_ok(r.theme_elements, None));
    assert(!Seq::<Seq<char>>::empty().contains(r.name));
}

/// A keyword that occurs in a row's raw `tags` cell, even one that occurs in
/// no prose column, finds the row's pattern by the free-text filter.
pub proof fn a_keyword_in_the_tags_cell_finds_its_pattern(
    rows: Seq<RowView>,
    kind: PatternType,
    i: int,
    before: Seq<char>,
    t: Seq<char>,
    after: Seq<char>,
)
    requires
        0 <= i < rows.len(),
        rows[i].tags == before + t + after,
    ensures
        query_spec(rows, kind, text_filter_of(t)).contains(pattern_of(kind, rows[i])),
{
    lemma_contains_occurrence(before, t, after);
    the_text_filter_searches_five_columns(rows[i], t);
    assert(contains_pattern(t) == seq!['%'] + t + seq!['%']);
    search_returns_exactly_the_matching_rows(rows, kind, text_filter_of(t));
}

/// The focus filter is a substring test in the sense of `LIKE`: a row passes
/// it exactly when its focus matches `'%' + text + '%'`.
pub proof fn the_focus_filter_is_a_substring_test(r: RowView, w: Seq<char>)
    ensures
        row_matches(r, focus_filter_of(w)) == like_match(seq!['%'] + w + seq!['%'], r.focus),
{
    assert(contains_pattern(w) == seq!['%'] + w + seq!['%']);
    assert(element_ok(r.tag_elements, None) && element_ok(r.theme_elements, None));
    assert(!Seq::<Seq<char>>::empty().contains(r.name));
}

/// A text that occurs anywhere in a row's focus, not only at its start or its
/// end, finds the row's pattern by the focus filter.
pub proof fn a_word_anywhere_in_the_focus_finds_its_pattern(
    rows: Seq<RowView>,
    kind: PatternType,
    i: int,
    before: Seq<char>,
    w: Seq<char>,
    after: Seq<char>,
)
    requires
        0 <= i < rows.len(),
        rows[i].focus == before + w + after,
    ensures
        query_spec(rows, kind, focus_filter_of(w)).contains(pattern_of(kind, rows[i])),
{
    lemma_contains_occurrence(before, w, after);
    the_focus_filter_is_a_substring_test(rows[i], w);
    assert(contains_pattern(w) == seq!['%'] + w + seq!['%']);
    search_returns_exactly_the_matching_rows(rows, kind, focus_filter_of(w));
}

/// The free-text filter ignores the case of ASCII letters: a keyword
/// without wildcards that occurs in a row's raw `tags` cell in any case finds
/// the row's pattern.
pub proof fn a_keyword_in_any_ascii_case_in_the_tags_cell_finds_its_pattern(
    rows: Seq<RowView>,
    kind: PatternType,
    i: int,
    before: Seq<char>,
    t: Seq<char>,
    found: Seq<char>,
    after: Seq<char>,
)
    requires
        0 <= i < rows.len(),
        literal_in_any_case(t, found),
        rows[i].tags == before + found + after,
    ensures
        query_spec(rows, kind, text_filter_of(t)).contains(pattern_of(kind, rows[i])),
{
    lemma_contains_occurrence_in_any_case(before, t, found, after);
    the_text_filter_searches_five_columns(rows[i], t);
    assert(contains_pattern(t) == seq!['%'] + t + seq!['%']);
    search_returns_exactly_the_matching_rows(rows, kind, text_filter_of(t));
}

/// The focus filter ignores the case of ASCII letters: a text without
/// wildcards that occurs anywhere in a row's focus in any case finds the
/// row's pattern.
pub proof fn a_word_in_any_ascii_case_in_the_focus_finds_its_pattern(
    rows: Seq<RowView>,
    kind: PatternType,
    i: int,
    before: Seq<char>,
    w: Seq<char>,
    found: Seq<char>,
    after: Seq<char>,
)
    requires
        0 <= i < rows.len(),
        literal_in_any_case(w, found),
        rows[i].focus == before + found + after,
    ensures
        query_spec(rows, kind, focus_filter_of(w)).contains(pattern_of(kind, rows[i])),
{
    lemma_contains_occurrence_in_any_case(before, w, found, after);
    the_focus_filter_is_a_substring_test(rows[i], w);
    assert(contains_pattern(w) == seq!['%'] + w + seq!['%']);
    search_returns_exactly_the_matching_rows(rows, kind, focus_filter_of(w));
}

/// A search on the forced choice alone.
pub open spec fn forced_choice_filter_of(w: Seq<char>) -> FiltersView {
    FiltersView { forced_choice: Some(w), ..no_filters() }
}

/// The forced-choice filter is a substring test in the sense of `LIKE`: a row
/// passes it exactly when its forced choice matches `'%' + text + '%'`, so a
/// text that occurs anywhere in it finds the row's pattern.
pub proof fn the_forced_choice_filter_is_a_substring_test(
    rows: Seq<RowView>,
    kind: PatternType,
    i: int,
    before: Seq<char>,
    w: Seq<char>,
    after: Seq<char>,
)
    requires
        0 <= i < rows.len(),
    ensures
        row_matches(rows[i], forced_choice_filter_of(w)) == like_match(
            seq!['%'] + w + seq!['%'],
            rows[i].forced_choice,
        ),
        rows[i].forced_choice == before + w + after ==> query_spec(
            rows,
            kind,
            forced_choice_filter_of(w),
        ).contains(pattern_of(kind, rows[i])),
{
    let r = rows[i];
    assert(contains_pattern(w) == seq!['%'] + w + seq!['%']);
    assert(element_ok(r.tag_elements, None) && element_ok(r.theme_elements, None));
    assert(!Seq::<Seq<char>>::empty().contains(r.name));
    if r.forced_choice == before + w + after {
        lemma_contains_occurrence(before, w, after);
        search_returns_exactly_the_matching_rows(rows, kind, forced_choice_filter_of(w));
    }
}

/// The category, classification and attachment filters are exact: a row
/// that passes the filters has in each of these columns the very string the
/// filter gives, not merely one that contains it.
pub proof fn exact_filters_accept_only_equal_cells(r: RowView, f: FiltersView)
    requires
        row_matches(r, f),
    ensures
        f.category matches Some(w) ==> r.category == w,
        f.classification matches Some(w) ==> r.classification == w,
        f.attachment matches Some(w) ==> r.attachment == w,
{
}

/// Every pattern a search returns has, in each exactly filtered column, the
/// string the filter gives.
pub proof fn found_patterns_carry_the_exact_values(rows: Seq<RowView>, kind: PatternType, f: FiltersView)
    ensures
        forall|p: PatternView| #[trigger] query_spec(rows, kind, f).contains(p) ==> {
            &&& f.category matches Some(w) ==> p.category == w
            &&& f.classification matches Some(w) ==> p.classification == w
            &&& f.attachment matches Some(w) ==> p.attachment == w
        },
{
    search_returns_exactly_the_matching_rows(rows, kind, f);
    assert forall|p: PatternView| #[trigger] query_spec(rows, kind, f).contains(p) implies {
        &&& f.category matches Some(w) ==> p.category == w
        &&& f.classification matches Some(w) ==> p.classification == w
        &&& f.attachment matches Some(w) ==> p.attachment == w
    } by {
        let i = choose|i: int|
            0 <= i < rows.len() && row_matches(rows[i], f) && p == pattern_of(kind, rows[i]);
        exact_filters_accept_only_equal_cells(rows[i], f);
    }
}

/// The filter on one forced choice at one attachment point.
pub open spec fn choice_filter(choice: Seq<char>, attachment: Seq<char>) -> FiltersView {
    FiltersView { forced_choice: Some(choice), attachment: Some(attachment), ..no_filters() }
}

/// Patterns that force the same choice at the same attachment point are
/// found together by filtering on that choice and that attachment.
pub proof fn patterns_forcing_one_choice_are_found_together(
    rows: Seq<RowView>,
    kind: PatternType,
    i: int,
    j: int,
)
    requires
        0 <= i < rows.len(),
        0 <= j < rows.len(),
        rows[i].forced_choice == rows[j].forced_choice,
        rows[i].attachment == rows[j].attachment,
    ensures
        query_spec(rows, kind, choice_filter(rows[i].forced_choice, rows[i].attachment)).contains(
            pattern_of(kind, rows[i]),
        ),
        query_spec(rows, kind, choice_filter(rows[i].forced_choice, rows[i].attachment)).contains(
            pattern_of(kind, rows[j]),
        ),
{
    let f = choice_filter(rows[i].forced_choice, rows[i].attachment);
    lemma_contains_itself(rows[i].forced_choice);
    assert(row_matches(rows[i], f));
    assert(row_matches(rows[j], f));
    search_returns_exactly_the_matching_rows(rows, kind, f);
}

/// In a table, a name belongs to one row only: the pattern looked up by the
/// name of a listed pattern is that pattern.
pub proof fn a_name_picks_one_row(rows: Seq<RowView>, i: int, j: int)
    requires
        strictly_sorted(names_of(rows)),
        0 <= i < rows.len(),
        0 <= j < rows.len(),
        rows[j].name == rows[i].name,
    ensures
        i == j,
{
    if i != j {
        assert(names_of(rows)[i] == rows[i].name && names_of(rows)[j] == rows[j].name);
        lemma_sorted_distinct(names_of(rows), i, j);
    }
}

} // verus!
