//! The JSON arrays of the `tags` and `themes` cells, as `serde_json` reads
//! them into a pattern and as SQLite's `json_each` reads them for the filters.

use vstd::prelude::*;

use crate::models::{CellValue, CellValueView, values_view};

verus! {

/// What `serde_json` makes of a text read as a JSON array of strings:
/// `Some` of the strings when the text is such an array, `None` otherwise.
pub uninterp spec fn json_string_array(raw: Seq<char>) -> Option<Seq<Seq<char>>>;

/// The views of a sequence of strings.
pub open spec fn strings_view(v: Seq<String>) -> Seq<Seq<char>> {
    v.map_values(|s: String| s@)
}

/// The elements of a JSON array cell; a cell that is not a JSON array of
/// strings has none.
pub open spec fn json_elements(raw: Seq<char>) -> Seq<Seq<char>> {
    match json_string_array(raw) {
        Some(items) => items,
        None => Seq::empty(),
    }
}

/// `serde_json::from_str::<Vec<String>>`, its error dropped.
///
/// Trusted: the result is `Some` exactly when `json_string_array` of the text
/// is, and then holds its strings in order. Which texts parse, and to what,
/// is left to `serde_json` and named, not stated.
#[verifier::external_body]
fn json_from_str(raw: &str) -> (parsed: Option<Vec<String>>)
    ensures
        parsed is Some <==> json_string_array(raw@) is Some,
        parsed matches Some(items) ==> strings_view(items@) == json_string_array(raw@)->0,
{
    serde_json::from_str::<Vec<String>>(raw).ok()
}

/// The strings of a parsed array, or none when the text did not parse.
pub fn array_or_empty(parsed: Option<Vec<String>>) -> (items: Vec<String>)
    ensures
        items@ == (match parsed {
            Some(v) => v@,
            None => Seq::<String>::empty(),
        }),
{
    match parsed {
        Some(v) => v,
        None => Vec::new(),
    }
}

/// Parses a JSON array from a text cell; empty when the cell is not a JSON
/// array of strings.
pub fn parse_json_array(raw: &str) -> (items: Vec<String>)
    ensures
        strings_view(items@) == json_elements(raw@),
{
    let parsed = json_from_str(raw);
    let items = array_or_empty(parsed);
    proof {
        if json_string_array(raw@) is None {
            assert(strings_view(items@) =~= Seq::<Seq<char>>::empty());
        }
    }
    items
}

/// Whether SQLite's `json_valid` accepts the text as well-formed JSON.
pub uninterp spec fn json_valid_text(cell: Seq<char>) -> bool;

/// The `value` column of SQLite's `json_each` over a well-formed JSON text:
/// one value per element of an array (per member of an object, for a single
/// value the value itself), UTF-8 text or another value.
pub uninterp spec fn json_each_values(cell: Seq<char>) -> Seq<CellValueView>;

/// What the filters read of a cell: its `json_each` values when it is
/// well-formed JSON, and none when it is not, as if it were `[]`.
pub open spec fn json_cell_values(cell: Seq<char>) -> Seq<CellValueView> {
    if json_valid_text(cell) {
        json_each_values(cell)
    } else {
        Seq::empty()
    }
}

/// Whether SQLite takes the text as one value: SQLite's default length limit
/// (`SQLITE_MAX_LENGTH`) is 10^9 bytes, and a character takes at most four
/// bytes in UTF-8.
pub open spec fn fits_sqlite(cell: Seq<char>) -> bool {
    4 * cell.len() < 1_000_000_000
}

#[verifier::external_type_specification]
#[verifier::external_body]
pub struct ExConnection(rusqlite::Connection);

/// `rusqlite::Connection::open_in_memory`, its error dropped.
///
/// Trusted: nothing is stated of the result. Opening fails when SQLite runs
/// out of memory or was configured single-threaded by the process.
#[verifier::external_body]
fn sqlite_open_in_memory() -> (conn: Option<rusqlite::Connection>) {
    rusqlite::Connection::open_in_memory().ok()
}

/// An in-memory SQLite connection that reads JSON cells. It holds no table
/// and is only ever asked the two questions below.
pub struct JsonReader {
    conn: rusqlite::Connection,
}

impl JsonReader {
    /// Opens the connection; `None` when SQLite cannot be opened.
    pub fn open() -> (reader: Option<JsonReader>) {
        match sqlite_open_in_memory() {
            Some(conn) => Some(JsonReader { conn }),
            None => None,
        }
    }

    /// `SELECT json_valid(?1)` on the reader's connection.
    ///
    /// Trusted: a value that comes back is `json_valid_text` of the text, and
    /// one comes back whenever the text is within SQLite's length limit (the
    /// statement reads no table and `json_valid` fails only when memory runs
    /// out, a machine limit left aside here).
    #[verifier::external_body]
    fn json_valid(&self, cell: &str) -> (valid: Option<bool>)
        ensures
            valid matches Some(b) ==> b == json_valid_text(cell@),
            fits_sqlite(cell@) ==> valid is Some,
    {
        self.conn.query_row("SELECT json_valid(?1)", [cell], |row| row.get::<_, bool>(0)).ok()
    }

    /// `SELECT value FROM json_each(?1)` on the reader's connection, each
    /// value that is UTF-8 text as a `CellValue::Text` and every other value
    /// as `CellValue::Other`.
    ///
    /// Trusted: values that come back are `json_each_values` of the text, in
    /// the order SQLite yields them, and they come back whenever the text is
    /// within SQLite's length limit and `json_valid` accepts it (`json_each`
    /// parses it as `json_valid` does; running out of memory is left aside).
    #[verifier::external_body]
    fn json_each(&self, cell: &str) -> (values: Option<Vec<CellValue>>)
        ensures
            values matches Some(v) ==> values_view(v@) == json_each_values(cell@),
            fits_sqlite(cell@) && json_valid_text(cell@) ==> values is Some,
    {
        let mut stmt = self.conn.prepare("SELECT value FROM json_each(?1)").ok()?;
        let rows = stmt.query_map([cell], |row| Ok(match row.get_ref(0)?.as_str() {
            Ok(text) => CellValue::Text(text.to_owned()),
            Err(_) => CellValue::Other,
        })).ok()?;
        let values = rows.collect::<rusqlite::Result<Vec<CellValue>>>().ok();
        values
    }
}

/// The values of a cell given what `json_valid` said of it: what `json_each`
/// gave when it accepted the cell, and none when it did not.
pub fn checked_values(valid: bool, each: Option<Vec<CellValue>>) -> (values: Option<Vec<CellValue>>)
    ensures
        valid ==> values == each,
        !valid ==> (values matches Some(v) && v@.len() == 0),
{
    if valid {
        each
    } else {
        Some(Vec::new())
    }
}

/// The values the filters read of a cell: what `json_each` yields of it when
/// `json_valid` accepts it, and none when it does not, so that one malformed
/// cell cannot abort a query. Within SQLite's length limit there is always an
/// answer.
pub fn cell_values(reader: &JsonReader, cell: &str) -> (values: Option<Vec<CellValue>>)
    ensures
        values matches Some(v) ==> values_view(v@) == json_cell_values(cell@),
        fits_sqlite(cell@) ==> values is Some,
{
    match reader.json_valid(cell) {
        None => None,
        Some(valid) => {
            let each = if valid {
                reader.json_each(cell)
            } else {
                None
            };
            let values = checked_values(valid, each);
            proof {
                if !valid {
                    let v = values->0;
                    assert(values_view(v@) =~= Seq::<CellValueView>::empty());
                }
            }
            values
        },
    }
}

} // verus!
