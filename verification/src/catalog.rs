//! The two pattern tables, held in memory: every row of a table, ordered by
//! name, each name at most once.

use vstd::prelude::*;

use crate::json::{JsonReader, fits_sqlite};
use crate::models::{Cells, PatternType, Row, RowView, read_from_cells, row_from_cells, rows_view};
use crate::text::{
    chars_equal, chars_of, less_than, lemma_str_less_irreflexive,
    lemma_str_less_total, lemma_str_less_transitive, str_less,
};

verus! {

/// Every string precedes the ones after it.
pub open spec fn strictly_sorted(v: Seq<Seq<char>>) -> bool {
    forall|i: int, j: int| 0 <= i < j < v.len() ==> str_less(#[trigger] v[i], #[trigger] v[j])
}

/// The names of some rows, in order.
pub open spec fn names_of(rows: Seq<RowView>) -> Seq<Seq<char>> {
    rows.map_values(|r: RowView| r.name)
}

/// No two rows share a name.
pub open spec fn names_distinct(rows: Seq<RowView>) -> bool {
    forall|i: int, j: int|
        0 <= i < rows.len() && 0 <= j < rows.len() && i != j ==> #[trigger] rows[i].name
            != #[trigger] rows[j].name
}

/// Inserting a string at the place where it belongs keeps a sequence sorted.
pub proof fn lemma_insert_sorted(keys: Seq<Seq<char>>, k: int, x: Seq<char>)
    requires
        strictly_sorted(keys),
        0 <= k <= keys.len(),
        forall|i: int| 0 <= i < k ==> str_less(#[trigger] keys[i], x),
        k < keys.len() ==> str_less(x, keys[k]),
    ensures
        strictly_sorted(keys.insert(k, x)),
{
    let n = keys.insert(k, x);
    assert forall|i: int, j: int| 0 <= i < j < n.len() implies str_less(
        #[trigger] n[i],
        #[trigger] n[j],
    ) by {
        if j < k {
            assert(n[i] == keys[i] && n[j] == keys[j]);
        } else if j == k {
            assert(n[i] == keys[i]);
        } else if i == k {
            assert(n[j] == keys[j - 1]);
            if j - 1 > k {
                assert(str_less(keys[k], keys[j - 1]));
                lemma_str_less_transitive(x, keys[k], keys[j - 1]);
            }
        } else if i < k {
            assert(n[i] == keys[i] && n[j] == keys[j - 1]);
        } else {
            assert(n[i] == keys[i - 1] && n[j] == keys[j - 1]);
        }
    }
}

/// A strictly sorted sequence holds each string at most once.
pub proof fn lemma_sorted_distinct(keys: Seq<Seq<char>>, i: int, j: int)
    requires
        strictly_sorted(keys),
        0 <= i < keys.len(),
        0 <= j < keys.len(),
        i != j,
    ensures
        keys[i] != keys[j],
{
    if i < j {
        assert(str_less(keys[i], keys[j]));
        lemma_str_less_irreflexive(keys[i]);
    } else {
        assert(str_less(keys[j], keys[i]));
        lemma_str_less_irreflexive(keys[j]);
    }
}

/// Two tables ordered by name that hold the same rows are the same table:
/// the rows of a table do not depend on the order in which they were given.
pub proof fn tables_with_the_same_rows_are_equal(a: Seq<RowView>, b: Seq<RowView>)
    requires
        strictly_sorted(names_of(a)),
        strictly_sorted(names_of(b)),
        forall|r: RowView| a.contains(r) <==> b.contains(r),
    ensures
        a == b,
    decreases a.len(),
{
    if a.len() == 0 {
        if b.len() > 0 {
            assert(b.contains(b[0]));
        }
        assert(a =~= b);
    } else {
        assert(a.contains(a[0]));
        let j = choose|j: int| 0 <= j < b.len() && b[j] == a[0];
        assert(b.contains(b[0]));
        let i = choose|i: int| 0 <= i < a.len() && a[i] == b[0];
        if j > 0 {
            assert(names_of(b)[0] == b[0].name && names_of(b)[j] == b[j].name);
            assert(str_less(b[0].name, a[0].name));
            if i > 0 {
                assert(names_of(a)[0] == a[0].name && names_of(a)[i] == a[i].name);
                assert(str_less(a[0].name, b[0].name));
                lemma_str_less_transitive(a[0].name, b[0].name, a[0].name);
                lemma_str_less_irreflexive(a[0].name);
            } else {
                lemma_str_less_irreflexive(a[0].name);
            }
        }
        assert(a[0] == b[0]);
        let ta = a.drop_first();
        let tb = b.drop_first();
        assert(names_of(ta) =~= names_of(a).drop_first());
        assert(names_of(tb) =~= names_of(b).drop_first());
        assert forall|r: RowView| ta.contains(r) <==> tb.contains(r) by {
            if ta.contains(r) {
                let k = choose|k: int| 0 <= k < ta.len() && ta[k] == r;
                assert(a[k + 1] == r);
                assert(a.contains(r));
                let m = choose|m: int| 0 <= m < b.len() && b[m] == r;
                if m == 0 {
                    lemma_sorted_distinct(names_of(a), 0, k + 1);
                }
                assert(tb[m - 1] == r);
            }
            if tb.contains(r) {
                let k = choose|k: int| 0 <= k < tb.len() && tb[k] == r;
                assert(b[k + 1] == r);
                assert(b.contains(r));
                let m = choose|m: int| 0 <= m < a.len() && a[m] == r;
                if m == 0 {
                    lemma_sorted_distinct(names_of(b), 0, k + 1);
                }
                assert(ta[m - 1] == r);
            }
        }
        tables_with_the_same_rows_are_equal(ta, tb);
        assert(a =~= seq![a[0]] + ta);
        assert(b =~= seq![b[0]] + tb);
    }
}

/// A name given twice to the rows of one table.
#[derive(Debug)]
pub struct DuplicateName {
    pub name: String,
}

/// One pattern table: its rows ordered by name, no name twice.
pub struct Table {
    rows: Vec<Row>,
}

impl View for Table {
    type V = Seq<RowView>;

    closed spec fn view(&self) -> Seq<RowView> {
        rows_view(self.rows@)
    }
}

impl Table {
    #[verifier::type_invariant]
    spec fn well_formed(self) -> bool {
        &&& strictly_sorted(names_of(rows_view(self.rows@)))
        &&& forall|i: int|
            0 <= i < self.rows@.len() ==> read_from_cells(#[trigger] rows_view(self.rows@)[i])
    }

    /// A table without rows.
    pub fn empty() -> (t: Table)
        ensures
            t@ == Seq::<RowView>::empty(),
    {
        let t = Table { rows: Vec::new() };
        assert(t@ =~= Seq::<RowView>::empty());
        t
    }

    /// The rows, in the order of their names.
    pub fn rows(&self) -> (rows: &Vec<Row>)
        ensures
            rows_view(rows@) == self@,
            strictly_sorted(names_of(self@)),
            forall|i: int| 0 <= i < self@.len() ==> read_from_cells(#[trigger] self@[i]),
    {
        proof {
            use_type_invariant(self);
        }
        &self.rows
    }

    /// Builds a table from rows in any order, each read from its cells.
    /// Fails, as the `UNIQUE` constraint on `name` does, when two rows share a
    /// name.
    pub fn new(rows: Vec<Row>) -> (res: Result<Table, DuplicateName>)
        requires
            forall|i: int| 0 <= i < rows@.len() ==> read_from_cells(#[trigger] rows@[i]@),
        ensures
            res is Ok <==> names_distinct(rows_view(rows@)),
            res matches Ok(t) ==> strictly_sorted(names_of(t@)) && t@.len() == rows@.len() && (
            forall|r: RowView| t@.contains(r) <==> rows_view(rows@).contains(r)),
            res matches Err(e) ==> exists|i: int, j: int|
                0 <= i < j < rows@.len() && #[trigger] rows@[i].name@ == e.name@
                    && #[trigger] rows@[j].name@ == e.name@,
    {
        let ghost input = rows_view(rows@);
        let ghost orig = rows@;
        let mut pending = rows;
        let mut out: Vec<Row> = Vec::new();
        let ghost mut done: Seq<RowView> = Seq::empty();
        proof {
            assert(input =~= rows_view(pending@) + done);
        }
        while pending.len() > 0
            invariant
                input == rows_view(orig),
                orig == rows@,
                forall|i: int| 0 <= i < input.len() ==> read_from_cells(#[trigger] input[i]),
                input == rows_view(pending@) + done,
                input.len() == pending@.len() + done.len(),
                strictly_sorted(names_of(rows_view(out@))),
                out@.len() == done.len(),
                forall|r: RowView| rows_view(out@).contains(r) <==> done.contains(r),
                names_distinct(done),
            decreases pending.len(),
        {
            let ghost before = pending@;
            let row = pending.pop().unwrap();
            let ghost x = row@;
            let ghost old_out = rows_view(out@);
            proof {
                assert(rows_view(before) =~= rows_view(pending@).push(x));
                assert(forall|r: RowView| old_out.contains(r) <==> done.contains(r));
            }
            let name = chars_of(row.name.as_str());
            let mut k: usize = 0;
            while k < out.len() && less_than(&chars_of(out[k].name.as_str()), &name)
                invariant
                    k <= out.len(),
                    old_out == rows_view(out@),
                    name@ == x.name,
                    forall|i: int| 0 <= i < k ==> str_less(#[trigger] names_of(old_out)[i], x.name),
                decreases out.len() - k,
            {
                k = k + 1;
            }
            if k < out.len() && chars_equal(&chars_of(out[k].name.as_str()), &name) {
                proof {
                    let j = k as int;
                    assert(old_out.contains(old_out[j]));
                    assert(done.contains(old_out[j]));
                    let d = choose|d: int| 0 <= d < done.len() && done[d] == old_out[j];
                    let pos = pending@.len() + 1 + d;
                    assert(input[pos] == done[d]);
                    assert(input[pending@.len() as int] == x);
                    assert(input[pos].name == input[pending@.len() as int].name);
                    assert(before[pending@.len() as int]@ == x);
                    let cur = pending@.len() as int;
                    assert(pos != cur);
                    assert(!names_distinct(input));
                    assert(orig[cur]@ == input[cur]);
                    assert(orig[cur].name@ == row.name@);
                    assert(orig[pos]@ == input[pos]);
                    assert(orig[pos].name@ == row.name@);
                    assert(cur < pos);
                }
                return Err(DuplicateName { name: row.name });
            }
            proof {
                let keys = names_of(old_out);
                if k < out.len() {
                    lemma_str_less_total(keys[k as int], x.name);
                }
                lemma_insert_sorted(keys, k as int, x.name);
                assert(names_of(old_out.insert(k as int, x)) =~= keys.insert(k as int, x.name));
            }
            out.insert(k, row);
            proof {
                assert(rows_view(out@) =~= old_out.insert(k as int, x));
                let nd = seq![x] + done;
                assert(input =~= rows_view(pending@) + nd);
                assert forall|r: RowView| rows_view(out@).contains(r) <==> nd.contains(r) by {
                    if rows_view(out@).contains(r) {
                        let i = choose|i: int| 0 <= i < rows_view(out@).len() && rows_view(out@)[i] == r;
                        if i == k {
                            assert(nd[0] == r);
                        } else if i < k {
                            assert(old_out[i] == r);
                            assert(old_out.contains(r));
                            let d = choose|d: int| 0 <= d < done.len() && done[d] == r;
                            assert(nd[d + 1] == r);
                        } else {
                            assert(old_out[i - 1] == r);
                            assert(old_out.contains(r));
                            let d = choose|d: int| 0 <= d < done.len() && done[d] == r;
                            assert(nd[d + 1] == r);
                        }
                    }
                    if nd.contains(r) {
                        let i = choose|i: int| 0 <= i < nd.len() && nd[i] == r;
                        if i == 0 {
                            assert(rows_view(out@)[k as int] == r);
                        } else {
                            assert(done[i - 1] == r);
                            assert(done.contains(r));
                            assert(old_out.contains(r));
                            let j = choose|j: int| 0 <= j < old_out.len() && old_out[j] == r;
                            if j < k {
                                assert(rows_view(out@)[j] == r);
                            } else {
                                assert(rows_view(out@)[j + 1] == r);
                            }
                        }
                    }
                }
                assert forall|i: int, j: int|
                    0 <= i < nd.len() && 0 <= j < nd.len() && i != j implies #[trigger] nd[i].name
                    != #[trigger] nd[j].name by {
                    if i > 0 && j > 0 {
                        assert(nd[i] == done[i - 1] && nd[j] == done[j - 1]);
                    } else {
                        let o = if i == 0 { j } else { i };
                        assert(nd[o] == done[o - 1]);
                        assert(done.contains(nd[o]));
                        assert(old_out.contains(nd[o]));
                        let q = choose|q: int| 0 <= q < old_out.len() && old_out[q] == nd[o];
                        let keys = names_of(old_out);
                        assert(keys[q] == nd[o].name);
                        if q < k {
                            assert(str_less(keys[q], x.name));
                            lemma_str_less_irreflexive(x.name);
                        } else {
                            if k < old_out.len() {
                                lemma_str_less_total(keys[k as int], x.name);
                                if q > k {
                                    assert(str_less(keys[k as int], keys[q]));
                                    if str_less(x.name, keys[k as int]) {
                                        lemma_str_less_transitive(x.name, keys[k as int], keys[q]);
                                        lemma_str_less_irreflexive(x.name);
                                    }
                                }
                                lemma_str_less_irreflexive(x.name);
                            }
                        }
                    }
                }
                done = nd;
            }
        }
        proof {
            assert(rows_view(pending@) =~= Seq::<RowView>::empty());
            assert(input =~= done);
            assert forall|i: int| 0 <= i < out@.len() implies read_from_cells(
                #[trigger] rows_view(out@)[i],
            ) by {
                let r = rows_view(out@)[i];
                assert(rows_view(out@).contains(r));
                assert(input.contains(r));
            }
        }
        Ok(Table { rows: out })
    }

    /// Builds a table from the cells of its rows, in any order: each row's
    /// `tags` and `themes` are read through SQLite's JSON functions, then the
    /// rows are ordered by name. Fails when a cell cannot be read, which never
    /// happens within SQLite's length limit, or when two rows share a name.
    pub fn from_cells(reader: &JsonReader, cells: Vec<Cells>) -> (res: Result<Table, TableError>)
        ensures
            res matches Ok(t) ==> strictly_sorted(names_of(t@)) && t@.len() == cells@.len() && (
            forall|r: RowView| t@.contains(r) <==> cells_view(cells@).contains(r)),
            res is Ok ==> names_distinct(cells_view(cells@)),
            res matches Err(TableError::Unreadable { name }) ==> exists|i: int|
                0 <= i < cells@.len() && #[trigger] cells@[i].name@ == name@ && !(fits_sqlite(
                    cells@[i].tags@,
                ) && fits_sqlite(cells@[i].themes@)),
            res matches Err(TableError::Duplicate(e)) ==> exists|i: int, j: int|
                0 <= i < j < cells@.len() && #[trigger] cells@[i].name@ == e.name@
                    && #[trigger] cells@[j].name@ == e.name@,
            (forall|i: int|
                0 <= i < cells@.len() ==> fits_sqlite(#[trigger] cells@[i].tags@) && fits_sqlite(
                    cells@[i].themes@,
                )) ==> (res is Ok <==> names_distinct(cells_view(cells@))),
    {
        let ghost orig = cells@;
        let mut pending = cells;
        let mut rows: Vec<Row> = Vec::new();
        while pending.len() > 0
            invariant
                orig == cells@,
                rows@.len() <= orig.len(),
                pending@ == orig.skip(rows@.len() as int),
                rows_view(rows@) == cells_view(orig.take(rows@.len() as int)),
            decreases pending.len(),
        {
            let ghost k = rows@.len() as int;
            let ghost before = rows_view(rows@);
            let c = pending.remove(0);
            let ghost cv = c;
            let name = c.name.clone();
            proof {
                assert(orig[k] == cv);
            }
            match row_from_cells(reader, c) {
                Some(r) => {
                    assert(r@ == cv@);
                    rows.push(r);
                    proof {
                        assert(rows_view(rows@) =~= before.push(cv@));
                        assert(orig.take(k + 1) =~= orig.take(k).push(cv));
                        assert(cells_view(orig.take(k + 1)) =~= cells_view(orig.take(k)).push(cv@));
                    }
                },
                None => {
                    proof {
                        assert(cells@[k].name@ == name@);
                        assert(!(fits_sqlite(cells@[k].tags@) && fits_sqlite(cells@[k].themes@)));
                    }
                    return Err(TableError::Unreadable { name });
                },
            }
            proof {
                assert(pending@ =~= orig.skip(rows@.len() as int));
                assert(rows_view(rows@) =~= cells_view(orig.take(rows@.len() as int)));
            }
        }
        proof {
            assert(orig.take(rows@.len() as int) =~= orig);
            assert forall|i: int| 0 <= i < rows@.len() implies read_from_cells(
                #[trigger] rows@[i]@,
            ) by {
                assert(rows_view(rows@)[i] == rows@[i]@);
                assert(cells_view(orig)[i] == orig[i]@);
            }
        }
        match Table::new(rows) {
            Ok(t) => Ok(t),
            Err(e) => {
                proof {
                    let (i, j) = choose|i: int, j: int|
                        0 <= i < j < rows@.len() && #[trigger] rows@[i].name@ == e.name@
                            && #[trigger] rows@[j].name@ == e.name@;
                    assert(rows_view(rows@)[i] == rows@[i]@);
                    assert(rows_view(rows@)[j] == rows@[j]@);
                    assert(cells_view(orig)[i] == orig[i]@);
                    assert(cells_view(orig)[j] == orig[j]@);
                }
                Err(TableError::Duplicate(e))
            },
        }
    }
}

/// The rows that some cells make.
pub open spec fn cells_view(cells: Seq<Cells>) -> Seq<RowView> {
    cells.map_values(|c: Cells| c@)
}

/// Why a table could not be made of its cells.
#[derive(Debug)]
pub enum TableError {
    /// A `tags` or `themes` cell of the named pattern could not be read.
    Unreadable { name: String },
    /// Two rows share a name.
    Duplicate(DuplicateName),
}

/// Both pattern tables.
pub struct Catalog {
    pub forms: Table,
    pub languages: Table,
}

/// The rows of the table of a kind.
pub open spec fn table_of(catalog: Catalog, kind: PatternType) -> Seq<RowView> {
    match kind {
        PatternType::Form => catalog.forms@,
        PatternType::Language => catalog.languages@,
    }
}

impl Catalog {
    /// The table that holds the patterns of a kind.
    pub fn table(&self, kind: PatternType) -> (t: &Table)
        ensures
            t@ == table_of(*self, kind),
    {
        match kind {
            PatternType::Form => &self.forms,
            PatternType::Language => &self.languages,
        }
    }
}

} // verus!
