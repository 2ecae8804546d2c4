//! The tabular text source: an in-memory CSV buffer split into rows of
//! string fields, and the row-shaping steps of the two pipelines — picking
//! the text column of a data CSV, and reading `category, anchors...` rows
//! from a keyword CSV.
//!
//! Malformed rows (a data row without the text column, a keyword row with no
//! fields) are skipped and counted, never fatal.

use vstd::prelude::*;

verus! {

/// The rows that the CSV reader yields for a byte buffer, as plain values:
/// one sequence of fields per row, the header row excluded.
pub uninterp spec fn csv_rows_of(bytes: Seq<u8>) -> Seq<Seq<Seq<char>>>;

/// Relies on csv::ReaderBuilder / Reader::records (headers on, flexible
/// field counts): splits an in-memory CSV buffer into rows of string fields,
/// skipping the header row and any row the reader rejects. With fixed
/// settings the result is a function of the bytes alone.
#[verifier::external_body]
pub(crate) fn rows_from_csv(data: &[u8]) -> (r: Vec<Vec<String>>)
    ensures
        r.deep_view() == csv_rows_of(data@),
{
    let mut reader = csv::ReaderBuilder::new().has_headers(true).flexible(true).from_reader(
        data,
    );
    let mut rows: Vec<Vec<String>> = Vec::new();
    for record in reader.records() {
        if let Ok(record) = record {
            rows.push(record.iter().map(|field| field.to_string()).collect());
        }
    }
    rows
}

/// The values of column `col`, in row order, over the rows that have that
/// column; shorter rows contribute nothing.
pub open spec fn column_of_rows(rows: Seq<Seq<Seq<char>>>, col: int) -> Seq<Seq<char>>
    decreases rows.len(),
{
    if rows.len() == 0 {
        Seq::empty()
    } else {
        let rest = column_of_rows(rows.drop_last(), col);
        if 0 <= col < rows.last().len() {
            rest.push(rows.last()[col])
        } else {
            rest
        }
    }
}

/// Extracts column `col` of every well-formed row; rows missing that column
/// are skipped and counted. Kept plus skipped covers every row.
pub fn extract_column(rows: &Vec<Vec<String>>, col: usize) -> (r: (Vec<String>, usize))
    ensures
        r.0.deep_view() == column_of_rows(rows.deep_view(), col as int),
        r.0@.len() + r.1 == rows@.len(),
{
    let mut kept: Vec<String> = Vec::new();
    let mut skipped: usize = 0;
    let mut i: usize = 0;
    proof {
        assert(kept.deep_view() =~= column_of_rows(rows.deep_view().take(0), col as int));
    }
    while i < rows.len()
        invariant
            i <= rows@.len(),
            kept.deep_view() == column_of_rows(rows.deep_view().take(i as int), col as int),
            kept@.len() + skipped == i,
        decreases rows@.len() - i,
    {
        let ghost pre = rows.deep_view().take(i as int);
        proof {
            assert(rows.deep_view().take(i + 1).drop_last() =~= pre);
            assert(rows.deep_view().take(i + 1).last() == rows@[i as int].deep_view());
        }
        let row = &rows[i];
        if col < row.len() {
            let ghost before = kept.deep_view();
            kept.push(row[col].clone());
            proof {
                assert(rows@[i as int].deep_view()[col as int] == rows@[i as int]@[col as int]@);
                assert(kept.deep_view() =~= before.push(rows@[i as int].deep_view()[col as int]));
            }
        } else {
            skipped += 1;
        }
        i += 1;
    }
    proof {
        assert(rows.deep_view().take(rows@.len() as int) =~= rows.deep_view());
    }
    (kept, skipped)
}

/// One keyword-CSV row: a filter's category name and its anchor phrases.
pub struct FilterSpec {
    pub name: String,
    pub anchors: Vec<String>,
}

/// A filter spec as a plain pair of views.
pub open spec fn filter_spec_view(f: FilterSpec) -> (Seq<char>, Seq<Seq<char>>) {
    (f.name@, f.anchors.deep_view())
}

/// The filter specs read from keyword rows: field 0 names the category, the
/// remaining fields are its anchors; a row with no fields is skipped.
pub open spec fn filter_specs_of(rows: Seq<Seq<Seq<char>>>) -> Seq<(Seq<char>, Seq<Seq<char>>)>
    decreases rows.len(),
{
    if rows.len() == 0 {
        Seq::empty()
    } else {
        let rest = filter_specs_of(rows.drop_last());
        if rows.last().len() == 0 {
            rest
        } else {
            rest.push((rows.last()[0], rows.last().drop_first()))
        }
    }
}

/// Shapes keyword rows into filter specs, skipping rows with no fields.
pub fn filter_specs_from_rows(rows: &Vec<Vec<String>>) -> (r: Vec<FilterSpec>)
    ensures
        r@.map_values(|f: FilterSpec| filter_spec_view(f)) == filter_specs_of(rows.deep_view()),
{
    let mut r: Vec<FilterSpec> = Vec::new();
    let mut i: usize = 0;
    proof {
        assert(r@.map_values(|f: FilterSpec| filter_spec_view(f)) =~= filter_specs_of(
            rows.deep_view().take(0),
        ));
    }
    while i < rows.len()
        invariant
            i <= rows@.len(),
            r@.map_values(|f: FilterSpec| filter_spec_view(f)) == filter_specs_of(
                rows.deep_view().take(i as int),
            ),
        decreases rows@.len() - i,
    {
        let ghost pre = rows.deep_view().take(i as int);
        proof {
            assert(rows.deep_view().take(i + 1).drop_last() =~= pre);
            assert(rows.deep_view().take(i + 1).last() == rows@[i as int].deep_view());
        }
        let row = &rows[i];
        if row.len() > 0 {
            let name = row[0].clone();
            let mut anchors: Vec<String> = Vec::new();
            let mut j: usize = 1;
            proof {
                assert(anchors.deep_view() =~= rows@[i as int].deep_view().subrange(1, 1));
            }
            while j < row.len()
                invariant
                    1 <= j <= row@.len(),
                    row == rows@[i as int],
                    i < rows@.len(),
                    anchors.deep_view() == rows@[i as int].deep_view().subrange(1, j as int),
                decreases row@.len() - j,
            {
                let ghost before = anchors.deep_view();
                anchors.push(row[j].clone());
                proof {
                    assert(anchors@.last()@ == rows@[i as int]@[j as int]@);
                    assert(rows@[i as int].deep_view()[j as int] == rows@[i as int]@[j as int]@);
                    assert(anchors.deep_view() =~= before.push(
                        rows@[i as int].deep_view()[j as int],
                    ));
                    assert(anchors.deep_view() =~= rows@[i as int].deep_view().subrange(
                        1,
                        j + 1,
                    ));
                }
                j += 1;
            }
            let ghost before = r@.map_values(|f: FilterSpec| filter_spec_view(f));
            r.push(FilterSpec { name, anchors });
            proof {
                assert(rows@[i as int].deep_view()[0] == rows@[i as int]@[0]@);
                assert(anchors.deep_view() =~= rows@[i as int].deep_view().drop_first());
                assert(r@.map_values(|f: FilterSpec| filter_spec_view(f)) =~= before.push(
                    filter_spec_view(r@.last()),
                ));
            }
        }
        i += 1;
    }
    proof {
        assert(rows.deep_view().take(rows@.len() as int) =~= rows.deep_view());
    }
    r
}

/// Reads the filter specs out of an in-memory keyword CSV.
pub fn filter_specs_from_csv(data: &[u8]) -> (r: Vec<FilterSpec>)
    ensures
        r@.map_values(|f: FilterSpec| filter_spec_view(f)) == filter_specs_of(
            csv_rows_of(data@),
        ),
{
    let rows = rows_from_csv(data);
    filter_specs_from_rows(&rows)
}

/// Reads the text column out of an in-memory data CSV: the well-formed rows'
/// texts, and the count of skipped rows.
pub fn column_from_csv(data: &[u8], col: usize) -> (r: (Vec<String>, usize))
    ensures
        r.0.deep_view() == column_of_rows(csv_rows_of(data@), col as int),
        r.0@.len() + r.1 == csv_rows_of(data@).len(),
{
    let rows = rows_from_csv(data);
    extract_column(&rows, col)
}

} // verus!
