//! Infers a relational column type for each column of a delimited text
//! table, and renders the inferred types as SQL DDL or as Python SQLModel
//! class source. The core is the per-column classifier in
//! [`type_inference`]; reading the raw text into rows and rendering the
//! result are thin collaborators around it.

use vstd::prelude::*;

pub mod python_generator;
mod sql_generator;
mod tokens;
mod type_inference;
mod utils;

pub use python_generator::generate_sqlmodel_python;
pub use sql_generator::generate_sql;
pub use type_inference::{infer_sql_type, SqlType};
pub use utils::to_pascal_case;

use crate::type_inference::spec_classify;

verus! {

/// Why schema inference rejected the input: no header row could be read
/// (or it has no fields), or a data row's cell count disagrees with the
/// header's.
#[derive(Debug, Clone, Copy, PartialEq, Eq, Structural)]
pub enum SchemaError {
    InputEmpty,
    MalformedRow,
}

/// What csv's reader yields on the given text: every record in order, the
/// header row included, each a row of text fields.
pub uninterp spec fn csv_records_of(text: Seq<char>) -> Seq<Seq<Seq<char>>>;

/// Relies on csv::ReaderBuilder and csv::Reader: with the first row not
/// treated specially and flexible record lengths, the reader yields every
/// record of the input in order; reading from an in-memory string yields no
/// record errors.
#[verifier::external_body]
fn parse_csv_text(text: &str) -> (r: Vec<Vec<String>>)
    ensures
        r.deep_view() == csv_records_of(text@),
{
    let mut rdr = csv::ReaderBuilder::new().has_headers(false).flexible(true).from_reader(
        text.as_bytes(),
    );
    rdr.records().filter_map(|rec| rec.ok()).map(
        |rec| rec.iter().map(|field| field.to_string()).collect(),
    ).collect()
}

/// The cells of data column `i`: one cell per data row.
pub open spec fn spec_column(rows: Seq<Seq<Seq<char>>>, i: int) -> Seq<Seq<char>> {
    Seq::new(rows.len(), |j: int| rows[j][i])
}

fn clone_row(row: &Vec<String>) -> (r: Vec<String>)
    ensures
        r.deep_view() == row.deep_view(),
{
    let n = row.len();
    let mut r: Vec<String> = Vec::new();
    let mut j: usize = 0;
    while j < n
        invariant
            j <= n == row@.len(),
            r@.len() == j,
            forall|x: int| 0 <= x < j ==> #[trigger] r@[x]@ == row@[x]@,
        decreases n - j,
    {
        r.push(row[j].clone());
        j += 1;
    }
    proof {
        assert(r.deep_view() =~= row.deep_view());
    }
    r
}

/// Splits the parsed records into the header row and the data rows,
/// rejecting input with no header (or an empty one) and any data row whose
/// cell count differs from the header's.
pub fn load_table(text: &str) -> (r: Result<(Vec<String>, Vec<Vec<String>>), SchemaError>)
    ensures
        ({
            let recs = csv_records_of(text@);
            match r {
                Ok(out) => {
                    &&& recs.len() > 0
                    &&& recs[0].len() > 0
                    &&& forall|j: int| 0 <= j < recs.len() ==> (#[trigger] recs[j]).len()
                        == recs[0].len()
                    &&& out.0.deep_view() == recs[0]
                    &&& out.1.deep_view() == recs.skip(1)
                },
                Err(SchemaError::InputEmpty) => recs.len() == 0 || recs[0].len() == 0,
                Err(SchemaError::MalformedRow) => recs.len() > 0 && recs[0].len() > 0
                    && exists|j: int|
                    0 <= j < recs.len() && (#[trigger] recs[j]).len() != recs[0].len(),
            }
        }),
{
    let records = parse_csv_text(text);
    let ghost recs = csv_records_of(text@);
    proof {
        assert(recs.len() == records@.len());
        assert forall|j: int| 0 <= j < recs.len() implies #[trigger] recs[j]
            == records@[j].deep_view() by {}
    }
    let n = records.len();
    if n == 0 {
        return Err(SchemaError::InputEmpty);
    }
    let headers = clone_row(&records[0]);
    let ncols = headers.len();
    proof {
        assert(headers.deep_view().len() == headers@.len());
        assert(recs[0].len() == ncols);
    }
    if ncols == 0 {
        return Err(SchemaError::InputEmpty);
    }
    let mut rows: Vec<Vec<String>> = Vec::new();
    let mut j: usize = 1;
    while j < n
        invariant
            1 <= j <= n == recs.len(),
            n == records@.len(),
            recs == csv_records_of(text@),
            recs == records.deep_view(),
            forall|x: int| 0 <= x < n ==> #[trigger] recs[x] == records@[x].deep_view(),
            ncols == recs[0].len(),
            ncols > 0,
            forall|x: int| 0 <= x < j ==> (#[trigger] recs[x]).len() == ncols,
            rows@.len() == j - 1,
            forall|x: int| 0 <= x < j - 1 ==> #[trigger] rows@[x].deep_view() == recs[x + 1],
        decreases n - j,
    {
        if records[j].len() != ncols {
            proof {
                assert(recs[j as int].len() != recs[0].len());
            }
            return Err(SchemaError::MalformedRow);
        }
        let row = clone_row(&records[j]);
        rows.push(row);
        j += 1;
    }
    proof {
        assert(rows.deep_view() =~= recs.skip(1));
    }
    Ok((headers, rows))
}

/// Reads delimited text (the first record being the header row) and infers
/// one SQL type per column: the strictest type consistent with every
/// non-empty cell of that column.
pub fn infer_schema(text: &str) -> (r: Result<(Vec<String>, Vec<SqlType>), SchemaError>)
    ensures
        ({
            let recs = csv_records_of(text@);
            match r {
                Ok(out) => {
                    &&& recs.len() > 0
                    &&& recs[0].len() > 0
                    &&& forall|j: int| 0 <= j < recs.len() ==> (#[trigger] recs[j]).len()
                        == recs[0].len()
                    &&& out.0.deep_view() == recs[0]
                    &&& out.1@.len() == recs[0].len()
                    &&& forall|i: int| 0 <= i < out.1@.len() ==> #[trigger] out.1@[i]
                        == spec_classify(spec_column(recs.skip(1), i))
                },
                Err(SchemaError::InputEmpty) => recs.len() == 0 || recs[0].len() == 0,
                Err(SchemaError::MalformedRow) => recs.len() > 0 && recs[0].len() > 0
                    && exists|j: int|
                    0 <= j < recs.len() && (#[trigger] recs[j]).len() != recs[0].len(),
            }
        }),
{
    let (headers, rows) = match load_table(text) {
        Ok(p) => p,
        Err(e) => {
            return Err(e);
        },
    };
    let ghost recs = csv_records_of(text@);
    let ghost rdv = rows.deep_view();
    let ncols = headers.len();
    let nrows = rows.len();
    proof {
        assert(headers.deep_view().len() == headers@.len());
        assert(ncols == recs[0].len());
        assert(rdv == recs.skip(1));
        assert(rdv.len() == rows@.len());
        assert forall|x: int| 0 <= x < nrows implies #[trigger] rdv[x] == rows@[x].deep_view() by {}
        assert forall|x: int| 0 <= x < nrows implies (#[trigger] rdv[x]).len() == ncols by {
            assert(rdv[x] == recs[x + 1]);
        }
    }
    let mut types: Vec<SqlType> = Vec::new();
    let mut i: usize = 0;
    while i < ncols
        invariant
            i <= ncols,
            nrows == rows@.len() == rdv.len(),
            rdv == rows.deep_view(),
            forall|x: int| 0 <= x < nrows ==> #[trigger] rdv[x] == rows@[x].deep_view(),
            forall|x: int| 0 <= x < nrows ==> (#[trigger] rdv[x]).len() == ncols,
            types@.len() == i,
            forall|c: int| 0 <= c < i ==> #[trigger] types@[c] == spec_classify(
                spec_column(rdv, c),
            ),
        decreases ncols - i,
    {
        let mut col: Vec<&str> = Vec::new();
        let mut j: usize = 0;
        while j < nrows
            invariant
                j <= nrows == rows@.len() == rdv.len(),
                i < ncols,
                rdv == rows.deep_view(),
                forall|x: int| 0 <= x < nrows ==> #[trigger] rdv[x] == rows@[x].deep_view(),
                forall|x: int| 0 <= x < nrows ==> (#[trigger] rdv[x]).len() == ncols,
                col@.len() == j,
                forall|x: int| 0 <= x < j ==> #[trigger] col@[x]@ == rdv[x][i as int],
            decreases nrows - j,
        {
            proof {
                assert(rdv[j as int] == rows@[j as int].deep_view());
                assert(rows@[j as int].deep_view().len() == rows@[j as int]@.len());
                assert(rdv[j as int].len() == ncols);
            }
            let cell: &str = rows[j][i].as_str();
            proof {
                assert(cell@ == rows@[j as int]@[i as int]@);
                assert(rows@[j as int].deep_view()[i as int] == rows@[j as int]@[i as int]@);
            }
            col.push(cell);
            j += 1;
        }
        let cslice: &[&str] = col.as_slice();
        let t = infer_sql_type(cslice);
        proof {
            assert(cslice.deep_view() =~= spec_column(rdv, i as int));
        }
        types.push(t);
        i += 1;
    }
    Ok((headers, types))
}

} // verus!
