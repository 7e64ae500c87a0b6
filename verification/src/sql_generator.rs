//! Renders inferred column types into a single `CREATE TABLE` statement
//! with double-quoted identifiers.

use vstd::prelude::*;
use vstd::string::{StrSliceExecFns, StringExecFns};

use crate::type_inference::SqlType;
use crate::utils::{dec_chars, spec_trim, trim_str, usize_to_dec};

verus! {

/// The SQL name of one column type. `VARCHAR` lengths are clamped to at
/// least 1, since `VARCHAR(0)` is invalid in most dialects.
pub open spec fn sql_type_str(t: SqlType) -> Seq<char> {
    match t {
        SqlType::Integer => "INTEGER"@,
        SqlType::BigInt => "BIGINT"@,
        SqlType::Float => "FLOAT"@,
        SqlType::Boolean => "BOOLEAN"@,
        SqlType::Date => "DATE"@,
        SqlType::Datetime => "DATETIME"@,
        SqlType::Char(n) => "CHAR("@ + dec_chars(n as int) + ")"@,
        SqlType::Varchar(n) => "VARCHAR("@ + dec_chars(
            if n < 1 {
                1
            } else {
                n as int
            },
        ) + ")"@,
    }
}

/// One rendered column: two-space indent, the quoted trimmed header, and
/// the SQL type.
pub open spec fn column_sql(header: Seq<char>, t: SqlType) -> Seq<char> {
    "  \""@ + spec_trim(header) + "\" "@ + sql_type_str(t)
}

/// The columns from index `i` on, joined with `,\n`.
pub open spec fn columns_sql(headers: Seq<Seq<char>>, types: Seq<SqlType>, i: int) -> Seq<char>
    decreases headers.len() - i,
{
    if i < 0 || i >= headers.len() {
        Seq::empty()
    } else if i == headers.len() - 1 {
        column_sql(headers[i], types[i])
    } else {
        column_sql(headers[i], types[i]) + ",\n"@ + columns_sql(headers, types, i + 1)
    }
}

/// The whole statement: `CREATE TABLE "<name>" (\n<columns>\n);`.
pub open spec fn spec_generate_sql(
    table: Seq<char>,
    headers: Seq<Seq<char>>,
    types: Seq<SqlType>,
) -> Seq<char> {
    "CREATE TABLE \""@ + table + "\" (\n"@ + columns_sql(headers, types, 0) + "\n);"@
}

fn sql_type_str_of(t: SqlType) -> (r: String)
    ensures
        r@ == sql_type_str(t),
{
    match t {
        SqlType::Integer => String::from_str("INTEGER"),
        SqlType::BigInt => String::from_str("BIGINT"),
        SqlType::Float => String::from_str("FLOAT"),
        SqlType::Boolean => String::from_str("BOOLEAN"),
        SqlType::Date => String::from_str("DATE"),
        SqlType::Datetime => String::from_str("DATETIME"),
        SqlType::Char(n) => {
            let mut r = String::from_str("CHAR(");
            let num = usize_to_dec(n);
            r.append(num.as_str());
            r.append(")");
            proof {
                assert(r@ =~= "CHAR("@ + dec_chars(n as int) + ")"@);
            }
            r
        },
        SqlType::Varchar(n) => {
            let len = if n < 1 {
                1
            } else {
                n
            };
            let mut r = String::from_str("VARCHAR(");
            let num = usize_to_dec(len);
            r.append(num.as_str());
            r.append(")");
            proof {
                assert(r@ =~= "VARCHAR("@ + dec_chars(
                    if n < 1 {
                        1
                    } else {
                        n as int
                    },
                ) + ")"@);
            }
            r
        },
    }
}

fn column_sql_of(header: &str, t: SqlType) -> (r: String)
    ensures
        r@ == column_sql(header@, t),
{
    let mut r = String::from_str("  \"");
    r.append(trim_str(header));
    r.append("\" ");
    let ts = sql_type_str_of(t);
    r.append(ts.as_str());
    proof {
        assert(r@ =~= "  \""@ + spec_trim(header@) + "\" "@ + sql_type_str(t));
    }
    r
}

/// Generates a `CREATE TABLE` SQL statement from a table name, headers, and
/// inferred types. Table and column names are double-quoted, so names with
/// spaces or special characters stay intact; column names are trimmed.
pub fn generate_sql(table_name: &str, headers: &Vec<String>, types: &Vec<SqlType>) -> (r: String)
    requires
        headers@.len() == types@.len(),
    ensures
        r@ == spec_generate_sql(table_name@, headers.deep_view(), types@),
{
    let ghost dv = headers.deep_view();
    let ghost tv = types@;
    let mut r = String::from_str("CREATE TABLE \"");
    r.append(table_name);
    r.append("\" (\n");
    proof {
        assert(dv.len() == headers@.len());
        assert(r@ =~= "CREATE TABLE \""@ + table_name@ + "\" (\n"@);
    }
    let n = headers.len();
    let ghost prefix = r@;
    let mut i: usize = 0;
    while i < n
        invariant
            i <= n == dv.len() == tv.len(),
            n == headers@.len(),
            dv == headers.deep_view(),
            tv == types@,
            forall|j: int| 0 <= j < n ==> #[trigger] dv[j] == headers@[j]@,
            r@ + columns_sql(dv, tv, i as int) == prefix + columns_sql(dv, tv, 0),
        decreases n - i,
    {
        let col = column_sql_of(headers[i].as_str(), types[i]);
        let ghost old_r = r@;
        r.append(col.as_str());
        if i + 1 < n {
            r.append(",\n");
            proof {
                assert(r@ =~= old_r + (column_sql(dv[i as int], tv[i as int]) + ",\n"@));
                assert(columns_sql(dv, tv, i as int) =~= (column_sql(dv[i as int], tv[i as int])
                    + ",\n"@) + columns_sql(dv, tv, i + 1));
                assert(r@ + columns_sql(dv, tv, i + 1) =~= old_r + columns_sql(
                    dv,
                    tv,
                    i as int,
                ));
            }
        } else {
            proof {
                assert(columns_sql(dv, tv, i + 1) =~= Seq::<char>::empty());
                assert(r@ + columns_sql(dv, tv, i + 1) =~= old_r + columns_sql(
                    dv,
                    tv,
                    i as int,
                ));
            }
        }
        i += 1;
    }
    proof {
        assert(columns_sql(dv, tv, n as int) =~= Seq::<char>::empty());
        assert(r@ =~= prefix + columns_sql(dv, tv, 0));
    }
    r.append("\n);");
    proof {
        assert(r@ =~= spec_generate_sql(table_name@, dv, tv));
    }
    r
}

} // verus!
