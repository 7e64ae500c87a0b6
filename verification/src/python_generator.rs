//! Renders inferred column types into Python SQLModel class source, with a
//! three-way primary-key policy: reuse an existing column, synthesize a new
//! identity column, or none (leaving a reminder comment).

use vstd::prelude::*;
use vstd::string::{StrSliceExecFns, StringExecFns};

use crate::type_inference::SqlType;
use crate::utils::{dec_chars, sanitize_name, spec_sanitize, spec_pascal, to_pascal_case};

verus! {

/// How the generated model picks its primary key: mark an existing column,
/// synthesize a new integer identity column of the given name, or none.
#[derive(Debug, Clone, PartialEq)]
pub enum PkStrategy {
    ExistingColumn(String),
    CreateColumn(String),
    NoPrimaryKey,
}

/// The Python field type for one column type, always nullable.
pub open spec fn py_type_str(t: SqlType) -> Seq<char> {
    match t {
        SqlType::Integer => "int | None"@,
        SqlType::BigInt => "int | None"@,
        SqlType::Float => "float | None"@,
        SqlType::Char(_) => "str | None"@,
        SqlType::Varchar(_) => "str | None"@,
        SqlType::Date => "date | None"@,
        SqlType::Boolean => "bool | None"@,
        SqlType::Datetime => "datetime | None"@,
    }
}

/// The `Field(...)` parameters for one column type; text lengths are clamped
/// to at least 1.
pub open spec fn py_params_str(t: SqlType) -> Seq<char> {
    match t {
        SqlType::Char(n) => "default=None, max_length="@ + dec_chars(
            if n < 1 {
                1
            } else {
                n as int
            },
        ),
        SqlType::Varchar(n) => "default=None, max_length="@ + dec_chars(
            if n < 1 {
                1
            } else {
                n as int
            },
        ),
        _ => "default=None"@,
    }
}

/// One rendered field line; `pk` appends the primary-key marker.
pub open spec fn py_field_line(name: Seq<char>, t: SqlType, pk: bool) -> Seq<char> {
    "    "@ + name + ": "@ + py_type_str(t) + " = Field("@ + py_params_str(t) + (if pk {
        ", primary_key=True"@
    } else {
        Seq::empty()
    }) + ")\n"@
}

/// Whether the column at `i` is suppressed: a synthesized primary key of the
/// same sanitized name shadows it.
pub open spec fn column_shadowed(header: Seq<char>, pk: PkStrategy) -> bool {
    match pk {
        PkStrategy::CreateColumn(p) => spec_sanitize(header) == spec_sanitize(p@),
        _ => false,
    }
}

/// Whether the column at `i` carries the primary-key marker.
pub open spec fn column_is_pk(header: Seq<char>, pk: PkStrategy) -> bool {
    match pk {
        PkStrategy::ExistingColumn(p) => spec_sanitize(header) == spec_sanitize(p@),
        _ => false,
    }
}

/// The rendered field lines from column `i` on.
pub open spec fn py_fields(
    headers: Seq<Seq<char>>,
    types: Seq<SqlType>,
    pk: PkStrategy,
    i: int,
) -> Seq<char>
    decreases headers.len() - i,
{
    if i < 0 || i >= headers.len() {
        Seq::empty()
    } else {
        let line = if column_shadowed(headers[i], pk) {
            Seq::empty()
        } else {
            py_field_line(spec_sanitize(headers[i]), types[i], column_is_pk(headers[i], pk))
        };
        line + py_fields(headers, types, pk, i + 1)
    }
}

/// Whether a primary-key field was generated or marked.
pub open spec fn pk_identified(headers: Seq<Seq<char>>, pk: PkStrategy) -> bool {
    match pk {
        PkStrategy::CreateColumn(_) => true,
        PkStrategy::ExistingColumn(p) => exists|i: int|
            0 <= i < headers.len() && spec_sanitize(#[trigger] headers[i]) == spec_sanitize(p@),
        PkStrategy::NoPrimaryKey => false,
    }
}

/// The synthesized identity-column line, when that policy was chosen.
pub open spec fn py_pk_line(pk: PkStrategy) -> Seq<char> {
    match pk {
        PkStrategy::CreateColumn(p) => "    "@ + spec_sanitize(p@)
            + ": int | None = Field(default=None, primary_key=True)\n"@,
        _ => Seq::empty(),
    }
}

/// The closing line after the fields: a reminder comment when no primary key
/// was identified, or a `pass` body when no field at all was generated.
pub open spec fn py_trailer(headers: Seq<Seq<char>>, pk: PkStrategy) -> Seq<char> {
    if !pk_identified(headers, pk) && headers.len() > 0 {
        "    # todo: review and define a primary_key=true field for this model.\n"@
    } else if headers.len() == 0 && !pk_identified(headers, pk) {
        "    # no columns inferred, add fields manually\n    pass\n"@
    } else if headers.len() == 0 && pk matches PkStrategy::CreateColumn(_) {
        "    pass # only primary key field was generated, add other fields\n"@
    } else {
        Seq::empty()
    }
}

/// The whole class source: imports, the class head with the PascalCase name,
/// the optional synthesized key, one field per (unshadowed) column, and the
/// trailer.
pub open spec fn spec_generate_python(
    table: Seq<char>,
    headers: Seq<Seq<char>>,
    types: Seq<SqlType>,
    pk: PkStrategy,
) -> Seq<char> {
    "from datetime import date, datetime\nfrom sqlmodel import Field, SQLModel\n\n\nclass "@
        + spec_pascal(table) + "(SQLModel, table=True):\n"@ + py_pk_line(pk) + py_fields(
        headers,
        types,
        pk,
        0,
    ) + py_trailer(headers, pk)
}

fn py_type_str_of(t: SqlType) -> (r: &'static str)
    ensures
        r@ == py_type_str(t),
{
    match t {
        SqlType::Integer => "int | None",
        SqlType::BigInt => "int | None",
        SqlType::Float => "float | None",
        SqlType::Char(_) => "str | None",
        SqlType::Varchar(_) => "str | None",
        SqlType::Date => "date | None",
        SqlType::Boolean => "bool | None",
        SqlType::Datetime => "datetime | None",
    }
}

fn py_params_str_of(t: SqlType) -> (r: String)
    ensures
        r@ == py_params_str(t),
{
    match t {
        SqlType::Char(n) => {
            let len = if n < 1 {
                1
            } else {
                n
            };
            let mut r = String::from_str("default=None, max_length=");
            let num = crate::utils::usize_to_dec(len);
            r.append(num.as_str());
            r
        },
        SqlType::Varchar(n) => {
            let len = if n < 1 {
                1
            } else {
                n
            };
            let mut r = String::from_str("default=None, max_length=");
            let num = crate::utils::usize_to_dec(len);
            r.append(num.as_str());
            r
        },
        _ => String::from_str("default=None"),
    }
}

fn py_field_line_of(name: &str, t: SqlType, pk: bool) -> (r: String)
    ensures
        r@ == py_field_line(name@, t, pk),
{
    let mut r = String::from_str("    ");
    r.append(name);
    r.append(": ");
    r.append(py_type_str_of(t));
    r.append(" = Field(");
    let params = py_params_str_of(t);
    r.append(params.as_str());
    if pk {
        r.append(", primary_key=True");
    }
    r.append(")\n");
    proof {
        assert(r@ =~= py_field_line(name@, t, pk));
    }
    r
}

/// Generates Python SQLModel class source from a table name, headers, and
/// inferred types, under the chosen primary-key strategy.
pub fn generate_sqlmodel_python(
    table_name: &str,
    headers: &Vec<String>,
    types: &Vec<SqlType>,
    pk_strategy: &PkStrategy,
) -> (r: String)
    requires
        headers@.len() == types@.len(),
    ensures
        r@ == spec_generate_python(table_name@, headers.deep_view(), types@, *pk_strategy),
{
    let ghost dv = headers.deep_view();
    let ghost tv = types@;
    let ghost pk = *pk_strategy;
    let class_name = to_pascal_case(table_name);
    let mut r = String::from_str(
        "from datetime import date, datetime\nfrom sqlmodel import Field, SQLModel\n\n\nclass ",
    );
    r.append(class_name.as_str());
    r.append("(SQLModel, table=True):\n");
    match pk_strategy {
        PkStrategy::CreateColumn(p) => {
            let sanitized = sanitize_name(p.as_str());
            r.append("    ");
            r.append(sanitized.as_str());
            r.append(": int | None = Field(default=None, primary_key=True)\n");
        },
        _ => {},
    }
    proof {
        assert(dv.len() == headers@.len());
        assert(r@ =~= "from datetime import date, datetime\nfrom sqlmodel import Field, SQLModel\n\n\nclass "@
            + spec_pascal(table_name@) + "(SQLModel, table=True):\n"@ + py_pk_line(pk));
    }
    let ghost prefix = r@;
    let n = headers.len();
    let mut i: usize = 0;
    while i < n
        invariant
            i <= n == dv.len() == tv.len(),
            n == headers@.len(),
            dv == headers.deep_view(),
            tv == types@,
            pk == *pk_strategy,
            forall|j: int| 0 <= j < n ==> #[trigger] dv[j] == headers@[j]@,
            r@ + py_fields(dv, tv, pk, i as int) == prefix + py_fields(dv, tv, pk, 0),
        decreases n - i,
    {
        let name = sanitize_name(headers[i].as_str());
        let ghost old_r = r@;
        let shadowed: bool = match pk_strategy {
            PkStrategy::CreateColumn(p) => {
                let pk_name = sanitize_name(p.as_str());
                name == pk_name
            },
            _ => false,
        };
        proof {
            assert(name@ == spec_sanitize(dv[i as int]));
            assert(shadowed == column_shadowed(dv[i as int], pk));
        }
        if !shadowed {
            let is_pk: bool = match pk_strategy {
                PkStrategy::ExistingColumn(p) => {
                    let pk_name = sanitize_name(p.as_str());
                    name == pk_name
                },
                _ => false,
            };
            proof {
                assert(is_pk == column_is_pk(dv[i as int], pk));
            }
            let line = py_field_line_of(name.as_str(), types[i], is_pk);
            r.append(line.as_str());
            proof {
                assert(py_fields(dv, tv, pk, i as int) =~= py_field_line(
                    spec_sanitize(dv[i as int]),
                    tv[i as int],
                    column_is_pk(dv[i as int], pk),
                ) + py_fields(dv, tv, pk, i + 1));
                assert(r@ + py_fields(dv, tv, pk, i + 1) =~= old_r + py_fields(
                    dv,
                    tv,
                    pk,
                    i as int,
                ));
            }
        } else {
            proof {
                assert(py_fields(dv, tv, pk, i as int) =~= Seq::<char>::empty() + py_fields(
                    dv,
                    tv,
                    pk,
                    i + 1,
                ));
                assert(r@ + py_fields(dv, tv, pk, i + 1) =~= old_r + py_fields(
                    dv,
                    tv,
                    pk,
                    i as int,
                ));
            }
        }
        i += 1;
    }
    proof {
        assert(py_fields(dv, tv, pk, n as int) =~= Seq::<char>::empty());
        assert(r@ =~= prefix + py_fields(dv, tv, pk, 0));
    }
    // decide whether some field carries (or is) the primary key
    let pk_done: bool = match pk_strategy {
        PkStrategy::CreateColumn(_) => true,
        PkStrategy::NoPrimaryKey => false,
        PkStrategy::ExistingColumn(p) => {
            let pk_name = sanitize_name(p.as_str());
            let mut found = false;
            let mut j: usize = 0;
            while j < n
                invariant
                    j <= n == dv.len(),
                    n == headers@.len(),
                    dv == headers.deep_view(),
                    forall|x: int| 0 <= x < n ==> #[trigger] dv[x] == headers@[x]@,
                    pk_name@ == spec_sanitize(p@),
                    found == exists|x: int|
                        0 <= x < j && spec_sanitize(#[trigger] dv[x]) == spec_sanitize(p@),
                decreases n - j,
            {
                let name = sanitize_name(headers[j].as_str());
                if name == pk_name {
                    proof {
                        assert(spec_sanitize(dv[j as int]) == spec_sanitize(p@));
                    }
                    found = true;
                }
                j += 1;
            }
            found
        },
    };
    proof {
        assert(pk_done == pk_identified(dv, pk));
    }
    if !pk_done && n > 0 {
        r.append("    # todo: review and define a primary_key=true field for this model.\n");
    } else if n == 0 && !pk_done {
        r.append("    # no columns inferred, add fields manually\n    pass\n");
    } else if n == 0 {
        // only the synthesized primary-key field was generated
        r.append("    pass # only primary key field was generated, add other fields\n");
    }
    proof {
        assert(r@ =~= spec_generate_python(table_name@, dv, tv, pk));
    }
    r
}

} // verus!
