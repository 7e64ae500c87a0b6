//! The column classifier: given the ordered text cells of one column, pick
//! the strictest relational type that can represent every non-null value,
//! under a fixed precedence order.

use vstd::prelude::*;

use crate::tokens::{
    fits_i32, fits_i64, is_bool_cell, is_bool_token, is_date_cell, is_date_token, is_datetime_cell,
    is_datetime_token, is_float_cell, is_float_token, is_i32_cell, is_i64_cell,
};

verus! {

/// The relational type inferred for one column of a delimited text table.
///
/// `Char(n)` means every non-null value has exactly `n` characters;
/// `Varchar(n)` is the fallback, where `n` is the length of the longest
/// observed value (0 for a column with no values at all).
#[derive(Debug, Clone, Copy, PartialEq, Eq, Structural)]
pub enum SqlType {
    Integer,
    BigInt,
    Float,
    Char(usize),
    Varchar(usize),
    Date,
    Boolean,
    Datetime,
}

/// The column holds at least one non-null (non-empty) cell.
pub open spec fn has_value(cells: Seq<Seq<char>>) -> bool {
    exists|i: int| 0 <= i < cells.len() && (#[trigger] cells[i]).len() > 0
}

/// Length of the longest cell, null cells included.
pub open spec fn spec_max_len(cells: Seq<Seq<char>>) -> nat
    decreases cells.len(),
{
    if cells.len() == 0 {
        0
    } else {
        let rest = spec_max_len(cells.drop_last());
        if cells.last().len() > rest {
            cells.last().len()
        } else {
            rest
        }
    }
}

/// All non-null cells share one common character length.
pub open spec fn all_same_len(cells: Seq<Seq<char>>) -> bool {
    forall|i: int, j: int|
        0 <= i < cells.len() && 0 <= j < cells.len() && (#[trigger] cells[i]).len() > 0 && (
        #[trigger] cells[j]).len() > 0 ==> cells[i].len() == cells[j].len()
}

/// The length shared by the non-null cells (meaningful under `has_value`
/// and `all_same_len`).
pub open spec fn common_len(cells: Seq<Seq<char>>) -> nat {
    let i = choose|i: int| 0 <= i < cells.len() && (#[trigger] cells[i]).len() > 0;
    cells[i].len()
}

pub open spec fn all_bool_cells(cells: Seq<Seq<char>>) -> bool {
    forall|i: int|
        0 <= i < cells.len() && (#[trigger] cells[i]).len() > 0 ==> is_bool_token(cells[i])
}

pub open spec fn all_i32_cells(cells: Seq<Seq<char>>) -> bool {
    forall|i: int| 0 <= i < cells.len() && (#[trigger] cells[i]).len() > 0 ==> fits_i32(cells[i])
}

pub open spec fn all_i64_cells(cells: Seq<Seq<char>>) -> bool {
    forall|i: int| 0 <= i < cells.len() && (#[trigger] cells[i]).len() > 0 ==> fits_i64(cells[i])
}

pub open spec fn all_float_cells(cells: Seq<Seq<char>>) -> bool {
    forall|i: int|
        0 <= i < cells.len() && (#[trigger] cells[i]).len() > 0 ==> is_float_token(cells[i])
}

pub open spec fn all_datetime_cells(cells: Seq<Seq<char>>) -> bool {
    forall|i: int|
        0 <= i < cells.len() && (#[trigger] cells[i]).len() > 0 ==> is_datetime_token(cells[i])
}

pub open spec fn all_date_cells(cells: Seq<Seq<char>>) -> bool {
    forall|i: int|
        0 <= i < cells.len() && (#[trigger] cells[i]).len() > 0 ==> is_date_token(cells[i])
}

/// The strictest type consistent with every non-null cell of the column,
/// resolved in a fixed precedence order. Null (empty) cells never falsify a
/// predicate but do count towards the maximum length. Booleans are resolved
/// before integers so that a column of `1`s and `0`s stays boolean, and each
/// later numeric width strictly widens the earlier one.
pub open spec fn spec_classify(cells: Seq<Seq<char>>) -> SqlType {
    if !has_value(cells) {
        SqlType::Varchar(spec_max_len(cells) as usize)
    } else if all_bool_cells(cells) {
        SqlType::Boolean
    } else if all_i32_cells(cells) {
        SqlType::Integer
    } else if all_i64_cells(cells) {
        SqlType::BigInt
    } else if all_float_cells(cells) {
        SqlType::Float
    } else if all_datetime_cells(cells) {
        SqlType::Datetime
    } else if all_date_cells(cells) {
        SqlType::Date
    } else if all_same_len(cells) {
        SqlType::Char(common_len(cells) as usize)
    } else {
        SqlType::Varchar(spec_max_len(cells) as usize)
    }
}

proof fn lemma_max_len_bound(cells: Seq<Seq<char>>)
    ensures
        forall|i: int| 0 <= i < cells.len() ==> (#[trigger] cells[i]).len() <= spec_max_len(cells),
    decreases cells.len(),
{
    if cells.len() > 0 {
        lemma_max_len_bound(cells.drop_last());
        assert forall|i: int| 0 <= i < cells.len() implies (#[trigger] cells[i]).len()
            <= spec_max_len(cells) by {
            if i < cells.len() - 1 {
                assert(cells.drop_last()[i] == cells[i]);
            }
        }
    }
}

proof fn lemma_max_len_witness(cells: Seq<Seq<char>>)
    requires
        cells.len() > 0,
    ensures
        exists|i: int|
            0 <= i < cells.len() && (#[trigger] cells[i]).len() == spec_max_len(cells),
    decreases cells.len(),
{
    if cells.len() == 1 {
        assert(cells.drop_last().len() == 0);
        assert(spec_max_len(cells.drop_last()) == 0);
        assert(cells.last() == cells[0]);
        assert(cells[0].len() == spec_max_len(cells));
    } else {
        let rest = cells.drop_last();
        lemma_max_len_witness(rest);
        if cells.last().len() > spec_max_len(rest) {
            assert(cells[cells.len() - 1].len() == spec_max_len(cells));
        } else {
            let wi = choose|i: int|
                0 <= i < rest.len() && (#[trigger] rest[i]).len() == spec_max_len(rest);
            assert(cells[wi].len() == spec_max_len(cells));
        }
    }
}

proof fn lemma_same_elements(a: Seq<Seq<char>>, b: Seq<Seq<char>>)
    requires
        a.to_multiset() == b.to_multiset(),
    ensures
        a.len() == b.len(),
        forall|x: Seq<char>| #[trigger] a.contains(x) ==> b.contains(x),
        forall|x: Seq<char>| #[trigger] b.contains(x) ==> a.contains(x),
{
    a.to_multiset_ensures();
    b.to_multiset_ensures();
    assert forall|x: Seq<char>| #[trigger] a.contains(x) implies b.contains(x) by {
        assert(a.to_multiset().count(x) > 0);
    }
    assert forall|x: Seq<char>| #[trigger] b.contains(x) implies a.contains(x) by {
        assert(b.to_multiset().count(x) > 0);
    }
}

/// One direction of the predicate transfers used by the order-independence
/// law: every cell of `b` also occurs in `a`.
proof fn lemma_classify_parts_oneway(a: Seq<Seq<char>>, b: Seq<Seq<char>>)
    requires
        forall|x: Seq<char>| #[trigger] b.contains(x) ==> a.contains(x),
    ensures
        all_bool_cells(a) ==> all_bool_cells(b),
        all_i32_cells(a) ==> all_i32_cells(b),
        all_i64_cells(a) ==> all_i64_cells(b),
        all_float_cells(a) ==> all_float_cells(b),
        all_datetime_cells(a) ==> all_datetime_cells(b),
        all_date_cells(a) ==> all_date_cells(b),
        all_same_len(a) ==> all_same_len(b),
        has_value(b) ==> has_value(a),
{
    if all_bool_cells(a) {
        assert forall|i: int|
            0 <= i < b.len() && (#[trigger] b[i]).len() > 0 implies is_bool_token(b[i]) by {
            assert(b.contains(b[i]));
            let j = choose|j: int| 0 <= j < a.len() && a[j] == b[i];
            assert(a[j].len() > 0);
        }
    }
    if all_i32_cells(a) {
        assert forall|i: int|
            0 <= i < b.len() && (#[trigger] b[i]).len() > 0 implies fits_i32(b[i]) by {
            assert(b.contains(b[i]));
            let j = choose|j: int| 0 <= j < a.len() && a[j] == b[i];
            assert(a[j].len() > 0);
        }
    }
    if all_i64_cells(a) {
        assert forall|i: int|
            0 <= i < b.len() && (#[trigger] b[i]).len() > 0 implies fits_i64(b[i]) by {
            assert(b.contains(b[i]));
            let j = choose|j: int| 0 <= j < a.len() && a[j] == b[i];
            assert(a[j].len() > 0);
        }
    }
    if all_float_cells(a) {
        assert forall|i: int|
            0 <= i < b.len() && (#[trigger] b[i]).len() > 0 implies is_float_token(b[i]) by {
            assert(b.contains(b[i]));
            let j = choose|j: int| 0 <= j < a.len() && a[j] == b[i];
            assert(a[j].len() > 0);
        }
    }
    if all_datetime_cells(a) {
        assert forall|i: int|
            0 <= i < b.len() && (#[trigger] b[i]).len() > 0 implies is_datetime_token(b[i]) by {
            assert(b.contains(b[i]));
            let j = choose|j: int| 0 <= j < a.len() && a[j] == b[i];
            assert(a[j].len() > 0);
        }
    }
    if all_date_cells(a) {
        assert forall|i: int|
            0 <= i < b.len() && (#[trigger] b[i]).len() > 0 implies is_date_token(b[i]) by {
            assert(b.contains(b[i]));
            let j = choose|j: int| 0 <= j < a.len() && a[j] == b[i];
            assert(a[j].len() > 0);
        }
    }
    if all_same_len(a) {
        assert forall|i: int, j: int|
            0 <= i < b.len() && 0 <= j < b.len() && (#[trigger] b[i]).len() > 0 && (
            #[trigger] b[j]).len() > 0 implies b[i].len() == b[j].len() by {
            assert(b.contains(b[i]));
            assert(b.contains(b[j]));
            let ai = choose|x: int| 0 <= x < a.len() && a[x] == b[i];
            let aj = choose|x: int| 0 <= x < a.len() && a[x] == b[j];
            assert(a[ai].len() > 0 && a[aj].len() > 0);
        }
    }
    if has_value(b) {
        let i = choose|i: int| 0 <= i < b.len() && (#[trigger] b[i]).len() > 0;
        assert(b.contains(b[i]));
        let j = choose|j: int| 0 <= j < a.len() && a[j] == b[i];
        assert(a[j].len() > 0);
    }
}

/// Order-independence of classification: two columns that hold the same
/// cells, in any order, classify to the same type.
pub proof fn lemma_classify_order_independent(a: Seq<Seq<char>>, b: Seq<Seq<char>>)
    requires
        a.to_multiset() == b.to_multiset(),
    ensures
        spec_classify(a) == spec_classify(b),
{
    lemma_same_elements(a, b);
    lemma_classify_parts_oneway(a, b);
    lemma_classify_parts_oneway(b, a);
    if a.len() == 0 {
        assert(spec_max_len(a) == spec_max_len(b));
    } else {
        lemma_max_len_bound(a);
        lemma_max_len_bound(b);
        lemma_max_len_witness(a);
        lemma_max_len_witness(b);
        let wa = choose|i: int| 0 <= i < a.len() && (#[trigger] a[i]).len() == spec_max_len(a);
        assert(a.contains(a[wa]));
        let ja = choose|j: int| 0 <= j < b.len() && b[j] == a[wa];
        assert(spec_max_len(a) <= spec_max_len(b));
        let wb = choose|i: int| 0 <= i < b.len() && (#[trigger] b[i]).len() == spec_max_len(b);
        assert(b.contains(b[wb]));
        let jb = choose|j: int| 0 <= j < a.len() && a[j] == b[wb];
        assert(spec_max_len(b) <= spec_max_len(a));
    }
    if has_value(a) && all_same_len(a) {
        let ia = choose|i: int| 0 <= i < a.len() && (#[trigger] a[i]).len() > 0;
        let ib = choose|i: int| 0 <= i < b.len() && (#[trigger] b[i]).len() > 0;
        assert(b.contains(b[ib]));
        let j = choose|j: int| 0 <= j < a.len() && a[j] == b[ib];
        assert(a[j].len() > 0);
        assert(a[ia].len() == a[j].len());
        assert(common_len(a) == common_len(b));
    }
}

/// Infers the strictest SQL type that can represent every non-empty cell of
/// `column_data`; empty cells are treated as nulls. Total: unparseable input
/// degrades to a text type, never an error.
#[verifier::rlimit(100)]
pub fn infer_sql_type(column_data: &[&str]) -> (t: SqlType)
    ensures
        t == spec_classify(column_data.deep_view()),
{
    let ghost cells = column_data.deep_view();
    let n = column_data.len();
    let mut max_len: usize = 0;
    let mut first_len: Option<usize> = None;
    let mut same_len = true;
    let mut all_b = true;
    let mut all_i32 = true;
    let mut all_i64 = true;
    let mut all_f = true;
    let mut all_dt = true;
    let mut all_d = true;
    let mut k: usize = 0;
    while k < n
        invariant
            cells == column_data.deep_view(),
            n == column_data@.len(),
            cells.len() == n,
            k <= n,
            forall|i: int| 0 <= i < n ==> #[trigger] cells[i] == column_data@[i]@,
            max_len == spec_max_len(cells.take(k as int)),
            match first_len {
                Option::None => !has_value(cells.take(k as int)),
                Option::Some(l) => l > 0 && exists|i: int|
                    0 <= i < k && (#[trigger] cells[i]).len() == l,
            },
            same_len == all_same_len(cells.take(k as int)),
            all_b == all_bool_cells(cells.take(k as int)),
            all_i32 == all_i32_cells(cells.take(k as int)),
            all_i64 == all_i64_cells(cells.take(k as int)),
            all_f == all_float_cells(cells.take(k as int)),
            all_dt == all_datetime_cells(cells.take(k as int)),
            all_d == all_date_cells(cells.take(k as int)),
        decreases n - k,
    {
        let cell: &str = column_data[k];
        let clen = cell.unicode_len();
        proof {
            assert(cells.take(k + 1).drop_last() =~= cells.take(k as int));
            assert(cells.take(k + 1).last() == cells[k as int]);
            assert(cell@ == cells[k as int]);
        }
        if clen > max_len {
            max_len = clen;
        }
        if clen > 0 {
            match first_len {
                Option::None => {
                    first_len = Some(clen);
                    proof {
                        assert(cells[k as int].len() == clen);
                        assert(all_same_len(cells.take(k + 1))) by {
                            assert forall|i: int, j: int|
                                0 <= i < k + 1 && 0 <= j < k + 1 && (#[trigger] cells.take(
                                    k + 1,
                                )[i]).len() > 0 && (#[trigger] cells.take(k + 1)[j]).len()
                                    > 0 implies cells.take(k + 1)[i].len() == cells.take(
                                k + 1,
                            )[j].len() by {
                                if i < k {
                                    assert(has_value(cells.take(k as int))) by {
                                        assert((cells.take(k as int)[i]).len() > 0);
                                    }
                                }
                                if j < k {
                                    assert(has_value(cells.take(k as int))) by {
                                        assert((cells.take(k as int)[j]).len() > 0);
                                    }
                                }
                            }
                        }
                    }
                },
                Option::Some(l) => {
                    if same_len && clen != l {
                        same_len = false;
                        proof {
                            let ghost wi = choose|i: int|
                                0 <= i < k && (#[trigger] cells[i]).len() == l;
                            assert(cells.take(k + 1)[wi].len() == l);
                            assert(cells.take(k + 1)[k as int].len() == clen);
                            assert(!all_same_len(cells.take(k + 1)));
                        }
                    } else {
                        proof {
                            if same_len {
                                let ghost wi = choose|i: int|
                                    0 <= i < k && (#[trigger] cells[i]).len() == l;
                                assert(all_same_len(cells.take(k + 1))) by {
                                    assert forall|i: int, j: int|
                                        0 <= i < k + 1 && 0 <= j < k + 1 && (#[trigger] cells.take(
                                            k + 1,
                                        )[i]).len() > 0 && (#[trigger] cells.take(k + 1)[j]).len()
                                            > 0 implies cells.take(k + 1)[i].len() == cells.take(
                                        k + 1,
                                    )[j].len() by {
                                        // every non-null cell before k has length l
                                        assert(cells.take(k as int)[wi].len() == l);
                                        if i < k {
                                            assert(cells.take(k as int)[i].len() == cells.take(
                                                k as int,
                                            )[wi].len());
                                        }
                                        if j < k {
                                            assert(cells.take(k as int)[j].len() == cells.take(
                                                k as int,
                                            )[wi].len());
                                        }
                                    }
                                }
                            } else {
                                let ghost (wi, wj) = choose|i: int, j: int|
                                    0 <= i < k && 0 <= j < k && (#[trigger] cells.take(
                                        k as int,
                                    )[i]).len() > 0 && (#[trigger] cells.take(k as int)[j]).len()
                                        > 0 && cells.take(k as int)[i].len() != cells.take(
                                        k as int,
                                    )[j].len();
                                assert(cells.take(k + 1)[wi].len() > 0);
                                assert(cells.take(k + 1)[wj].len() > 0);
                                assert(!all_same_len(cells.take(k + 1)));
                            }
                        }
                    }
                },
            }
            if all_b && !is_bool_cell(cell) {
                all_b = false;
            }
            if all_i32 && !is_i32_cell(cell) {
                all_i32 = false;
            }
            if all_i64 && !is_i64_cell(cell) {
                all_i64 = false;
            }
            if all_f && !is_float_cell(cell) {
                all_f = false;
            }
            if all_dt && !is_datetime_cell(cell) {
                all_dt = false;
            }
            if all_d && !is_date_cell(cell) {
                all_d = false;
            }
        }
        proof {
            let pre = cells.take(k as int);
            let post = cells.take(k + 1);
            assert forall|i: int| 0 <= i < k + 1 implies #[trigger] post[i] == cells[i] by {}
            assert forall|i: int| 0 <= i < k implies #[trigger] pre[i] == cells[i] by {}
            if cells[k as int].len() == 0 {
                assert(same_len == all_same_len(post)) by {
                    if all_same_len(pre) {
                        assert forall|i: int, j: int|
                            0 <= i < k + 1 && 0 <= j < k + 1 && (#[trigger] post[i]).len() > 0 && (
                            #[trigger] post[j]).len() > 0 implies post[i].len() == post[j].len() by {
                            assert(pre[i].len() == pre[j].len());
                        }
                    } else {
                        let (wi, wj) = choose|i: int, j: int|
                            0 <= i < k && 0 <= j < k && (#[trigger] pre[i]).len() > 0 && (
                            #[trigger] pre[j]).len() > 0 && pre[i].len() != pre[j].len();
                        assert(post[wi].len() > 0 && post[wj].len() > 0 && post[wi].len()
                            != post[wj].len());
                    }
                }
                assert(first_len is None ==> !has_value(post)) by {
                    if first_len is None && has_value(post) {
                        let wi = choose|i: int| 0 <= i < post.len() && (#[trigger] post[i]).len()
                            > 0;
                        assert(pre[wi].len() > 0);
                    }
                }
            }
            assert(all_b == all_bool_cells(post)) by {
                if all_b {
                    assert forall|i: int|
                        0 <= i < k + 1 && (#[trigger] post[i]).len() > 0 implies is_bool_token(
                        post[i],
                    ) by {
                        if i < k {
                            assert(pre[i].len() > 0 && is_bool_token(pre[i]));
                        }
                    }
                } else {
                    if all_bool_cells(pre) {
                        // the current cell broke the flag
                        assert(post[k as int].len() > 0 && !is_bool_token(post[k as int]));
                    } else {
                        let wi = choose|i: int|
                            0 <= i < k && (#[trigger] pre[i]).len() > 0 && !is_bool_token(pre[i]);
                        assert(post[wi].len() > 0 && !is_bool_token(post[wi]));
                    }
                }
            }
            assert(all_i32 == all_i32_cells(post)) by {
                if all_i32 {
                    assert forall|i: int|
                        0 <= i < k + 1 && (#[trigger] post[i]).len() > 0 implies fits_i32(
                        post[i],
                    ) by {
                        if i < k {
                            assert(pre[i].len() > 0 && fits_i32(pre[i]));
                        }
                    }
                } else {
                    if all_i32_cells(pre) {
                        assert(post[k as int].len() > 0 && !fits_i32(post[k as int]));
                    } else {
                        let wi = choose|i: int|
                            0 <= i < k && (#[trigger] pre[i]).len() > 0 && !fits_i32(pre[i]);
                        assert(post[wi].len() > 0 && !fits_i32(post[wi]));
                    }
                }
            }
            assert(all_i64 == all_i64_cells(post)) by {
                if all_i64 {
                    assert forall|i: int|
                        0 <= i < k + 1 && (#[trigger] post[i]).len() > 0 implies fits_i64(
                        post[i],
                    ) by {
                        if i < k {
                            assert(pre[i].len() > 0 && fits_i64(pre[i]));
                        }
                    }
                } else {
                    if all_i64_cells(pre) {
                        assert(post[k as int].len() > 0 && !fits_i64(post[k as int]));
                    } else {
                        let wi = choose|i: int|
                            0 <= i < k && (#[trigger] pre[i]).len() > 0 && !fits_i64(pre[i]);
                        assert(post[wi].len() > 0 && !fits_i64(post[wi]));
                    }
                }
            }
            assert(all_f == all_float_cells(post)) by {
                if all_f {
                    assert forall|i: int|
                        0 <= i < k + 1 && (#[trigger] post[i]).len() > 0 implies is_float_token(
                        post[i],
                    ) by {
                        if i < k {
                            assert(pre[i].len() > 0 && is_float_token(pre[i]));
                        }
                    }
                } else {
                    if all_float_cells(pre) {
                        assert(post[k as int].len() > 0 && !is_float_token(post[k as int]));
                    } else {
                        let wi = choose|i: int|
                            0 <= i < k && (#[trigger] pre[i]).len() > 0 && !is_float_token(pre[i]);
                        assert(post[wi].len() > 0 && !is_float_token(post[wi]));
                    }
                }
            }
            assert(all_dt == all_datetime_cells(post)) by {
                if all_dt {
                    assert forall|i: int|
                        0 <= i < k + 1 && (#[trigger] post[i]).len() > 0 implies is_datetime_token(
                        post[i],
                    ) by {
                        if i < k {
                            assert(pre[i].len() > 0 && is_datetime_token(pre[i]));
                        }
                    }
                } else {
                    if all_datetime_cells(pre) {
                        assert(post[k as int].len() > 0 && !is_datetime_token(post[k as int]));
                    } else {
                        let wi = choose|i: int|
                            0 <= i < k && (#[trigger] pre[i]).len() > 0 && !is_datetime_token(
                                pre[i],
                            );
                        assert(post[wi].len() > 0 && !is_datetime_token(post[wi]));
                    }
                }
            }
            assert(all_d == all_date_cells(post)) by {
                if all_d {
                    assert forall|i: int|
                        0 <= i < k + 1 && (#[trigger] post[i]).len() > 0 implies is_date_token(
                        post[i],
                    ) by {
                        if i < k {
                            assert(pre[i].len() > 0 && is_date_token(pre[i]));
                        }
                    }
                } else {
                    if all_date_cells(pre) {
                        assert(post[k as int].len() > 0 && !is_date_token(post[k as int]));
                    } else {
                        let wi = choose|i: int|
                            0 <= i < k && (#[trigger] pre[i]).len() > 0 && !is_date_token(pre[i]);
                        assert(post[wi].len() > 0 && !is_date_token(post[wi]));
                    }
                }
            }
        }
        k += 1;
    }
    proof {
        assert(cells.take(n as int) =~= cells);
    }
    match first_len {
        Option::None => SqlType::Varchar(max_len),
        Option::Some(l) => {
            proof {
                let wi = choose|i: int| 0 <= i < k && (#[trigger] cells[i]).len() == l;
                assert(has_value(cells)) by {
                    assert(cells[wi].len() > 0);
                }
            }
            if all_b {
                SqlType::Boolean
            } else if all_i32 {
                SqlType::Integer
            } else if all_i64 {
                SqlType::BigInt
            } else if all_f {
                SqlType::Float
            } else if all_dt {
                SqlType::Datetime
            } else if all_d {
                SqlType::Date
            } else if same_len {
                proof {
                    let wi = choose|i: int| 0 <= i < k && (#[trigger] cells[i]).len() == l;
                    let ci = choose|i: int|
                        0 <= i < cells.len() && (#[trigger] cells[i]).len() > 0;
                    assert(cells[ci].len() == cells[wi].len());
                    assert(common_len(cells) == l);
                }
                SqlType::Char(l)
            } else {
                SqlType::Varchar(max_len)
            }
        },
    }
}

} // verus!
