//! The elementwise sum transform registered into a deferred query plan:
//! the row-aligned sum of two unsigned 64-bit integer columns, missing in
//! a row whenever either input is missing, wrapping on overflow.
//!
//! Plan registration itself is host plumbing; what this module pins down
//! is the transform the plan runs on materialization.

use vstd::prelude::*;
use crate::table::{lemma_find_from_some, Column, EngineError, NamedColumn, Table};

verus! {

/// The sum of one row pair: missing propagates; otherwise the sum in the
/// unsigned 64-bit domain, wrapping on overflow.
pub open spec fn spec_sum_cell(a: Option<u64>, b: Option<u64>) -> Option<u64> {
    match (a, b) {
        (Some(x), Some(y)) => Some(((x + y) % 0x1_0000_0000_0000_0000) as u64),
        _ => None,
    }
}

/// Null in either input yields null output; two present inputs always
/// yield a present output.
pub proof fn lemma_sum_null_propagates(a: Option<u64>, b: Option<u64>)
    ensures
        spec_sum_cell(a, b) is None <==> (a is None || b is None),
{
}

/// Sum one row pair.
pub fn sum_cells(a: Option<u64>, b: Option<u64>) -> (r: Option<u64>)
    ensures
        r == spec_sum_cell(a, b),
{
    match (a, b) {
        (Some(x), Some(y)) => {
            let s = x.wrapping_add(y);
            proof {
                assert(s == ((x + y) % 0x1_0000_0000_0000_0000) as u64);
            }
            Some(s)
        },
        _ => None,
    }
}

/// The sum column for two row-aligned integer columns.
pub open spec fn spec_sum_column(a: Seq<Option<u64>>, b: Seq<Option<u64>>) -> Seq<Option<u64>>
    recommends
        a.len() == b.len(),
{
    Seq::new(a.len(), |i: int| spec_sum_cell(a[i], b[i]))
}

/// Sum two row-aligned integer columns row by row.
pub fn sum_columns(a: &Vec<Option<u64>>, b: &Vec<Option<u64>>) -> (r: Vec<Option<u64>>)
    requires
        a@.len() == b@.len(),
    ensures
        r@ == spec_sum_column(a@, b@),
{
    let mut r: Vec<Option<u64>> = Vec::new();
    let n = a.len();
    for i in 0..n
        invariant
            n == a@.len(),
            a@.len() == b@.len(),
            r@.len() == i,
            forall|j: int| 0 <= j < i ==> r@[j] == spec_sum_cell(a@[j], b@[j]),
    {
        r.push(sum_cells(a[i], b[i]));
    }
    proof {
        assert(r@ =~= spec_sum_column(a@, b@));
    }
    r
}

/// The registered projection step of the deferred plan: the names of the
/// two integer columns to sum. Registration only records the step; the
/// computation runs when the plan is materialized against a table.
pub struct SumPlan {
    pub col_a: String,
    pub col_b: String,
}

/// The cells of an integer column; empty on any other column kind.
pub open spec fn spec_int_cells(c: Column) -> Seq<Option<u64>> {
    match c {
        Column::Ints(v) => v@,
        _ => Seq::empty(),
    }
}

impl SumPlan {
    /// The step succeeds exactly when both named columns exist and both
    /// are integer typed.
    pub open spec fn spec_ok(&self, df: Table) -> bool {
        match (df.spec_find(self.col_a@), df.spec_find(self.col_b@)) {
            (Some(i), Some(j)) => df.cols@[i].col matches Column::Ints(_) && df.cols@[j].col
                matches Column::Ints(_),
            _ => false,
        }
    }

    /// The output column on success: the row-wise sum of the two named
    /// columns.
    pub open spec fn spec_output(&self, df: Table) -> Seq<Option<u64>>
        recommends
            self.spec_ok(df),
    {
        match (df.spec_find(self.col_a@), df.spec_find(self.col_b@)) {
            (Some(i), Some(j)) => spec_sum_column(
                spec_int_cells(df.cols@[i].col),
                spec_int_cells(df.cols@[j].col),
            ),
            _ => Seq::empty(),
        }
    }

    /// Which error is owed on failure: a missing column is reported
    /// before a mistyped one, and the first name before the second.
    pub open spec fn spec_err(&self, df: Table, e: EngineError) -> bool {
        match e {
            EngineError::ColumnNotFound(s) => {
                ||| (df.spec_find(self.col_a@) is None && s@ == self.col_a@)
                ||| (df.spec_find(self.col_a@) is Some && df.spec_find(self.col_b@) is None && s@
                    == self.col_b@)
            },
            EngineError::TypeMismatch(s) => match (
                df.spec_find(self.col_a@),
                df.spec_find(self.col_b@),
            ) {
                (Some(i), Some(j)) => {
                    ||| (!(df.cols@[i].col matches Column::Ints(_)) && s@ == self.col_a@)
                    ||| (df.cols@[i].col matches Column::Ints(_) && !(df.cols@[j].col
                        matches Column::Ints(_)) && s@ == self.col_b@)
                },
                _ => false,
            },
        }
    }

    /// Materialize the registered step against a table: on success a
    /// table of one unsigned 64-bit integer column named `"sum"`, with
    /// one row per input row, each the null-propagating wrapping sum of
    /// its input row pair. A missing column name fails with
    /// `ColumnNotFound`, a column that is not integer typed with
    /// `TypeMismatch`; on failure no table is produced.
    pub fn materialize(&self, df: &Table) -> (r: Result<Table, EngineError>)
        requires
            df.wf(),
        ensures
            r is Ok <==> self.spec_ok(*df),
            r matches Ok(t) ==> {
                &&& t.wf()
                &&& t.height == df.height
                &&& t.cols@.len() == 1
                &&& t.cols@[0].name@ == "sum"@
                &&& t.cols@[0].col matches Column::Ints(v) && v@ == self.spec_output(*df)
            },
            r matches Err(e) ==> self.spec_err(*df, e),
    {
        let ia = match df.find(&self.col_a) {
            Some(i) => i,
            None => {
                return Err(EngineError::ColumnNotFound(self.col_a.clone()));
            },
        };
        let ib = match df.find(&self.col_b) {
            Some(i) => i,
            None => {
                return Err(EngineError::ColumnNotFound(self.col_b.clone()));
            },
        };
        proof {
            lemma_find_from_some(df.cols@, self.col_a@, 0, ia as int);
            lemma_find_from_some(df.cols@, self.col_b@, 0, ib as int);
        }
        let ca: &Vec<Option<u64>> = match &df.cols[ia].col {
            Column::Ints(v) => v,
            _ => {
                return Err(EngineError::TypeMismatch(self.col_a.clone()));
            },
        };
        let cb: &Vec<Option<u64>> = match &df.cols[ib].col {
            Column::Ints(v) => v,
            _ => {
                return Err(EngineError::TypeMismatch(self.col_b.clone()));
            },
        };
        proof {
            assert(df.cols@[ia as int].col.spec_len() == df.height);
            assert(df.cols@[ib as int].col.spec_len() == df.height);
        }
        let out = sum_columns(ca, cb);
        let name: String = "sum".to_owned();
        let col = NamedColumn { name, col: Column::Ints(out) };
        let result = Table { height: df.height, cols: vec![col] };
        proof {
            assert(result.cols@[0].col.spec_len() == result.height);
        }
        Ok(result)
    }
}

} // verus!
