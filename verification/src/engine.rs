//! The parallel reduction engine: partition the table's rows, evaluate the
//! similarity of the two named list columns over each partition's slice
//! independently, and concatenate the per-partition fragments in partition
//! order, so that the output row order equals the input row order and the
//! partition count is unobservable in the result.

use vstd::prelude::*;
use crate::jaccard::{spec_jaccard_column, jaccard_column, Similarity};
use crate::partition::{spec_partition, split_offsets};
use crate::table::{lemma_find_from_some, Column, EngineError, NamedColumn, Table};

verus! {

/// The cells of a list column; empty on any other column kind.
pub open spec fn spec_list_cells(c: Column) -> Seq<Option<Seq<Option<i64>>>> {
    match c {
        Column::Lists(v) => v.deep_view(),
        _ => Seq::empty(),
    }
}

/// The engine succeeds exactly when both named columns exist and both are
/// list-of-integer typed.
pub open spec fn spec_engine_ok(df: Table, a: Seq<char>, b: Seq<char>) -> bool {
    match (df.spec_find(a), df.spec_find(b)) {
        (Some(i), Some(j)) => df.cols@[i].col matches Column::Lists(_) && df.cols@[j].col
            matches Column::Lists(_),
        _ => false,
    }
}

/// The output column on success: the row-wise similarity of the two named
/// columns, a function of the table and the two names alone — in
/// particular not of the partition count.
pub open spec fn spec_engine_output(df: Table, a: Seq<char>, b: Seq<char>) -> Seq<
    Option<Similarity>,
>
    recommends
        spec_engine_ok(df, a, b),
{
    match (df.spec_find(a), df.spec_find(b)) {
        (Some(i), Some(j)) => spec_jaccard_column(
            spec_list_cells(df.cols@[i].col),
            spec_list_cells(df.cols@[j].col),
        ),
        _ => Seq::empty(),
    }
}

/// Which error is owed on failure: a missing column is reported before a
/// mistyped one, and the first name before the second, each error carrying
/// the offending column's name.
pub open spec fn spec_engine_err(df: Table, a: Seq<char>, b: Seq<char>, e: EngineError) -> bool {
    match e {
        EngineError::ColumnNotFound(s) => {
            ||| (df.spec_find(a) is None && s@ == a)
            ||| (df.spec_find(a) is Some && df.spec_find(b) is None && s@ == b)
        },
        EngineError::TypeMismatch(s) => match (df.spec_find(a), df.spec_find(b)) {
            (Some(i), Some(j)) => {
                ||| (!(df.cols@[i].col matches Column::Lists(_)) && s@ == a)
                ||| (df.cols@[i].col matches Column::Lists(_) && !(df.cols@[j].col
                    matches Column::Lists(_)) && s@ == b)
            },
            _ => false,
        },
    }
}

/// Restricting the evaluator to a contiguous row range commutes with
/// restricting its output to the same range: each output row depends on
/// its input row alone.
pub proof fn lemma_jaccard_column_subrange(
    a: Seq<Option<Seq<Option<i64>>>>,
    b: Seq<Option<Seq<Option<i64>>>>,
    off: int,
    end: int,
)
    requires
        a.len() == b.len(),
        0 <= off <= end <= a.len(),
    ensures
        spec_jaccard_column(a.subrange(off, end), b.subrange(off, end)) == spec_jaccard_column(
            a,
            b,
        ).subrange(off, end),
{
    assert(spec_jaccard_column(a.subrange(off, end), b.subrange(off, end))
        =~= spec_jaccard_column(a, b).subrange(off, end));
}

/// The concatenation, in partition order, of the evaluator's output on the
/// slices of the first `k` of the `n` partitions of `split_offsets`.
pub open spec fn spec_partitioned_jaccard(
    a: Seq<Option<Seq<Option<i64>>>>,
    b: Seq<Option<Seq<Option<i64>>>>,
    len: usize,
    n: usize,
    k: int,
) -> Seq<Option<Similarity>>
    recommends
        n >= 1,
        a.len() == b.len() == len,
        0 <= k <= n,
    decreases k,
{
    if k <= 0 {
        Seq::empty()
    } else {
        let p = spec_partition(len, n, k - 1);
        spec_partitioned_jaccard(a, b, len, n, k - 1) + spec_jaccard_column(
            a.subrange(p.0, p.0 + p.1),
            b.subrange(p.0, p.0 + p.1),
        )
    }
}

/// Parallelism is observationally transparent: evaluating each of the `n`
/// partitions on its own slice and concatenating the fragments in
/// partition order yields exactly the single sequential pass over the
/// whole column, for every partition count `n >= 1`.
pub proof fn lemma_parallelism_transparent(
    a: Seq<Option<Seq<Option<i64>>>>,
    b: Seq<Option<Seq<Option<i64>>>>,
    len: usize,
    n: usize,
)
    requires
        n >= 1,
        a.len() == b.len(),
        a.len() == len,
    ensures
        spec_partitioned_jaccard(a, b, len, n, n as int) == spec_jaccard_column(a, b),
{
    let c = len as int / n as int;
    assert(n * c <= len) by (nonlinear_arith)
        requires
            n >= 1,
            c == len as int / n as int,
            len >= 0,
    ;
    assert forall|k: int| 0 <= k <= n implies #[trigger] spec_partitioned_jaccard(a, b, len, n, k)
        == spec_jaccard_column(a, b).subrange(0, if k == n { len as int } else { k * c }) by {
        lemma_partitioned_prefix(a, b, len, n, k);
    }
    assert(n * c >= 0) by (nonlinear_arith)
        requires
            n >= 1,
            c >= 0,
    ;
    assert(spec_jaccard_column(a, b).subrange(0, len as int) =~= spec_jaccard_column(a, b));
}

proof fn lemma_partitioned_prefix(
    a: Seq<Option<Seq<Option<i64>>>>,
    b: Seq<Option<Seq<Option<i64>>>>,
    len: usize,
    n: usize,
    k: int,
)
    requires
        n >= 1,
        a.len() == b.len(),
        a.len() == len,
        0 <= k <= n,
    ensures
        spec_partitioned_jaccard(a, b, len, n, k) == spec_jaccard_column(a, b).subrange(
            0,
            if k == n {
                len as int
            } else {
                k * (len as int / n as int)
            },
        ),
    decreases k,
{
    let c = len as int / n as int;
    let full = spec_jaccard_column(a, b);
    assert(n * c <= len) by (nonlinear_arith)
        requires
            n >= 1,
            c == len as int / n as int,
            len >= 0,
    ;
    if k == 0 {
        assert(full.subrange(0, 0) =~= Seq::<Option<Similarity>>::empty());
    } else {
        lemma_partitioned_prefix(a, b, len, n, k - 1);
        let p = spec_partition(len, n, k - 1);
        let start = (k - 1) * c;
        assert(0 <= start && start + c <= n * c) by (nonlinear_arith)
            requires
                1 <= k <= n,
                c >= 0,
                start == (k - 1) * c,
        ;
        let end = if k == n {
            len as int
        } else {
            k * c
        };
        assert(k * c == start + c) by (nonlinear_arith)
            requires
                start == (k - 1) * c,
        ;
        assert(p.0 == start);
        assert(p.0 + p.1 == end);
        lemma_jaccard_column_subrange(a, b, start, end);
        assert(full.subrange(0, start) + full.subrange(start, end) =~= full.subrange(0, end));
    }
}

fn clone_cell(c: &Option<Vec<Option<i64>>>) -> (r: Option<Vec<Option<i64>>>)
    ensures
        r.deep_view() == c.deep_view(),
{
    match c {
        None => None,
        Some(v) => {
            let mut w: Vec<Option<i64>> = Vec::new();
            let m = v.len();
            for k in 0..m
                invariant
                    m == v@.len(),
                    w@ == v@.subrange(0, k as int),
            {
                w.push(v[k]);
                proof {
                    assert(v@.subrange(0, k as int + 1) =~= v@.subrange(0, k as int).push(
                        v@[k as int],
                    ));
                }
            }
            proof {
                assert(v@.subrange(0, m as int) =~= v@);
                assert(w.deep_view() =~= v.deep_view());
            }
            Some(w)
        },
    }
}

/// A copy of the contiguous row range `[off, off + len)` of a list column:
/// the slice one partition's evaluator pass works on.
fn slice_cells(v: &Vec<Option<Vec<Option<i64>>>>, off: usize, len: usize) -> (r: Vec<
    Option<Vec<Option<i64>>>,
>)
    requires
        off + len <= v@.len(),
    ensures
        r@.len() == len,
        r.deep_view() == v.deep_view().subrange(off as int, off as int + len as int),
{
    let total = v.len();
    let mut r: Vec<Option<Vec<Option<i64>>>> = Vec::new();
    for k in 0..len
        invariant
            total == v@.len(),
            off + len <= v@.len(),
            r@.len() == k,
            forall|j: int| 0 <= j < k ==> #[trigger] r@[j].deep_view() == v@[off + j].deep_view(),
    {
        proof {
            assert(off + k < v@.len());
        }
        let cell = clone_cell(&v[off + k]);
        r.push(cell);
    }
    proof {
        assert(r.deep_view() =~= v.deep_view().subrange(off as int, off as int + len as int));
    }
    r
}

fn append_rows(out: &mut Vec<Option<Similarity>>, frag: &Vec<Option<Similarity>>)
    ensures
        final(out)@ == old(out)@ + frag@,
{
    let m = frag.len();
    for k in 0..m
        invariant
            m == frag@.len(),
            out@ == old(out)@ + frag@.subrange(0, k as int),
    {
        out.push(frag[k]);
        proof {
            assert(old(out)@ + frag@.subrange(0, k as int + 1) =~= (old(out)@ + frag@.subrange(
                0,
                k as int,
            )).push(frag@[k as int]));
        }
    }
    proof {
        assert(frag@.subrange(0, m as int) =~= frag@);
    }
}

/// Compute the row-wise Jaccard similarity of the two named list columns
/// of `df`, splitting the rows into `n` partitions, evaluating each
/// partition's slice independently, and concatenating the fragments in
/// partition order. On success the result is a table of one `Ratios`
/// column named `"jaccard"`, with one row per input row, in input row
/// order; the output does not depend on `n`. A missing column name fails
/// with `ColumnNotFound`, a column that is not list-of-integer typed with
/// `TypeMismatch`; on failure no table is produced.
pub fn parallel_jaccard(df: &Table, col_a: &str, col_b: &str, n: usize) -> (r: Result<
    Table,
    EngineError,
>)
    requires
        df.wf(),
        n >= 1,
    ensures
        r is Ok <==> spec_engine_ok(*df, col_a@, col_b@),
        r matches Ok(t) ==> {
            &&& t.wf()
            &&& t.height == df.height
            &&& t.cols@.len() == 1
            &&& t.cols@[0].name@ == "jaccard"@
            &&& t.cols@[0].col matches Column::Ratios(v) && v@ == spec_engine_output(
                *df,
                col_a@,
                col_b@,
            )
        },
        r matches Err(e) ==> spec_engine_err(*df, col_a@, col_b@, e),
{
    let key_a: String = col_a.to_owned();
    let key_b: String = col_b.to_owned();
    let ia = match df.find(&key_a) {
        Some(i) => i,
        None => {
            return Err(EngineError::ColumnNotFound(key_a));
        },
    };
    let ib = match df.find(&key_b) {
        Some(i) => i,
        None => {
            return Err(EngineError::ColumnNotFound(key_b));
        },
    };
    proof {
        lemma_find_from_some(df.cols@, key_a@, 0, ia as int);
        lemma_find_from_some(df.cols@, key_b@, 0, ib as int);
    }
    let ca: &Vec<Option<Vec<Option<i64>>>> = match &df.cols[ia].col {
        Column::Lists(v) => v,
        _ => {
            return Err(EngineError::TypeMismatch(key_a));
        },
    };
    let cb: &Vec<Option<Vec<Option<i64>>>> = match &df.cols[ib].col {
        Column::Lists(v) => v,
        _ => {
            return Err(EngineError::TypeMismatch(key_b));
        },
    };
    let ghost full = spec_jaccard_column(ca.deep_view(), cb.deep_view());
    proof {
        assert(df.cols@[ia as int].col.spec_len() == df.height);
        assert(df.cols@[ib as int].col.spec_len() == df.height);
        assert(full == spec_engine_output(*df, col_a@, col_b@));
    }
    let height = df.height;
    let offsets = split_offsets(height, n);
    let mut out: Vec<Option<Similarity>> = Vec::new();
    for p in 0..n
        invariant
            n >= 1,
            height == df.height,
            ca@.len() == height,
            cb@.len() == height,
            full == spec_jaccard_column(ca.deep_view(), cb.deep_view()),
            full.len() == height,
            offsets@.len() == n,
            offsets@[0].0 == 0,
            forall|i: int|
                0 <= i < n - 1 ==> #[trigger] offsets@[i].0 + offsets@[i].1 == offsets@[i + 1].0,
            offsets@[n as int - 1].0 + offsets@[n as int - 1].1 == height,
            forall|i: int| 0 <= i < n ==> #[trigger] offsets@[i].0 + offsets@[i].1 <= height,
            out@ == full.subrange(
                0,
                if p < n {
                    offsets@[p as int].0 as int
                } else {
                    height as int
                },
            ),
    {
        let off = offsets[p].0;
        let plen = offsets[p].1;
        let sa = slice_cells(ca, off, plen);
        let sb = slice_cells(cb, off, plen);
        let frag = jaccard_column(&sa, &sb);
        proof {
            lemma_jaccard_column_subrange(
                ca.deep_view(),
                cb.deep_view(),
                off as int,
                off as int + plen as int,
            );
        }
        append_rows(&mut out, &frag);
        proof {
            assert(full.subrange(0, off as int) + full.subrange(
                off as int,
                off as int + plen as int,
            ) =~= full.subrange(0, off as int + plen as int));
        }
    }
    let name: String = "jaccard".to_owned();
    let col = NamedColumn { name, col: Column::Ratios(out) };
    let result = Table { height, cols: vec![col] };
    proof {
        assert(result.cols@[0].col.spec_len() == result.height);
    }
    Ok(result)
}

} // verus!
