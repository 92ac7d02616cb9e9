//! The partitioner: splits a row range of a given height into `n` disjoint,
//! contiguous, gapless partitions whose union is exactly `[0, len)`.

use vstd::prelude::*;

verus! {

/// The number of rows every partition but the last receives: `len / n`,
/// rounded down.
pub open spec fn spec_chunk(len: usize, n: usize) -> int
    recommends
        n >= 1,
{
    len as int / n as int
}

/// The partition with index `i` out of `n`, as an `(offset, length)` pair.
/// All partitions but the last have `spec_chunk(len, n)` rows; the last
/// absorbs the remainder of the integer division.
pub open spec fn spec_partition(len: usize, n: usize, i: int) -> (int, int)
    recommends
        n >= 1,
        0 <= i < n,
{
    let c = spec_chunk(len, n);
    (i * c, if i == n - 1 { len - (n - 1) * c } else { c })
}

/// `row` lies inside the partition `p`.
pub open spec fn partition_holds(p: (int, int), row: int) -> bool {
    p.0 <= row < p.0 + p.1
}

/// The partitions are disjoint and cover `[0, len)` exactly: every row of
/// the table lies in exactly one of the `n` partitions.
pub proof fn lemma_partitions_disjoint_cover(len: usize, n: usize, row: int)
    requires
        n >= 1,
        0 <= row < len,
    ensures
        exists|i: int|
            0 <= i < n && #[trigger] partition_holds(spec_partition(len, n, i), row),
        forall|i: int, j: int|
            0 <= i < j < n ==> !(partition_holds(spec_partition(len, n, i), row)
                && partition_holds(spec_partition(len, n, j), row)),
{
    let c = spec_chunk(len, n);
    vstd::arithmetic::div_mod::lemma_div_pos_is_pos(len as int, n as int);
    if c == 0 {
        assert((n - 1) * c == 0) by (nonlinear_arith)
            requires
                c == 0,
        ;
        assert(partition_holds(spec_partition(len, n, n as int - 1), row));
        assert forall|i: int, j: int|
            0 <= i < j < n implies !(partition_holds(spec_partition(len, n, i), row)
            && partition_holds(spec_partition(len, n, j), row)) by {
            assert(i * c == 0 && j * c == 0) by (nonlinear_arith)
                requires
                    c == 0,
            ;
        }
    } else {
        let q = row / c;
        vstd::arithmetic::div_mod::lemma_fundamental_div_mod(row, c);
        vstd::arithmetic::div_mod::lemma_mod_bound(row, c);
        assert(c * q <= row < c * (q + 1)) by {
            assert(c * (q + 1) == c * q + c) by (nonlinear_arith);
        }
        vstd::arithmetic::div_mod::lemma_div_pos_is_pos(row, c);
        if q < n - 1 {
            assert(q * c == c * q) by (nonlinear_arith);
            assert(partition_holds(spec_partition(len, n, q), row));
        } else {
            vstd::arithmetic::mul::lemma_mul_inequality(n as int - 1, q, c);
            assert(q * c == c * q && (n - 1) * c == c * (n - 1)) by (nonlinear_arith);
            assert((n - 1) * c <= row);
            assert(partition_holds(spec_partition(len, n, n as int - 1), row));
        }
        assert forall|i: int, j: int|
            0 <= i < j < n implies !(partition_holds(spec_partition(len, n, i), row)
            && partition_holds(spec_partition(len, n, j), row)) by {
            if partition_holds(spec_partition(len, n, i), row) && partition_holds(
                spec_partition(len, n, j),
                row,
            ) {
                assert(row < i * c + c);
                assert(i * c + c == (i + 1) * c) by (nonlinear_arith);
                vstd::arithmetic::mul::lemma_mul_inequality(i + 1, j, c);
                assert((i + 1) * c <= j * c);
                assert(j * c <= row);
            }
        }
    }
}

/// Compute the `n` partitions of a table of height `len`, in partition
/// order. The partitions are contiguous and gapless: each one starts where
/// the previous one ended, the first starts at row 0, and the last ends at
/// row `len`, so together they cover `[0, len)` exactly and are pairwise
/// disjoint. When `n > len`, partitions before the last have zero length.
pub fn split_offsets(len: usize, n: usize) -> (r: Vec<(usize, usize)>)
    requires
        n >= 1,
    ensures
        r@.len() == n,
        forall|i: int|
            0 <= i < n ==> (#[trigger] r@[i].0 as int, r@[i].1 as int) == spec_partition(
                len,
                n,
                i,
            ),
        r@[0].0 == 0,
        forall|i: int| 0 <= i < n - 1 ==> #[trigger] r@[i].0 + r@[i].1 == r@[i + 1].0,
        r@[n as int - 1].0 + r@[n as int - 1].1 == len,
        forall|i: int| 0 <= i < n ==> #[trigger] r@[i].0 + r@[i].1 <= len,
{
    if n == 1 {
        let r: Vec<(usize, usize)> = vec![(0, len)];
        assert(r@[0].0 + r@[0].1 <= len);
        r
    } else {
        let chunk: usize = len / n;
        let mut r: Vec<(usize, usize)> = Vec::new();
        assert(n * chunk <= len) by (nonlinear_arith)
            requires
                n >= 1,
                chunk == len as int / n as int,
                len >= 0,
        ;
        for i in 0..n
            invariant
                n >= 2,
                chunk == spec_chunk(len, n),
                n * chunk <= len,
                r@.len() == i,
                forall|j: int|
                    0 <= j < i ==> (#[trigger] r@[j].0 as int, r@[j].1 as int) == spec_partition(
                        len,
                        n,
                        j,
                    ),
        {
            assert(i * chunk <= n * chunk) by (nonlinear_arith)
                requires
                    0 <= i <= n,
                    chunk >= 0,
            ;
            let offset: usize = i * chunk;
            let plen: usize = if i == n - 1 {
                len - offset
            } else {
                chunk
            };
            proof {
                if i < n - 1 {
                    assert((i + 1) * chunk == i * chunk + chunk) by (nonlinear_arith);
                    assert((i + 1) * chunk <= n * chunk) by (nonlinear_arith)
                        requires
                            0 <= i + 1 <= n,
                            chunk >= 0,
                    ;
                } else {
                    assert((n - 1) * chunk == i * chunk) by (nonlinear_arith)
                        requires
                            i == n - 1,
                    ;
                }
            }
            r.push((offset, plen));
        }
        proof {
            assert forall|i: int| 0 <= i < n - 1 implies #[trigger] r@[i].0 + r@[i].1 == r@[i
                + 1].0 by {
                assert((i + 1) * chunk == i * chunk + chunk) by (nonlinear_arith);
            }
            assert forall|i: int| 0 <= i < n implies #[trigger] r@[i].0 + r@[i].1 <= len by {
                if i < n - 1 {
                    assert((i + 1) * chunk <= n * chunk) by (nonlinear_arith)
                        requires
                            0 <= i + 1 <= n,
                            chunk >= 0,
                    ;
                }
            }
        }
        r
    }
}

} // verus!
