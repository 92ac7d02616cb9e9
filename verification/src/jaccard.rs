//! The row-pair similarity evaluator: Jaccard similarity of two
//! list-of-integer cells, interpreted as sets.
//!
//! Verified code carries no floating-point values, so a similarity is
//! returned as the exact pair of its numerator and denominator:
//! `|A ∩ B|` and `|A| + |B| - |A ∩ B|`. The caller divides the two as
//! IEEE doubles; two empty sets give denominator 0, whose quotient is the
//! not-a-number value, by design.
//!
//! An element of a list cell is an `Option<i64>`: a missing entry inside a
//! list is treated as one more distinct member of the set rather than an
//! error.

use vstd::prelude::*;

verus! {

broadcast use
    vstd::seq_lib::seq_to_set_is_finite,
    vstd::prelude::Seq::lemma_push_to_set_commute,
    vstd::set::group_set_axioms;


/// The set of elements of a list cell, duplicates collapsed.
pub open spec fn elem_set(l: Seq<Option<i64>>) -> Set<Option<i64>> {
    l.to_set()
}

/// `|A ∩ B|` for the element sets of two list cells.
pub open spec fn spec_inter(a: Seq<Option<i64>>, b: Seq<Option<i64>>) -> nat {
    elem_set(a).intersect(elem_set(b)).len()
}

/// `|A| + |B| - |A ∩ B|`: the Jaccard denominator, equal to `|A ∪ B|`.
pub open spec fn spec_union(a: Seq<Option<i64>>, b: Seq<Option<i64>>) -> int {
    elem_set(a).len() + elem_set(b).len() - spec_inter(a, b)
}

/// An exact Jaccard similarity: the quotient `inter / total` is the
/// similarity value; `total == 0` (two empty sets) makes the quotient the
/// IEEE not-a-number value, which the caller must treat as "undefined",
/// not as an error.
#[derive(Clone, Copy, PartialEq, Eq, Structural, Debug)]
pub struct Similarity {
    /// `|A ∩ B|`.
    pub inter: usize,
    /// `|A| + |B| - |A ∩ B|`, the size of `A ∪ B`.
    pub total: u128,
}

/// The similarity of one row: missing on a missing input cell, otherwise
/// the exact intersection / union pair of the two element sets.
pub open spec fn spec_row_similarity(
    a: Option<Seq<Option<i64>>>,
    b: Option<Seq<Option<i64>>>,
) -> Option<Similarity> {
    match (a, b) {
        (Some(x), Some(y)) => Some(
            Similarity { inter: spec_inter(x, y) as usize, total: spec_union(x, y) as u128 },
        ),
        _ => None,
    }
}

/// Similarity is symmetric: swapping the two cells swaps nothing in the
/// result, missing or not.
pub proof fn lemma_similarity_symmetric(a: Option<Seq<Option<i64>>>, b: Option<Seq<Option<i64>>>)
    ensures
        spec_row_similarity(a, b) == spec_row_similarity(b, a),
{
    match (a, b) {
        (Some(x), Some(y)) => {
            assert(elem_set(x).intersect(elem_set(y)) =~= elem_set(y).intersect(elem_set(x)));
        },
        _ => {},
    }
}

/// A cell compared with itself has its intersection equal to its union, so
/// the similarity quotient is 1 whenever the cell is non-empty. The length
/// bound holds of every list held in memory.
pub proof fn lemma_similarity_self(a: Seq<Option<i64>>)
    requires
        a.len() <= usize::MAX,
    ensures
        ({
            let l = elem_set(a).len();
            &&& spec_row_similarity(Some(a), Some(a)) == Some(
                Similarity { inter: l as usize, total: l as u128 },
            )
            &&& (a.len() > 0 ==> l > 0)
        }),
{
    assert(elem_set(a).intersect(elem_set(a)) =~= elem_set(a));
    a.lemma_cardinality_of_set();
    if a.len() > 0 {
        a.lemma_cardinality_of_empty_set_is_0();
    }
}

/// A missing cell on either side makes the similarity missing.
pub proof fn lemma_similarity_missing(a: Option<Seq<Option<i64>>>, b: Option<Seq<Option<i64>>>)
    requires
        a is None || b is None,
    ensures
        spec_row_similarity(a, b) is None,
{
}

/// Two non-empty cells with disjoint element sets have intersection 0 and
/// a positive union, so the similarity quotient is 0.
pub proof fn lemma_similarity_disjoint(x: Seq<Option<i64>>, y: Seq<Option<i64>>)
    requires
        elem_set(x).disjoint(elem_set(y)),
        x.len() > 0,
        x.len() <= usize::MAX,
        y.len() <= usize::MAX,
    ensures
        ({
            let l = elem_set(x).len() + elem_set(y).len();
            &&& spec_row_similarity(Some(x), Some(y)) == Some(
                Similarity { inter: 0, total: l as u128 },
            )
            &&& l > 0
        }),
{
    assert(elem_set(x).intersect(elem_set(y)) =~= Set::<Option<i64>>::empty());
    x.lemma_cardinality_of_set();
    y.lemma_cardinality_of_set();
    x.lemma_cardinality_of_empty_set_is_0();
}

fn elem_eq(a: &Option<i64>, b: &Option<i64>) -> (r: bool)
    ensures
        r == (*a == *b),
{
    match (a, b) {
        (None, None) => true,
        (Some(x), Some(y)) => *x == *y,
        _ => false,
    }
}

fn contains_elem(v: &Vec<Option<i64>>, x: &Option<i64>) -> (r: bool)
    ensures
        r == v@.contains(*x),
{
    let mut i: usize = 0;
    while i < v.len()
        invariant
            i <= v@.len(),
            forall|j: int| 0 <= j < i ==> v@[j] != *x,
        decreases v@.len() - i,
    {
        if elem_eq(&v[i], x) {
            return true;
        }
        i += 1;
    }
    false
}

/// Collapse a list cell's elements into a vector of its distinct elements:
/// the executable image of `elem_set`.
fn dedup_elems(l: &Vec<Option<i64>>) -> (r: Vec<Option<i64>>)
    ensures
        r@.to_set() == elem_set(l@),
        r@.no_duplicates(),
        r@.len() == elem_set(l@).len(),
{
    let mut r: Vec<Option<i64>> = Vec::new();
    let mut i: usize = 0;
    proof {
        assert(r@.to_set() =~= l@.subrange(0, 0).to_set());
    }
    while i < l.len()
        invariant
            i <= l@.len(),
            r@.to_set() == l@.subrange(0, i as int).to_set(),
            r@.no_duplicates(),
        decreases l@.len() - i,
    {
        let ghost prefix = l@.subrange(0, i as int);
        let ghost e = l@[i as int];
        proof {
            assert(l@.subrange(0, i as int + 1) =~= prefix.push(e));
            assert(prefix.push(e).to_set() =~= prefix.to_set().insert(e));
        }
        if !contains_elem(&r, &l[i]) {
            let ghost r_old = r@;
            r.push(l[i]);
            proof {
                assert(r@ =~= r_old.push(e));
                assert(r@.to_set() =~= r_old.to_set().insert(e));
                assert forall|p: int, q: int|
                    (0 <= p < r@.len() && 0 <= q < r@.len() && p != q) implies r@[p]
                    != r@[q] by {
                    if p < r@.len() - 1 && q < r@.len() - 1 {
                    } else if p == r@.len() - 1 {
                        assert(!r_old.contains(e));
                        assert(r_old[q] != e);
                    } else {
                        assert(!r_old.contains(e));
                        assert(r_old[p] != e);
                    }
                }
            }
        } else {
            proof {
                assert(r@.to_set().contains(e));
                assert(prefix.to_set().insert(e) =~= prefix.to_set());
            }
        }
        i += 1;
    }
    proof {
        assert(l@.subrange(0, l@.len() as int) =~= l@);
        r@.unique_seq_to_set();
    }
    r
}

/// Count how many elements of `da` (assumed distinct) occur in `b`:
/// the executable image of `spec_inter`.
fn count_common(da: &Vec<Option<i64>>, b: &Vec<Option<i64>>) -> (r: usize)
    requires
        da@.no_duplicates(),
    ensures
        r == da@.to_set().intersect(b@.to_set()).len(),
        r <= da@.len(),
{
    let mut count: usize = 0;
    let mut i: usize = 0;
    proof {
        assert(da@.subrange(0, 0).to_set().intersect(b@.to_set()) =~= Set::<Option<i64>>::empty());
    }
    while i < da.len()
        invariant
            i <= da@.len(),
            da@.no_duplicates(),
            count <= i,
            count == da@.subrange(0, i as int).to_set().intersect(b@.to_set()).len(),
        decreases da@.len() - i,
    {
        let ghost prefix_inter = da@.subrange(0, i as int).to_set().intersect(b@.to_set());
        let hit = contains_elem(b, &da[i]);
        proof {
            let prefix = da@.subrange(0, i as int);
            let next = da@.subrange(0, i as int + 1);
            let e = da@[i as int];
            assert forall|x: Option<i64>| next.contains(x) implies prefix.contains(x) || x
                == e by {
                let k = choose|k: int| 0 <= k < next.len() && next[k] == x;
                if k < prefix.len() {
                    assert(prefix[k] == x);
                }
            }
            assert forall|x: Option<i64>| prefix.contains(x) implies next.contains(x) by {
                let k = choose|k: int| 0 <= k < prefix.len() && prefix[k] == x;
                assert(next[k] == x);
            }
            assert(next[i as int] == e);
            assert(next.contains(e));
            assert(!prefix.contains(e)) by {
                if prefix.contains(e) {
                    let k = choose|k: int| 0 <= k < prefix.len() && prefix[k] == e;
                    assert(da@[k] == da@[i as int]);
                }
            }
            let next_inter = next.to_set().intersect(b@.to_set());
            if b@.contains(e) {
                assert(next_inter =~= prefix_inter.insert(e));
                assert(!prefix_inter.contains(e));
                assert(next_inter.len() == prefix_inter.len() + 1);
            } else {
                assert(next_inter =~= prefix_inter);
            }
        }
        if hit {
            count += 1;
        }
        i += 1;
    }
    proof {
        assert(da@.subrange(0, da@.len() as int) =~= da@);
    }
    count
}

/// Evaluate one row pair: missing propagates; otherwise the exact Jaccard
/// intersection / union pair of the two cells' element sets.
pub fn row_similarity(a: &Option<Vec<Option<i64>>>, b: &Option<Vec<Option<i64>>>) -> (r: Option<
    Similarity,
>)
    ensures
        r == spec_row_similarity(a.deep_view(), b.deep_view()),
{
    match (a, b) {
        (Some(x), Some(y)) => {
            proof {
                assert(x.deep_view() =~= x@);
                assert(y.deep_view() =~= y@);
            }
            let da = dedup_elems(x);
            let db = dedup_elems(y);
            let inter = count_common(&da, y);
            proof {
                assert(da@.to_set().intersect(y@.to_set()) == elem_set(x@).intersect(
                    elem_set(y@),
                ));
            }
            let total: u128 = da.len() as u128 + db.len() as u128 - inter as u128;
            Some(Similarity { inter, total })
        },
        _ => None,
    }
}

/// The similarity column for two row-aligned list columns.
pub open spec fn spec_jaccard_column(
    a: Seq<Option<Seq<Option<i64>>>>,
    b: Seq<Option<Seq<Option<i64>>>>,
) -> Seq<Option<Similarity>>
    recommends
        a.len() == b.len(),
{
    Seq::new(a.len(), |i: int| spec_row_similarity(a[i], b[i]))
}

/// Evaluate two row-aligned list columns row by row. Each output row
/// depends on its input row alone, so any partition of the rows evaluates
/// to the matching partition of the output.
pub fn jaccard_column(a: &Vec<Option<Vec<Option<i64>>>>, b: &Vec<Option<Vec<Option<i64>>>>) -> (r:
    Vec<Option<Similarity>>)
    requires
        a@.len() == b@.len(),
    ensures
        r@ == spec_jaccard_column(a.deep_view(), b.deep_view()),
{
    let mut r: Vec<Option<Similarity>> = Vec::new();
    let n = a.len();
    for i in 0..n
        invariant
            n == a@.len(),
            a@.len() == b@.len(),
            r@.len() == i,
            forall|j: int|
                0 <= j < i ==> r@[j] == spec_row_similarity(
                    a.deep_view()[j],
                    b.deep_view()[j],
                ),
    {
        let s = row_similarity(&a[i], &b[i]);
        proof {
            assert(a.deep_view()[i as int] == a@[i as int].deep_view());
            assert(b.deep_view()[i as int] == b@[i as int].deep_view());
        }
        r.push(s);
    }
    proof {
        assert(r@ =~= spec_jaccard_column(a.deep_view(), b.deep_view()));
    }
    r
}

} // verus!
