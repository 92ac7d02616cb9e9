use extend_polars::jaccard::{row_similarity, Similarity};

fn cell(items: &[i64]) -> Option<Vec<Option<i64>>> {
    Some(items.iter().map(|v| Some(*v)).collect())
}

fn as_f64(s: Similarity) -> f64 {
    s.inter as f64 / s.total as f64
}

#[test]
fn intersection_over_union() {
    // A = {1,2,3}, B = {2,3,4}: |A ∩ B| = 2, |A ∪ B| = 4.
    let r = row_similarity(&cell(&[1, 2, 3]), &cell(&[2, 3, 4]));
    assert_eq!(r, Some(Similarity { inter: 2, total: 4 }));
    assert_eq!(as_f64(r.unwrap()), 0.5);
}

#[test]
fn duplicates_within_a_list_collapse() {
    // A = {1,2}, B = {2}: |A ∩ B| = 1, |A ∪ B| = 2.
    let r = row_similarity(&cell(&[1, 1, 2, 2, 2]), &cell(&[2, 2]));
    assert_eq!(r, Some(Similarity { inter: 1, total: 2 }));
}

#[test]
fn missing_cell_gives_missing_similarity() {
    assert_eq!(row_similarity(&None, &cell(&[1])), None);
    assert_eq!(row_similarity(&cell(&[1]), &None), None);
    assert_eq!(row_similarity(&None, &None), None);
}

#[test]
fn missing_inner_element_is_a_set_member() {
    // A = {1, ⊥}, B = {⊥}: the missing entry is one more distinct member.
    let a = Some(vec![Some(1), None]);
    let b = Some(vec![None]);
    let r = row_similarity(&a, &b);
    assert_eq!(r, Some(Similarity { inter: 1, total: 2 }));
}

#[test]
fn similarity_is_symmetric() {
    let pairs: [(&[i64], &[i64]); 4] =
        [(&[1, 2, 3], &[2, 3, 4]), (&[], &[1]), (&[5], &[5]), (&[7, 8], &[9])];
    for (a, b) in pairs {
        assert_eq!(
            row_similarity(&cell(a), &cell(b)),
            row_similarity(&cell(b), &cell(a))
        );
    }
}

#[test]
fn self_similarity_of_nonempty_list_is_one() {
    let r = row_similarity(&cell(&[3, 1, 4, 1, 5]), &cell(&[3, 1, 4, 1, 5])).unwrap();
    assert_eq!(r.inter as u128, r.total);
    assert!(r.total > 0);
    assert_eq!(as_f64(r), 1.0);
}

#[test]
fn disjoint_nonempty_lists_have_zero_similarity() {
    let r = row_similarity(&cell(&[1, 2]), &cell(&[3, 4, 5])).unwrap();
    assert_eq!(r.inter, 0);
    assert!(r.total > 0);
    assert_eq!(as_f64(r), 0.0);
}

#[test]
fn two_empty_lists_give_a_non_finite_value_not_an_error() {
    let r = row_similarity(&cell(&[]), &cell(&[]));
    let s = r.expect("two empty lists are present cells, not missing ones");
    assert_eq!(s, Similarity { inter: 0, total: 0 });
    let v = as_f64(s);
    assert!(v.is_nan());
}
