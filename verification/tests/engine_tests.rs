use extend_polars::engine::parallel_jaccard;
use extend_polars::jaccard::Similarity;
use extend_polars::table::{Column, EngineError, NamedColumn, Table};

fn list_column(name: &str, cells: Vec<Option<Vec<Option<i64>>>>) -> NamedColumn {
    NamedColumn { name: name.to_string(), col: Column::Lists(cells) }
}

fn cell(items: &[i64]) -> Option<Vec<Option<i64>>> {
    Some(items.iter().map(|v| Some(*v)).collect())
}

fn example_table() -> Table {
    let a = vec![cell(&[1, 2, 3]), cell(&[4, 5]), cell(&[])];
    let b = vec![cell(&[2, 3, 4]), cell(&[4, 5]), cell(&[])];
    Table { height: 3, cols: vec![list_column("a", a), list_column("b", b)] }
}

fn ratios(t: &Table) -> Vec<Option<Similarity>> {
    assert_eq!(t.cols.len(), 1);
    assert_eq!(t.cols[0].name, "jaccard");
    match &t.cols[0].col {
        Column::Ratios(v) => v.clone(),
        _ => panic!("the output column is not a ratio column"),
    }
}

#[test]
fn well_formedness_is_decided_at_run_time() {
    let t = example_table();
    assert!(t.is_well_formed());
    let bad = Table { height: 2, cols: vec![list_column("short", vec![cell(&[1])])] };
    assert!(!bad.is_well_formed());
}

#[test]
fn find_returns_the_first_matching_column() {
    let t = example_table();
    assert_eq!(t.find(&"a".to_string()), Some(0));
    assert_eq!(t.find(&"b".to_string()), Some(1));
    assert_eq!(t.find(&"c".to_string()), None);
}

#[test]
fn end_to_end_jaccard_column() {
    let t = example_table();
    let out = parallel_jaccard(&t, "a", "b", 2).expect("both columns exist");
    assert_eq!(out.height, 3);
    let rs = ratios(&out);
    assert_eq!(rs.len(), 3);
    let values: Vec<f64> =
        rs.iter().map(|r| r.unwrap()).map(|s| s.inter as f64 / s.total as f64).collect();
    assert_eq!(values[0], 0.5);
    assert_eq!(values[1], 1.0);
    assert!(values[2].is_nan());
}

#[test]
fn partition_count_is_unobservable() {
    let t = example_table();
    let one = ratios(&parallel_jaccard(&t, "a", "b", 1).unwrap());
    let eight = ratios(&parallel_jaccard(&t, "a", "b", 8).unwrap());
    assert_eq!(one, eight);
}

#[test]
fn many_partitions_on_a_larger_table() {
    let a: Vec<_> = (0..100i64).map(|i| cell(&[i, i + 1, i + 2])).collect();
    let b: Vec<_> = (0..100i64).map(|i| cell(&[i + 1, i + 2, i + 3])).collect();
    let t = Table { height: 100, cols: vec![list_column("a", a), list_column("b", b)] };
    let three = ratios(&parallel_jaccard(&t, "a", "b", 3).unwrap());
    let seven = ratios(&parallel_jaccard(&t, "a", "b", 7).unwrap());
    assert_eq!(three.len(), 100);
    assert_eq!(three, seven);
    // {i, i+1, i+2} vs {i+1, i+2, i+3}: 2 common of 4 distinct.
    for s in three {
        assert_eq!(s, Some(Similarity { inter: 2, total: 4 }));
    }
}

#[test]
fn missing_rows_propagate_through_the_engine() {
    let a = vec![None, cell(&[1])];
    let b = vec![cell(&[1]), None];
    let t = Table { height: 2, cols: vec![list_column("a", a), list_column("b", b)] };
    let rs = ratios(&parallel_jaccard(&t, "a", "b", 2).unwrap());
    assert_eq!(rs, vec![None, None]);
}

#[test]
fn nonexistent_column_fails_with_column_not_found() {
    let t = example_table();
    let r = parallel_jaccard(&t, "nosuch", "b", 4);
    assert_eq!(r, Err(EngineError::ColumnNotFound("nosuch".to_string())));
    let r = parallel_jaccard(&t, "a", "missing", 4);
    assert_eq!(r, Err(EngineError::ColumnNotFound("missing".to_string())));
}

#[test]
fn non_list_column_fails_with_type_mismatch() {
    let ints = NamedColumn { name: "n".to_string(), col: Column::Ints(vec![Some(1), None, Some(3)]) };
    let a = vec![cell(&[1]), cell(&[2]), cell(&[3])];
    let t = Table { height: 3, cols: vec![ints, list_column("a", a)] };
    let r = parallel_jaccard(&t, "n", "a", 1);
    assert_eq!(r, Err(EngineError::TypeMismatch("n".to_string())));
    let r = parallel_jaccard(&t, "a", "n", 1);
    assert_eq!(r, Err(EngineError::TypeMismatch("n".to_string())));
}

#[test]
fn missing_column_is_reported_before_a_mistyped_one() {
    let ints = NamedColumn { name: "n".to_string(), col: Column::Ints(vec![Some(1)]) };
    let t = Table { height: 1, cols: vec![ints] };
    let r = parallel_jaccard(&t, "n", "gone", 1);
    assert_eq!(r, Err(EngineError::ColumnNotFound("gone".to_string())));
}

#[test]
fn empty_table_yields_empty_output() {
    let t = Table { height: 0, cols: vec![list_column("a", vec![]), list_column("b", vec![])] };
    let out = parallel_jaccard(&t, "a", "b", 8).unwrap();
    assert_eq!(out.height, 0);
    assert!(ratios(&out).is_empty());
}

#[test]
fn same_column_on_both_sides() {
    let a = vec![cell(&[1, 2]), cell(&[])];
    let t = Table { height: 2, cols: vec![list_column("a", a)] };
    let rs = ratios(&parallel_jaccard(&t, "a", "a", 2).unwrap());
    assert_eq!(rs[0], Some(Similarity { inter: 2, total: 2 }));
    assert_eq!(rs[1], Some(Similarity { inter: 0, total: 0 }));
}
