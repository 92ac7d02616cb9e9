use extend_polars::partition::split_offsets;

fn check_cover(parts: &[(usize, usize)], len: usize, n: usize) {
    assert_eq!(parts.len(), n);
    assert_eq!(parts[0].0, 0);
    for i in 0..n - 1 {
        assert_eq!(parts[i].0 + parts[i].1, parts[i + 1].0);
    }
    let last = parts[n - 1];
    assert_eq!(last.0 + last.1, len);
}

#[test]
fn single_partition_covers_everything() {
    let parts = split_offsets(17, 1);
    assert_eq!(parts, vec![(0, 17)]);
    check_cover(&parts, 17, 1);
}

#[test]
fn remainder_goes_to_last_partition() {
    let parts = split_offsets(10, 3);
    assert_eq!(parts, vec![(0, 3), (3, 3), (6, 4)]);
    check_cover(&parts, 10, 3);
}

#[test]
fn even_split_has_equal_partitions() {
    let parts = split_offsets(12, 4);
    assert_eq!(parts, vec![(0, 3), (3, 3), (6, 3), (9, 3)]);
    check_cover(&parts, 12, 4);
}

#[test]
fn more_partitions_than_rows_gives_zero_length_partitions() {
    let parts = split_offsets(3, 8);
    assert_eq!(parts.len(), 8);
    for i in 0..7 {
        assert_eq!(parts[i], (0, 0));
    }
    assert_eq!(parts[7], (0, 3));
    check_cover(&parts, 3, 8);
}

#[test]
fn empty_table_still_partitions() {
    let parts = split_offsets(0, 4);
    assert_eq!(parts.len(), 4);
    for p in &parts {
        assert_eq!(*p, (0, 0));
    }
    check_cover(&parts, 0, 4);
}

#[test]
fn partitions_are_disjoint_and_cover_every_row() {
    for len in [0usize, 1, 5, 10, 100, 101] {
        for n in [1usize, 2, 3, 7, 8, 64] {
            let parts = split_offsets(len, n);
            check_cover(&parts, len, n);
            for row in 0..len {
                let holders = parts
                    .iter()
                    .filter(|(off, plen)| *off <= row && row < off + plen)
                    .count();
                assert_eq!(holders, 1, "row {row} held by {holders} partitions");
            }
        }
    }
}
