use seat_booking::bool_matrix::BoolMatrix;

#[test]
fn test_new() {
    let mut bm: BoolMatrix = BoolMatrix::new(8, 8);
    assert_eq!(bm.data().len(), 8);
    assert!(!bm.get(0, 0));
    bm.set(0, 0, true);
    assert!(bm.get(0, 0));
}

#[test]
fn store_is_rounded_up_to_whole_bytes() {
    assert_eq!(BoolMatrix::new(3, 3).data().len(), 2);
    assert_eq!(BoolMatrix::new(1, 1).data().len(), 1);
    assert_eq!(BoolMatrix::new(4, 2).data().len(), 1);
    assert_eq!(BoolMatrix::new(3, 5).data().len(), 2);
    assert_eq!(BoolMatrix::new(1, 17).data().len(), 3);
}

#[test]
fn new_store_is_zeroed() {
    let bm = BoolMatrix::new(5, 7);
    assert_eq!(bm.width, 5);
    assert_eq!(bm.height, 7);
    assert_eq!(bm.data(), &vec![0u8; 5]);
    for y in 0..7 {
        for x in 0..5 {
            assert!(!bm.get(x, y));
        }
    }
}

#[test]
fn zero_dimensions_give_an_empty_store() {
    assert_eq!(BoolMatrix::new(0, 0).data().len(), 0);
    assert_eq!(BoolMatrix::new(0, 5).data().len(), 0);
    assert_eq!(BoolMatrix::new(5, 0).data().len(), 0);
}

#[test]
fn default_is_the_grid_without_cells() {
    let bm = BoolMatrix::default();
    assert_eq!(bm.width, 0);
    assert_eq!(bm.height, 0);
    assert_eq!(bm.data().len(), 0);
    assert_eq!(bm, BoolMatrix::new(0, 0));
}

#[test]
fn cell_is_kept_at_row_times_width_plus_column() {
    let mut bm = BoolMatrix::new(3, 3);
    bm.set(1, 2, true);
    assert_eq!(bm.data(), &vec![128u8, 0u8]);
    bm.set(2, 2, true);
    assert_eq!(bm.data(), &vec![128u8, 1u8]);
    bm.set(0, 0, true);
    assert_eq!(bm.data(), &vec![129u8, 1u8]);
    bm.set(0, 1, true);
    assert_eq!(bm.data(), &vec![137u8, 1u8]);
}

#[test]
fn set_changes_one_cell_only() {
    let mut bm = BoolMatrix::new(5, 4);
    bm.set(3, 2, true);
    for y in 0..4 {
        for x in 0..5 {
            assert_eq!(bm.get(x, y), x == 3 && y == 2);
        }
    }
    bm.set(4, 3, true);
    bm.set(3, 2, false);
    for y in 0..4 {
        for x in 0..5 {
            assert_eq!(bm.get(x, y), x == 4 && y == 3);
        }
    }
}

#[test]
fn set_twice_is_set_once() {
    let mut once = BoolMatrix::new(4, 4);
    once.set(2, 1, true);
    let mut twice = BoolMatrix::new(4, 4);
    twice.set(2, 1, true);
    twice.set(2, 1, true);
    assert_eq!(once, twice);
    twice.set(2, 1, false);
    twice.set(2, 1, false);
    assert_eq!(twice, BoolMatrix::new(4, 4));
}

#[test]
fn set_row_range_includes_both_ends() {
    let mut bm = BoolMatrix::new(4, 2);
    bm.set_row_range(1, 1, 2, true);
    assert_eq!(bm.data(), &vec![96u8]);
    for y in 0..2 {
        for x in 0..4 {
            assert_eq!(bm.get(x, y), y == 1 && (x == 1 || x == 2));
        }
    }
}

#[test]
fn set_row_range_of_one_column() {
    let mut bm = BoolMatrix::new(4, 2);
    bm.set_row_range(0, 3, 3, true);
    assert_eq!(bm.data(), &vec![8u8]);
}

#[test]
fn set_row_range_of_a_whole_row() {
    let mut bm = BoolMatrix::new(3, 3);
    bm.set_row_range(2, 0, 2, true);
    assert_eq!(bm.data(), &vec![192u8, 1u8]);
}

#[test]
fn set_row_range_can_clear() {
    let mut bm = BoolMatrix::new(4, 2);
    bm.set_row_range(1, 0, 3, true);
    bm.set_row_range(0, 0, 3, true);
    assert_eq!(bm.data(), &vec![255u8]);
    bm.set_row_range(1, 1, 2, false);
    assert_eq!(bm.data(), &vec![159u8]);
}

#[test]
fn column_holds_one_column() {
    let mut bm = BoolMatrix::new(3, 4);
    bm.set(1, 0, true);
    bm.set(1, 3, true);
    bm.set(2, 1, true);
    let column = bm.column(1);
    assert_eq!(column.width, 1);
    assert_eq!(column.height, 4);
    assert!(column.get(0, 0));
    assert!(!column.get(0, 1));
    assert!(!column.get(0, 2));
    assert!(column.get(0, 3));
    assert_eq!(column.data(), &vec![9u8]);
    let other = bm.column(2);
    assert_eq!(other.data(), &vec![2u8]);
    assert_eq!(bm.column(0), BoolMatrix::new(1, 4));
}

#[test]
fn row_holds_one_row() {
    let mut bm = BoolMatrix::new(3, 4);
    bm.set(0, 2, true);
    bm.set(2, 2, true);
    bm.set(1, 1, true);
    let row = bm.row(2);
    assert_eq!(row.width, 3);
    assert_eq!(row.height, 1);
    assert!(row.get(0, 0));
    assert!(!row.get(1, 0));
    assert!(row.get(2, 0));
    assert_eq!(row.data(), &vec![5u8]);
    assert_eq!(bm.row(1).data(), &vec![2u8]);
    assert_eq!(bm.row(0), BoolMatrix::new(3, 1));
}

#[test]
fn try_add_merges_disjoint_grids() {
    let mut one = BoolMatrix::new(3, 3);
    one.set_row_range(0, 0, 1, true);
    let mut two = BoolMatrix::new(3, 3);
    two.set_row_range(2, 1, 2, true);
    let sum = BoolMatrix::try_add(&one, &two).unwrap();
    assert_eq!(sum.width, 3);
    assert_eq!(sum.height, 3);
    assert_eq!(one.data(), &vec![3u8, 0u8]);
    assert_eq!(two.data(), &vec![128u8, 1u8]);
    assert_eq!(sum.data(), &vec![131u8, 1u8]);
    for y in 0..3 {
        for x in 0..3 {
            assert_eq!(sum.get(x, y), one.get(x, y) || two.get(x, y));
        }
    }
}

#[test]
fn try_add_with_an_empty_grid_changes_nothing() {
    let mut one = BoolMatrix::new(3, 3);
    one.set(1, 1, true);
    let empty = BoolMatrix::new(3, 3);
    assert_eq!(BoolMatrix::try_add(&one, &empty), Some(one.clone()));
    assert_eq!(BoolMatrix::try_add(&empty, &one), Some(one));
}

#[test]
fn try_add_fails_on_a_common_cell() {
    let mut one = BoolMatrix::new(3, 3);
    one.set_row_range(1, 0, 1, true);
    let mut two = BoolMatrix::new(3, 3);
    two.set_row_range(1, 1, 2, true);
    assert_eq!(BoolMatrix::try_add(&one, &two), None);
    assert_eq!(BoolMatrix::try_add(&two, &one), None);
    assert_eq!(BoolMatrix::try_add(&one, &one), None);
}

#[test]
fn try_add_fails_on_a_common_cell_in_the_last_byte() {
    let mut one = BoolMatrix::new(3, 3);
    one.set(2, 2, true);
    one.set(0, 0, true);
    let mut two = BoolMatrix::new(3, 3);
    two.set(2, 2, true);
    assert_eq!(BoolMatrix::try_add(&one, &two), None);
}

#[test]
fn try_add_fails_on_other_dimensions() {
    let one = BoolMatrix::new(3, 3);
    let two = BoolMatrix::new(3, 2);
    let three = BoolMatrix::new(2, 3);
    let four = BoolMatrix::new(1, 9);
    assert_eq!(BoolMatrix::try_add(&one, &two), None);
    assert_eq!(BoolMatrix::try_add(&one, &three), None);
    assert_eq!(BoolMatrix::try_add(&one, &four), None);
    assert!(BoolMatrix::try_add(&one, &one).is_some());
}

#[test]
fn has_colliding_bits_finds_a_common_cell() {
    let mut one = BoolMatrix::new(5, 4);
    one.set_row_range(3, 2, 4, true);
    let mut two = BoolMatrix::new(5, 4);
    two.set_row_range(3, 4, 4, true);
    assert!(one.has_colliding_bits(&two));
    assert!(two.has_colliding_bits(&one));
    assert!(one.has_colliding_bits(&one));
}

#[test]
fn has_colliding_bits_is_false_without_a_common_cell() {
    let mut one = BoolMatrix::new(5, 4);
    one.set_row_range(3, 2, 3, true);
    let mut two = BoolMatrix::new(5, 4);
    two.set_row_range(3, 4, 4, true);
    two.set_row_range(2, 2, 3, true);
    assert!(!one.has_colliding_bits(&two));
    assert!(!two.has_colliding_bits(&one));
    let empty = BoolMatrix::new(5, 4);
    assert!(!empty.has_colliding_bits(&empty));
    assert!(!one.has_colliding_bits(&empty));
}

#[test]
fn has_colliding_bits_agrees_with_try_add() {
    let mut one = BoolMatrix::new(4, 4);
    one.set_row_range(1, 0, 2, true);
    for from in 0..4 {
        for to in from..4 {
            for row in 0..4 {
                let mut two = BoolMatrix::new(4, 4);
                two.set_row_range(row, from, to, true);
                let colliding = one.has_colliding_bits(&two);
                assert_eq!(colliding, row == 1 && from <= 2);
                assert_eq!(BoolMatrix::try_add(&one, &two).is_none(), colliding);
            }
        }
    }
}
