use korrekt::Analyzable;
use korrekt::AnalyticLayouter;
use korrekt::CellValue;
use korrekt::ColumnKind;
use korrekt::TraceColumn;
use korrekt::TraceError;

fn advice(index: usize) -> TraceColumn {
    TraceColumn { kind: ColumnKind::Advice, index }
}

fn fixed(index: usize) -> TraceColumn {
    TraceColumn { kind: ColumnKind::Fixed, index }
}

#[test]
fn one_region_selector_and_advice_at_row_two() {
    // k = 4 gives n = 16; 5 blinding factors leave rows [0, 10) usable.
    let mut t: Analyzable<u64> = Analyzable::new(4, 0, 1, 5, 8).unwrap();
    assert_eq!(t.n, 16);
    assert_eq!(t.usable_rows, 10);
    t.enter_region(String::from("demo"));
    t.enable_selector(0, 2).unwrap();
    t.assign_advice(0, 2).unwrap();
    t.exit_region();
    assert_eq!(t.regions.len(), 1);
    let r = &t.regions[0];
    assert_eq!(r.name, "demo");
    assert_eq!(r.ordinal, 0);
    assert_eq!(r.rows, Some((2, 2)));
    assert_eq!(r.enabled_selectors, vec![(0usize, vec![2usize])]);
    assert_eq!(r.cells, vec![(advice(0), 2usize, 1usize)]);
    assert_eq!(r.columns, vec![advice(0)]);
    assert!(t.selectors[0][2]);
}

#[test]
fn advice_write_out_of_range_fails_and_records_nothing() {
    let mut t: Analyzable<u64> = Analyzable::new(4, 0, 0, 5, 8).unwrap();
    t.enter_region(String::from("edge"));
    let r = t.assign_advice(0, 10);
    assert_eq!(r, Err(TraceError::NotEnoughRows { k: 4 }));
    t.exit_region();
    assert!(t.regions[0].cells.is_empty());
    assert!(t.regions[0].columns.is_empty());
    assert_eq!(t.regions[0].rows, None);
}

#[test]
fn raw_fixed_write_out_of_range_fails_and_leaves_grid_untouched() {
    let mut t: Analyzable<u64> = Analyzable::new(4, 1, 0, 5, 8).unwrap();
    assert_eq!(t.usable_rows, 10);
    let r = t.assign_fixed(0, 10, Some(7));
    assert_eq!(r, Err(TraceError::NotEnoughRows { k: 4 }));
    for row in 0..t.n {
        assert_eq!(t.fixed[0][row], CellValue::Unassigned);
    }
    assert!(t.regions.is_empty());
}

#[test]
fn two_writes_to_one_cell_leave_multiplicity_two() {
    let mut t: Analyzable<u64> = Analyzable::new(4, 1, 0, 5, 8).unwrap();
    t.enter_region(String::from("twice"));
    t.assign_fixed(0, 1, Some(3)).unwrap();
    t.assign_fixed(0, 1, Some(4)).unwrap();
    t.exit_region();
    assert_eq!(t.regions[0].cells, vec![(fixed(0), 1usize, 2usize)]);
    assert_eq!(t.fixed[0][1], CellValue::Assigned(4));
}

#[test]
fn instance_binding_creates_one_string_keyed_entry() {
    let mut l = AnalyticLayouter::new();
    l.constrain_instance(0, 3, 0, 5);
    assert_eq!(
        l.eq_table,
        vec![(String::from("A-0-3"), String::from("A-0-5"))]
    );
}

#[test]
fn instance_binding_replaces_earlier_binding_of_same_cell() {
    let mut l = AnalyticLayouter::new();
    l.constrain_instance(0, 3, 0, 5);
    l.constrain_instance(1, 2, 0, 6);
    l.constrain_instance(0, 3, 2, 9);
    assert_eq!(
        l.eq_table,
        vec![
            (String::from("A-0-3"), String::from("A-2-9")),
            (String::from("A-1-2"), String::from("A-0-6")),
        ]
    );
}

#[test]
fn region_ordinals_are_dense_and_count_open_close_pairs() {
    let mut t: Analyzable<u64> = Analyzable::new(4, 0, 0, 5, 8).unwrap();
    t.enter_region(String::from("first"));
    t.exit_region();
    t.enter_region(String::from("second"));
    t.exit_region();
    assert_eq!(t.regions.len(), 2);
    assert_eq!(t.regions[0].ordinal, 0);
    assert_eq!(t.regions[1].ordinal, 1);
    assert_eq!(t.regions[0].name, "first");
    assert_eq!(t.regions[1].name, "second");
}

#[test]
fn copy_records_in_range_pairs_and_rejects_out_of_range_rows() {
    let mut t: Analyzable<u64> = Analyzable::new(4, 1, 0, 5, 8).unwrap();
    t.copy(advice(0), 1, fixed(0), 2).unwrap();
    assert_eq!(t.copies.len(), 1);
    assert_eq!(t.copies[0].0.column, advice(0));
    assert_eq!(t.copies[0].0.row, 1);
    assert_eq!(t.copies[0].1.column, fixed(0));
    assert_eq!(t.copies[0].1.row, 2);
    let r = t.copy(advice(0), 1, fixed(0), 10);
    assert_eq!(r, Err(TraceError::NotEnoughRows { k: 4 }));
    assert_eq!(t.copies.len(), 1);
    for (left, right) in &t.copies {
        assert!(left.row < t.usable_rows);
        assert!(right.row < t.usable_rows);
    }
}

fn synthesize_demo() -> Analyzable<u64> {
    let mut t: Analyzable<u64> = Analyzable::new(4, 1, 1, 5, 8).unwrap();
    t.enter_region(String::from("demo"));
    t.enable_selector(0, 2).unwrap();
    t.assign_advice(0, 2).unwrap();
    t.assign_fixed(0, 3, Some(11)).unwrap();
    t.exit_region();
    t.copy(advice(0), 2, fixed(0), 3).unwrap();
    t
}

#[test]
fn same_script_twice_gives_equal_traces() {
    let first = synthesize_demo();
    let second = synthesize_demo();
    assert_eq!(first, second);
}

#[test]
fn selector_compression_only_adds_fixed_columns() {
    let untouched = synthesize_demo();
    let mut compressed = synthesize_demo();
    compressed.compress_selectors(0, 1);
    assert_eq!(compressed.regions, untouched.regions);
    assert_eq!(compressed.selectors, untouched.selectors);
    assert_eq!(compressed.copies, untouched.copies);
    assert_eq!(compressed.fixed.len(), untouched.fixed.len() + 1);
    assert_eq!(compressed.fixed[0], untouched.fixed[0]);
    for row in 0..compressed.n {
        let expected = if untouched.selectors[0][row] { 1 } else { 0 };
        assert_eq!(compressed.fixed[1][row], CellValue::Assigned(expected));
    }
}

#[test]
fn fill_from_row_writes_to_the_end_of_the_usable_rows() {
    let mut t: Analyzable<u64> = Analyzable::new(4, 1, 0, 5, 8).unwrap();
    t.enter_region(String::from("fill"));
    t.fill_from_row(0, 7, Some(9)).unwrap();
    t.exit_region();
    for row in 0..t.n {
        if (7..10).contains(&row) {
            assert_eq!(t.fixed[0][row], CellValue::Assigned(9));
        } else {
            assert_eq!(t.fixed[0][row], CellValue::Unassigned);
        }
    }
    assert_eq!(t.regions[0].rows, Some((7, 9)));
    assert_eq!(
        t.regions[0].cells,
        vec![
            (fixed(0), 7usize, 1usize),
            (fixed(0), 8usize, 1usize),
            (fixed(0), 9usize, 1usize),
        ]
    );
    let r = t.fill_from_row(0, 10, Some(9));
    assert_eq!(r, Err(TraceError::NotEnoughRows { k: 4 }));
}

#[test]
fn too_small_k_is_rejected_before_synthesis() {
    let r: Result<Analyzable<u64>, TraceError> = Analyzable::new(2, 1, 1, 5, 8);
    assert_eq!(r, Err(TraceError::NotEnoughRows { k: 2 }));
}

#[test]
fn unknown_fixed_value_is_a_synthesis_error() {
    let mut t: Analyzable<u64> = Analyzable::new(4, 1, 0, 5, 8).unwrap();
    t.enter_region(String::from("unknown"));
    let r = t.assign_fixed(0, 1, None);
    assert_eq!(r, Err(TraceError::Synthesis));
    assert_eq!(t.fixed[0][1], CellValue::Unassigned);
    // The write is still recorded against the region, as a raw write is.
    t.exit_region();
    assert_eq!(t.regions[0].cells, vec![(fixed(0), 1usize, 1usize)]);
}

#[test]
fn out_of_grid_column_is_a_bounds_failure() {
    let mut t: Analyzable<u64> = Analyzable::new(4, 1, 0, 5, 8).unwrap();
    let r = t.assign_fixed(5, 1, Some(2));
    assert_eq!(r, Err(TraceError::BoundsFailure));
    assert_eq!(t.fixed[0][1], CellValue::Unassigned);
}

#[test]
fn selector_enable_out_of_range_fails_and_leaves_grid_untouched() {
    let mut t: Analyzable<u64> = Analyzable::new(4, 0, 1, 5, 8).unwrap();
    t.enter_region(String::from("edge"));
    let r = t.enable_selector(0, 10);
    assert_eq!(r, Err(TraceError::NotEnoughRows { k: 4 }));
    t.exit_region();
    assert!(t.regions[0].enabled_selectors.is_empty());
    for row in 0..t.n {
        assert!(!t.selectors[0][row]);
    }
}

#[test]
fn selector_rows_keep_enable_order() {
    let mut t: Analyzable<u64> = Analyzable::new(4, 0, 1, 5, 8).unwrap();
    t.enter_region(String::from("order"));
    t.enable_selector(0, 5).unwrap();
    t.enable_selector(0, 2).unwrap();
    t.enable_selector(0, 7).unwrap();
    t.exit_region();
    assert_eq!(t.regions[0].enabled_selectors, vec![(0usize, vec![5usize, 2, 7])]);
    assert!(t.selectors[0][2] && t.selectors[0][5] && t.selectors[0][7]);
    assert!(!t.selectors[0][3]);
}

#[test]
fn collector_archives_shapes_in_ordinal_order() {
    let mut l = AnalyticLayouter::new();
    let mut shape = l.begin_region(String::from("gadget"));
    assert_eq!(shape.ordinal, 0);
    shape.update_extent(advice(0), 4);
    shape.note_cell(advice(0), 4);
    l.commit_region(shape);
    let second = l.begin_region(String::from("next"));
    assert_eq!(second.ordinal, 1);
    l.commit_region(second);
    assert_eq!(l.regions.len(), 2);
    assert_eq!(l.regions[0].name, "gadget");
    assert_eq!(l.regions[0].rows, Some((4, 4)));
    assert_eq!(l.regions[0].cells, vec![(advice(0), 4usize, 1usize)]);
    assert_eq!(l.regions[1].ordinal, 1);
}
