use volas::error::VolasError;
use volas::select::{
    as_bool_mask, column_pos, iloc_col_axis, iloc_positions, iloc_row_axis, loc_col_axis, AxisSel,
    NameSel, PosSel,
};

fn names(v: &[&str]) -> Vec<String> {
    v.iter().map(|s| s.to_string()).collect()
}

fn many(r: Result<AxisSel, VolasError>) -> Vec<usize> {
    match r {
        Ok(AxisSel::Many(v)) => v,
        Ok(AxisSel::One(p)) => panic!("expected many, got one {p}"),
        Err(e) => panic!("expected many, got {e:?}"),
    }
}

#[test]
fn mask_picks_the_true_rows() {
    assert_eq!(as_bool_mask(&vec![true, false, true, true], 4), Some(vec![0, 2, 3]));
    assert_eq!(as_bool_mask(&vec![false, false], 2), Some(vec![]));
    assert_eq!(as_bool_mask(&vec![true, false], 3), None);
}

#[test]
fn iloc_positions_for_each_selector() {
    let mask = PosSel::Mask(vec![false, true, false, true, true]);
    assert_eq!(iloc_positions(&mask, 5).unwrap(), vec![1, 3, 4]);
    assert!(matches!(iloc_positions(&mask, 4), Err(VolasError::Type(_))));
    assert_eq!(iloc_positions(&PosSel::One(-1), 5).unwrap(), vec![4]);
    assert!(matches!(iloc_positions(&PosSel::One(5), 5), Err(VolasError::Index(_))));
    assert!(matches!(iloc_positions(&PosSel::One(-6), 5), Err(VolasError::Index(_))));
    // 1:5:2 and ::-2 on five rows, as Python resolves them
    assert_eq!(iloc_positions(&PosSel::Slice(1, 5, 2), 5).unwrap(), vec![1, 3]);
    assert_eq!(iloc_positions(&PosSel::Slice(4, -1, -2), 5).unwrap(), vec![4, 2, 0]);
    assert_eq!(iloc_positions(&PosSel::List(vec![0, -1, 2, 2]), 5).unwrap(), vec![0, 4, 2, 2]);
    assert!(matches!(iloc_positions(&PosSel::List(vec![0, 7]), 5), Err(VolasError::Index(_))));
}

#[test]
fn iloc_axes_reduce_on_a_single_position() {
    match iloc_row_axis(&PosSel::One(-2), 3).unwrap() {
        AxisSel::One(p) => assert_eq!(p, 1),
        AxisSel::Many(_) => panic!("a single position reduces the axis"),
    }
    assert_eq!(many(iloc_row_axis(&PosSel::List(vec![2]), 3)), vec![2]);
    assert_eq!(many(iloc_row_axis(&PosSel::Mask(vec![true, true, false]), 3)), vec![0, 1]);
    match iloc_col_axis(&PosSel::One(0), 2).unwrap() {
        AxisSel::One(p) => assert_eq!(p, 0),
        AxisSel::Many(_) => panic!("a single position reduces the axis"),
    }
    assert_eq!(many(iloc_col_axis(&PosSel::Slice(0, 2, 1), 2)), vec![0, 1]);
    assert_eq!(many(iloc_col_axis(&PosSel::List(vec![-1, 0]), 2)), vec![1, 0]);
    assert!(matches!(iloc_col_axis(&PosSel::Mask(vec![true, false]), 2), Err(VolasError::Type(_))));
    assert!(matches!(iloc_col_axis(&PosSel::One(2), 2), Err(VolasError::Index(_))));
}

#[test]
fn column_positions_by_name() {
    let cols = names(&["open", "high", "low", "close", "high"]);
    assert_eq!(column_pos(&cols, "low").unwrap(), 2);
    // a repeated name resolves to its first column
    assert_eq!(column_pos(&cols, "high").unwrap(), 1);
    assert!(matches!(column_pos(&cols, "volume"), Err(VolasError::Key(_))));
}

#[test]
fn loc_column_axis_by_name_list_and_slice() {
    let cols = names(&["open", "high", "low", "close"]);
    match loc_col_axis(&NameSel::One("close".to_string()), &cols).unwrap() {
        AxisSel::One(p) => assert_eq!(p, 3),
        AxisSel::Many(_) => panic!("a single name reduces the axis"),
    }
    let list = NameSel::List(names(&["close", "open"]));
    assert_eq!(many(loc_col_axis(&list, &cols)), vec![3, 0]);
    let missing = NameSel::List(names(&["close", "volume"]));
    assert!(matches!(loc_col_axis(&missing, &cols), Err(VolasError::Key(_))));
    // name slices include both ends; open ends run to the first / last column
    let mid = NameSel::Slice(Some("high".to_string()), Some("low".to_string()));
    assert_eq!(many(loc_col_axis(&mid, &cols)), vec![1, 2]);
    let tail = NameSel::Slice(Some("low".to_string()), None);
    assert_eq!(many(loc_col_axis(&tail, &cols)), vec![2, 3]);
    let head = NameSel::Slice(None, Some("high".to_string()));
    assert_eq!(many(loc_col_axis(&head, &cols)), vec![0, 1]);
    let backwards = NameSel::Slice(Some("close".to_string()), Some("open".to_string()));
    assert_eq!(many(loc_col_axis(&backwards, &cols)), Vec::<usize>::new());
    let bad = NameSel::Slice(Some("nope".to_string()), None);
    assert!(matches!(loc_col_axis(&bad, &cols), Err(VolasError::Key(_))));
}
