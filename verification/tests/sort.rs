use volas::frame::{Column, Frame, Index, IndexKind};
use volas::sort::{argsort, text_lt};
use volas::time_frame::Tz;

#[test]
fn text_order_is_by_character_code() {
    assert!(text_lt("abc", "abd"));
    assert!(text_lt("ab", "abc"));
    assert!(!text_lt("abc", "ab"));
    assert!(!text_lt("x", "x"));
    assert!(text_lt("Z", "a"));
    assert!(text_lt("", "a"));
    assert!(text_lt("é", "ü"));
}

#[test]
fn argsort_is_stable_both_ways() {
    let ints = Index { kind: IndexKind::Int64(vec![3, 1, 3, 2, 1]), name: None };
    assert_eq!(argsort(&ints, true), vec![1, 4, 3, 0, 2]);
    assert_eq!(argsort(&ints, false), vec![0, 2, 3, 1, 4]);
    let strs = Index { kind: IndexKind::Str(vec!["b".into(), "a".into(), "b".into(), "ab".into()]), name: None };
    assert_eq!(argsort(&strs, true), vec![1, 3, 0, 2]);
    assert_eq!(argsort(&strs, false), vec![0, 2, 3, 1]);
    let range = Index { kind: IndexKind::Range(3), name: None };
    assert_eq!(argsort(&range, true), vec![0, 1, 2]);
    assert_eq!(argsort(&range, false), vec![2, 1, 0]);
    assert_eq!(argsort(&Index { kind: IndexKind::Range(0), name: None }, true), Vec::<usize>::new());
}

#[test]
fn sort_index_reorders_rows() {
    let f = Frame::new(
        vec!["v".into()],
        vec![Column::I64(vec![10, 20, 30])],
        Some(Index::datetime(vec![300, 100, 200], Tz::Utc)),
    )
    .unwrap();
    let g = f.sort_index(true);
    assert!(matches!(&g.index().kind, IndexKind::Datetime(v, Tz::Utc) if *v == vec![100, 200, 300]));
    assert!(matches!(&g.columns()[0], Column::I64(v) if *v == vec![20, 30, 10]));
    let h = f.sort_index(false);
    assert!(matches!(&h.columns()[0], Column::I64(v) if *v == vec![10, 30, 20]));
}
