use egglog_prelude::query::{QueryResult, Value};

#[test]
fn empty_result_has_no_matches() {
    let r = QueryResult::new(2);
    assert!(!r.any_matches());
    assert!(r.iter().is_empty());
    assert!(r.data().is_empty());
}

#[test]
fn matches_come_back_in_order() {
    let mut r = QueryResult::new(2);
    let x = Value::new(7);
    let y = Value::new(13);
    r.record_match(&[x, y]);
    r.record_match(&[Value::new(1), Value::new(2)]);
    assert!(r.any_matches());
    assert_eq!(r.data(), &[x, y, Value::new(1), Value::new(2)]);
    let rows = r.iter();
    assert_eq!(rows, vec![vec![x, y], vec![Value::new(1), Value::new(2)]]);
}

#[test]
fn single_variable_rows() {
    let mut r = QueryResult::new(1);
    r.record_match(&[Value::new(6765)]);
    assert_eq!(r.iter(), vec![vec![Value::new(6765)]]);
    assert_eq!(r.data()[0].rep(), 6765);
}

#[test]
fn no_variable_query_still_counts_matches() {
    let mut r = QueryResult::new(0);
    assert!(!r.any_matches());
    r.record_match(&[]);
    assert!(r.any_matches());
    assert!(r.data().is_empty());
}
