use rusqlite::Connection;
use unihan::{render_blob, render_cell, render_row, CellValue, ErrorKind, InternalError, QueryCollector, MAX_ROWS};

#[test]
fn null_integer_text_row() {
    let row = vec![CellValue::Null, CellValue::Integer(42), CellValue::Text(b"x".to_vec())];
    assert_eq!(render_row(&row).unwrap(), vec!["NULL".to_string(), "42".to_string(), "x".to_string()]);
}

#[test]
fn integers_render_in_decimal() {
    assert_eq!(render_cell(&CellValue::Integer(0)).unwrap(), "0");
    assert_eq!(render_cell(&CellValue::Integer(-7)).unwrap(), "-7");
    assert_eq!(render_cell(&CellValue::Integer(1234567890)).unwrap(), "1234567890");
    assert_eq!(render_cell(&CellValue::Integer(i64::MAX)).unwrap(), i64::MAX.to_string());
    assert_eq!(render_cell(&CellValue::Integer(i64::MIN)).unwrap(), i64::MIN.to_string());
}

#[test]
fn reals_keep_their_text() {
    let t = format!("{}", 1.5f64);
    assert_eq!(render_cell(&CellValue::Real(t.clone())).unwrap(), t);
}

#[test]
fn blobs_render_like_byte_lists() {
    let b = vec![0u8, 7, 255];
    assert_eq!(render_blob(&b), format!("{:?}", b.as_slice()));
    assert_eq!(render_cell(&CellValue::Blob(b)).unwrap(), "[0, 7, 255]");
    assert_eq!(render_cell(&CellValue::Blob(Vec::new())).unwrap(), "[]");
}

#[test]
fn text_is_decoded_verbatim() {
    assert_eq!(render_cell(&CellValue::Text("一 tab\t".as_bytes().to_vec())).unwrap(), "一 tab\t");
}

#[test]
fn invalid_text_is_an_encoding_error() {
    let e = render_cell(&CellValue::Text(vec![0x66, 0xff])).unwrap_err();
    assert_eq!(e.kind, ErrorKind::Encoding);
    let e = render_row(&vec![CellValue::Null, CellValue::Text(vec![0xc3])]).unwrap_err();
    assert_eq!(e.kind, ErrorKind::Encoding);
}

fn collect(n: usize) -> Result<usize, InternalError> {
    let mut c = QueryCollector::new(vec!["n".to_string()]);
    for i in 0..n {
        c.push_row(&vec![CellValue::Integer(i as i64)])?;
    }
    let r = c.finish();
    assert_eq!(r.columns, vec!["n".to_string()]);
    Ok(r.rows.len())
}

#[test]
fn exactly_the_cap_succeeds() {
    assert_eq!(MAX_ROWS, 500);
    assert_eq!(collect(500).unwrap(), 500);
    assert_eq!(collect(0).unwrap(), 0);
}

#[test]
fn one_row_over_the_cap_fails() {
    let e = collect(501).unwrap_err();
    assert_eq!(e.kind, ErrorKind::Capacity);
    assert_eq!(e.message, "query result set too long");
}

#[test]
fn failed_row_leaves_rows_unchanged() {
    let mut c = QueryCollector::new(vec!["a".to_string(), "b".to_string()]);
    c.push_row(&vec![CellValue::Integer(1), CellValue::Null]).unwrap();
    assert!(c.push_row(&vec![CellValue::Integer(2), CellValue::Text(vec![0xff])]).is_err());
    assert_eq!(c.row_count(), 1);
    assert_eq!(c.column_count(), 2);
    let r = c.finish();
    assert_eq!(r.rows, vec![vec!["1".to_string(), "NULL".to_string()]]);
}

#[test]
fn missing_table_is_a_store_error() {
    let conn = Connection::open_in_memory().unwrap();
    let e = match conn.prepare("SELECT * FROM nowhere") {
        Ok(_) => panic!("the statement should not prepare"),
        Err(e) => InternalError::store(e.to_string()),
    };
    assert_eq!(e.kind, ErrorKind::Store);
    assert!(e.message.contains("no such table"));
    assert!(e.to_message().starts_with("(store) "));
}

#[test]
fn messages_name_the_kind() {
    let e = InternalError::new(ErrorKind::Capacity, "too long".to_string());
    assert_eq!(e.to_message(), "(capacity) too long");
}
