use std::io::{Cursor, Write};

use rusqlite::Connection;
use unihan::{ErrorKind, FieldRecord, IngestAction, Ingestion, InternalError, StoreOutcome, CREATE_TABLE_SQL, INSERT_SQL};

fn archive(members: &[(&str, &[u8])]) -> Vec<u8> {
    let mut w = zip::ZipWriter::new(Cursor::new(Vec::new()));
    for (name, content) in members {
        w.start_file(*name, zip::write::FileOptions::default()).unwrap();
        w.write_all(content).unwrap();
    }
    w.finish().unwrap().into_inner()
}

fn store_member(conn: &mut Connection, records: &[FieldRecord]) -> StoreOutcome {
    let tx = match conn.transaction() {
        Ok(tx) => tx,
        Err(e) => return StoreOutcome::Failed(e.to_string()),
    };
    for r in records {
        if let Err(e) = tx.execute(INSERT_SQL, (r.character, r.name.as_str(), r.value.as_str())) {
            return StoreOutcome::Failed(e.to_string());
        }
    }
    match tx.commit() {
        Ok(()) => StoreOutcome::Succeeded,
        Err(e) => StoreOutcome::Failed(e.to_string()),
    }
}

fn ingest(conn: &mut Connection, bytes: Vec<u8>) -> Result<(), InternalError> {
    let (mut run, mut action) = Ingestion::start(bytes);
    loop {
        let outcome = match action {
            IngestAction::CreateTable => match conn.execute(CREATE_TABLE_SQL, []) {
                Ok(_) => StoreOutcome::Succeeded,
                Err(e) => StoreOutcome::Failed(e.to_string()),
            },
            IngestAction::StoreMember(records) => store_member(conn, &records),
            IngestAction::Finish(r) => return r,
        };
        assert!(!run.is_finished());
        action = run.step(outcome);
    }
}

fn rows(conn: &Connection) -> Vec<(u32, String, String)> {
    let mut st = conn.prepare("SELECT character, name, value FROM field ORDER BY character, name").unwrap();
    let it = st.query_map([], |r| Ok((r.get(0)?, r.get(1)?, r.get(2)?))).unwrap();
    it.map(|r| r.unwrap()).collect()
}

#[test]
fn two_members_give_two_rows() {
    let mut conn = Connection::open_in_memory().unwrap();
    let bytes = archive(&[
        ("Unihan_Readings.txt", b"# readings\nU+4E00\tkMandarin\tyi\n"),
        ("Unihan_Variants.txt", b"U+4E01\tkTotalStrokes\t2\n"),
    ]);
    ingest(&mut conn, bytes).unwrap();
    assert_eq!(
        rows(&conn),
        vec![
            (0x4E00, "kMandarin".to_string(), "yi".to_string()),
            (0x4E01, "kTotalStrokes".to_string(), "2".to_string()),
        ]
    );
}

#[test]
fn bad_second_member_keeps_the_first() {
    let mut conn = Connection::open_in_memory().unwrap();
    let bytes = archive(&[
        ("a.txt", b"U+4E00\tkMandarin\tyi\n"),
        ("b.txt", b"U+4E01\tkTotalStrokes\t2\nU+ZZ\tkMandarin\tx\n"),
    ]);
    let e = ingest(&mut conn, bytes).unwrap_err();
    assert_eq!(e.kind, ErrorKind::Parse);
    assert_eq!(rows(&conn), vec![(0x4E00, "kMandarin".to_string(), "yi".to_string())]);
}

#[test]
fn second_import_hits_uniqueness() {
    let mut conn = Connection::open_in_memory().unwrap();
    let bytes = archive(&[("a.txt", b"U+4E00\tkMandarin\tyi\n")]);
    ingest(&mut conn, bytes.clone()).unwrap();
    let e = ingest(&mut conn, bytes).unwrap_err();
    assert_eq!(e.kind, ErrorKind::Store);
    assert!(e.message.contains("UNIQUE"), "{}", e.message);
    assert_eq!(rows(&conn).len(), 1);
}

#[test]
fn duplicate_key_within_a_member_stores_nothing_of_it() {
    let mut conn = Connection::open_in_memory().unwrap();
    let bytes = archive(&[
        ("a.txt", b"U+41\tkA\tx\n"),
        ("b.txt", b"U+42\tkB\tx\nU+42\tkB\ty\n"),
    ]);
    assert_eq!(ingest(&mut conn, bytes).unwrap_err().kind, ErrorKind::Store);
    assert_eq!(rows(&conn), vec![(0x41, "kA".to_string(), "x".to_string())]);
}

#[test]
fn not_an_archive_fails_before_the_store() {
    let (run, action) = Ingestion::start(b"plain text, not a zip".to_vec());
    assert!(run.is_finished());
    match action {
        IngestAction::Finish(Err(e)) => assert_eq!(e.kind, ErrorKind::Archive),
        other => panic!("unexpected action {:?}", other),
    }
}

#[test]
fn steps_follow_the_members() {
    let bytes = archive(&[("a.txt", b"U+41\tkA\tx\nU+42\tkB\ty\n"), ("empty.txt", b""), ("c.txt", b"U+43\tkC\tz\n")]);
    let (mut run, action) = Ingestion::start(bytes);
    assert!(matches!(action, IngestAction::CreateTable));
    let sizes: Vec<usize> = (0..3)
        .map(|_| match run.step(StoreOutcome::Succeeded) {
            IngestAction::StoreMember(r) => r.len(),
            other => panic!("unexpected action {:?}", other),
        })
        .collect();
    assert_eq!(sizes, vec![2, 0, 1]);
    assert!(matches!(run.step(StoreOutcome::Succeeded), IngestAction::Finish(Ok(()))));
    assert!(run.is_finished());
}

#[test]
fn store_failure_ends_the_run() {
    let bytes = archive(&[("a.txt", b"U+41\tkA\tx\n"), ("b.txt", b"U+42\tkB\ty\n")]);
    let (mut run, _) = Ingestion::start(bytes);
    assert!(matches!(run.step(StoreOutcome::Succeeded), IngestAction::StoreMember(_)));
    match run.step(StoreOutcome::Failed("disk I/O error".to_string())) {
        IngestAction::Finish(Err(e)) => {
            assert_eq!(e.kind, ErrorKind::Store);
            assert_eq!(e.message, "disk I/O error");
        }
        other => panic!("unexpected action {:?}", other),
    }
    assert!(run.is_finished());
}

#[test]
fn empty_archive_succeeds_after_creating_the_table() {
    let mut conn = Connection::open_in_memory().unwrap();
    ingest(&mut conn, archive(&[])).unwrap();
    assert!(rows(&conn).is_empty());
}
