use rusqlite::Connection;
use sqlite_bench::bench::{Bench, BenchError};
use sqlite_bench::rows::payload;
use std::path::Path;
use sqlite_bench::sql::{create_table_statement, journal_mode_statement, synchronous_statement};

fn prepared() -> Bench {
    let mut b = Bench::open(Path::new(":memory:")).unwrap();
    b.prepare("delete", "full", "").unwrap();
    b
}

fn table_rows(conn: &Connection) -> Vec<(i64, String)> {
    let mut stmt = conn.prepare("SELECT id, name FROM t ORDER BY rowid").unwrap();
    let rows = stmt
        .query_map([], |row| Ok((row.get::<_, i64>(0)?, row.get::<_, String>(1)?)))
        .unwrap();
    rows.map(|r| r.unwrap()).collect()
}

fn expected_rows(n: usize, name: &str) -> Vec<(i64, String)> {
    (0..n).map(|i| (i as i64, name.to_string())).collect()
}

#[test]
fn payload_repeats_x() {
    assert_eq!(payload(0), "");
    assert_eq!(payload(1), "x");
    assert_eq!(payload(5), "xxxxx");
    assert_eq!(payload(100).len(), 100);
    assert!(payload(100).chars().all(|c| c == 'x'));
}

#[test]
fn statements_take_settings_verbatim() {
    assert_eq!(journal_mode_statement("wal"), "PRAGMA journal_mode = wal");
    assert_eq!(synchronous_statement("normal"), "PRAGMA synchronous = normal");
    assert_eq!(create_table_statement(""), "CREATE TABLE t (id, name TEXT) ");
    assert_eq!(
        create_table_statement("STRICT"),
        "CREATE TABLE t (id, name TEXT) STRICT"
    );
}

#[test]
fn run_writes_contiguous_rows() {
    let mut b = prepared();
    let name = payload(3);
    assert_eq!(b.insert_all(7, 3, &name).unwrap(), 21);
    b.checkpoint().unwrap();
    let conn = b.into_connection();
    assert_eq!(table_rows(&conn), expected_rows(21, "xxx"));
}

#[test]
fn insert_batch_advances_counter() {
    let mut b = prepared();
    let mut id: i64 = 5;
    b.insert_batch(4, "ab", &mut id).unwrap();
    assert_eq!(id, 9);
    b.insert_batch(0, "ab", &mut id).unwrap();
    assert_eq!(id, 9);
    let conn = b.into_connection();
    let ids: Vec<i64> = table_rows(&conn).into_iter().map(|r| r.0).collect();
    assert_eq!(ids, vec![5, 6, 7, 8]);
}

#[test]
fn partition_does_not_change_rows() {
    let name = payload(2);
    let mut small = prepared();
    assert_eq!(small.insert_all(10, 100, &name).unwrap(), 1000);
    let mut large = prepared();
    assert_eq!(large.insert_all(1000, 1, &name).unwrap(), 1000);
    let a = table_rows(&small.into_connection());
    let b = table_rows(&large.into_connection());
    assert_eq!(a, b);
    assert_eq!(a, expected_rows(1000, "xx"));
}

#[test]
fn zero_row_size_gives_empty_payloads() {
    let mut b = prepared();
    let name = payload(0);
    assert_eq!(b.insert_all(5, 2, &name).unwrap(), 10);
    let conn = b.into_connection();
    assert_eq!(table_rows(&conn), expected_rows(10, ""));
}

#[test]
fn zero_batches_insert_nothing() {
    let mut b = prepared();
    assert_eq!(b.insert_all(10, 0, "x").unwrap(), 0);
    assert_eq!(b.insert_all(0, 10, "x").unwrap(), 0);
    assert!(table_rows(&b.into_connection()).is_empty());
}

#[test]
fn prepare_replaces_earlier_rows() {
    let mut b = prepared();
    b.insert_all(3, 3, "old").unwrap();
    b.prepare("delete", "full", "").unwrap();
    b.insert_all(2, 1, "new").unwrap();
    let conn = b.into_connection();
    assert_eq!(table_rows(&conn), expected_rows(2, "new"));
}

#[test]
fn invalid_journal_mode_fails_before_table() {
    let mut b = Bench::open(Path::new(":memory:")).unwrap();
    let r = b.prepare("(", "full", "");
    assert!(matches!(r, Err(BenchError::JournalMode(_))));
    let conn = b.into_connection();
    assert!(conn.prepare("SELECT id FROM t").is_err());
}

#[test]
fn invalid_synchronous_mode_fails_before_table() {
    let mut b = Bench::open(Path::new(":memory:")).unwrap();
    let r = b.prepare("delete", "(", "");
    assert!(matches!(r, Err(BenchError::Synchronous(_))));
    let conn = b.into_connection();
    assert!(conn.prepare("SELECT id FROM t").is_err());
}

#[test]
fn bad_table_options_fail_schema() {
    let mut b = Bench::open(Path::new(":memory:")).unwrap();
    let r = b.prepare("delete", "full", "WITHOUT ROWID");
    assert!(matches!(r, Err(BenchError::Schema(_))));
}

#[test]
fn table_options_are_appended() {
    let mut b = Bench::open(Path::new(":memory:")).unwrap();
    b.prepare("delete", "full", "STRICT").unwrap_err();
    let mut b = Bench::open(Path::new(":memory:")).unwrap();
    b.prepare("memory", "off", ";").unwrap();
    b.insert_all(2, 2, "x").unwrap();
    assert_eq!(table_rows(&b.into_connection()), expected_rows(4, "x"));
}

#[test]
fn too_many_rows_is_refused() {
    let mut b = prepared();
    let r = b.insert_all(usize::MAX, 2, "x");
    assert!(matches!(r, Err(BenchError::TooManyRows)));
    let r = b.insert_all(1 << 32, 1 << 31, "x");
    assert!(matches!(r, Err(BenchError::TooManyRows)));
    assert!(table_rows(&b.into_connection()).is_empty());
}

#[test]
fn open_fails_on_missing_directory() {
    let r = Bench::open(Path::new("/nonexistent-directory/for/bench.db"));
    assert!(matches!(r, Err(BenchError::Open(_))));
}

#[test]
fn checkpoint_succeeds_after_run() {
    let mut b = Bench::open(Path::new(":memory:")).unwrap();
    b.prepare("wal", "normal", "").unwrap();
    b.insert_all(4, 4, "xy").unwrap();
    b.checkpoint().unwrap();
    assert_eq!(table_rows(&b.into_connection()).len(), 16);
}

#[test]
fn batch_from_five_stores_integer_ids() {
    let mut b = prepared();
    let mut id: i64 = 5;
    b.insert_batch(3, "xx", &mut id).unwrap();
    assert_eq!(id, 8);
    let conn = b.into_connection();
    assert_eq!(
        table_rows(&conn),
        vec![(5, "xx".to_string()), (6, "xx".to_string()), (7, "xx".to_string())]
    );
    let kind: String = conn
        .query_row("SELECT typeof(id) FROM t LIMIT 1", [], |row| row.get(0))
        .unwrap();
    assert_eq!(kind, "integer");
}
