//! The statements that set up a benchmark run, built from its settings.

use vstd::prelude::*;
use vstd::string::*;

verus! {

/// The statement that sets the journal mode; `mode` goes in verbatim.
pub open spec fn journal_mode_sql(mode: Seq<char>) -> Seq<char> {
    "PRAGMA journal_mode = "@ + mode
}

/// The statement that sets the synchronous mode; `mode` goes in verbatim.
pub open spec fn synchronous_sql(mode: Seq<char>) -> Seq<char> {
    "PRAGMA synchronous = "@ + mode
}

/// The statement that removes the table left by an earlier run.
pub open spec fn drop_table_sql() -> Seq<char> {
    "DROP TABLE IF EXISTS t"@
}

/// The statement that creates the table; `options` is appended verbatim.
pub open spec fn create_table_sql(options: Seq<char>) -> Seq<char> {
    "CREATE TABLE t (id, name TEXT) "@ + options
}

/// The statement that inserts one row, with its identifier and payload as
/// parameters.
pub open spec fn insert_sql() -> Seq<char> {
    "INSERT INTO t (id, name) VALUES (?1, ?2)"@
}

/// The statement that opens a transaction, taking locks when first needed.
pub open spec fn begin_sql() -> Seq<char> {
    "BEGIN DEFERRED"@
}

/// The statement that commits the open transaction.
pub open spec fn commit_sql() -> Seq<char> {
    "COMMIT"@
}

/// The statement that abandons the open transaction.
pub open spec fn rollback_sql() -> Seq<char> {
    "ROLLBACK"@
}

/// Whether `sql` is a statement that creates table `t` anew.
pub open spec fn is_create_table(sql: Seq<char>) -> bool {
    let prefix = create_table_sql(Seq::empty());
    sql.len() >= prefix.len() && sql.subrange(0, prefix.len() as int) == prefix
}

/// The statement that moves a write-ahead log back into the database file.
pub open spec fn checkpoint_sql() -> Seq<char> {
    "PRAGMA wal_checkpoint(TRUNCATE)"@
}

/// Every statement built by `create_table_sql` is recognised as one.
pub proof fn lemma_create_table_recognised(options: Seq<char>)
    ensures
        is_create_table(create_table_sql(options)),
{
    let prefix = create_table_sql(Seq::empty());
    assert(prefix =~= "CREATE TABLE t (id, name TEXT) "@);
    assert(create_table_sql(options).subrange(0, prefix.len() as int) =~= prefix);
}

pub fn journal_mode_statement(mode: &str) -> (r: String)
    ensures
        r@ == journal_mode_sql(mode@),
{
    String::from_str("PRAGMA journal_mode = ").concat(mode)
}

pub fn synchronous_statement(mode: &str) -> (r: String)
    ensures
        r@ == synchronous_sql(mode@),
{
    String::from_str("PRAGMA synchronous = ").concat(mode)
}

pub fn create_table_statement(options: &str) -> (r: String)
    ensures
        r@ == create_table_sql(options@),
{
    String::from_str("CREATE TABLE t (id, name TEXT) ").concat(options)
}

} // verus!
