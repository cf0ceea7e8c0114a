//! A connection to the database, with a ghost log of every call handed to
//! the engine and whether the engine accepted it. Only the methods here,
//! each of which makes exactly one call, extend the log.
//!
//! What the engine has committed to table `t` is a function of that log:
//! `replay` reads it as SQLite runs these statements.

use crate::rows::Row;
use crate::sql::{begin_sql, commit_sql, drop_table_sql, insert_sql, is_create_table, rollback_sql};
use rusqlite::Connection;
use vstd::prelude::*;

verus! {

#[verifier::external_type_specification]
#[verifier::external_body]
pub struct ExConnection(rusqlite::Connection);

#[verifier::external_type_specification]
#[verifier::external_body]
pub struct ExError(rusqlite::Error);

#[verifier::external_type_specification]
#[verifier::external_body]
pub struct ExPath(std::path::Path);

/// A call handed to the engine.
pub enum Call {
    /// A statement run for the one row it yields, which is discarded.
    Query(Seq<char>),
    /// A statement run without parameters.
    Exec(Seq<char>),
    /// A statement run with an integer and a text parameter.
    Insert(Seq<char>, int, Seq<char>),
}

/// A call, and whether the engine accepted it.
pub type Event = (Call, bool);

/// What the log says of table `t`: `table` holds its committed rows once it
/// has been created (`None` before, or once it is dropped), and `pending`
/// the rows inserted in the open transaction, if `in_tx`.
pub struct TableState {
    pub table: Option<Seq<Row>>,
    pub pending: Seq<Row>,
    pub in_tx: bool,
}

pub open spec fn initial_state() -> TableState {
    TableState { table: None, pending: Seq::empty(), in_tx: false }
}

/// The effect of one call. A call that the engine refused changes nothing.
pub open spec fn step(s: TableState, e: Event) -> TableState {
    if !e.1 {
        s
    } else {
        match e.0 {
            Call::Query(_) => s,
            Call::Exec(sql) => {
                if sql == drop_table_sql() {
                    TableState { table: None, ..s }
                } else if is_create_table(sql) {
                    TableState { table: Some(Seq::empty()), ..s }
                } else if sql == begin_sql() {
                    TableState { pending: Seq::empty(), in_tx: true, ..s }
                } else if sql == commit_sql() && s.in_tx {
                    TableState {
                        table: match s.table {
                            Some(t) => Some(t + s.pending),
                            None => None,
                        },
                        pending: Seq::empty(),
                        in_tx: false,
                    }
                } else if sql == rollback_sql() {
                    TableState { pending: Seq::empty(), in_tx: false, ..s }
                } else {
                    s
                }
            },
            Call::Insert(sql, id, name) => {
                if sql == insert_sql() && s.in_tx {
                    TableState { pending: s.pending.push((id, name)), ..s }
                } else {
                    s
                }
            },
        }
    }
}

/// What a whole log says of table `t`.
pub open spec fn replay(log: Seq<Event>) -> TableState
    decreases log.len(),
{
    if log.len() == 0 {
        initial_state()
    } else {
        step(replay(log.drop_last()), log.last())
    }
}

pub proof fn lemma_replay_push(log: Seq<Event>, e: Event)
    ensures
        replay(log.push(e)) == step(replay(log), e),
{
    assert(log.push(e).drop_last() =~= log);
}

/// An open connection and the log of what was handed to it.
pub struct Db {
    conn: Connection,
    log: Ghost<Seq<Event>>,
}

impl Db {
    /// Every call handed to the engine on this connection, in order.
    pub closed spec fn log(&self) -> Seq<Event> {
        self.log@
    }

    /// Relies on rusqlite::Connection::open: opens, creating it if needed,
    /// the database file at `path`.
    #[verifier::external_body]
    pub fn open(path: &std::path::Path) -> (r: Result<Db, rusqlite::Error>)
        ensures
            r matches Ok(db) ==> db.log() == Seq::<Event>::empty(),
    {
        Connection::open(path).map(|conn| Db { conn, log: Ghost(Seq::empty()) })
    }

    /// Relies on rusqlite::Connection::query_row: runs `sql`, which must
    /// yield a row, and discards that row.
    #[verifier::external_body]
    pub fn query_discarding_row(&mut self, sql: &str) -> (r: Result<(), rusqlite::Error>)
        ensures
            final(self).log() == old(self).log().push((Call::Query(sql@), r is Ok)),
    {
        let r = self.conn.query_row(sql, [], |_| Ok(()));
        self.log = Ghost(self.log@.push((Call::Query(sql@), r.is_ok())));
        r
    }

    /// Relies on rusqlite::Connection::execute: runs `sql` without
    /// parameters.
    #[verifier::external_body]
    pub fn execute(&mut self, sql: &str) -> (r: Result<usize, rusqlite::Error>)
        ensures
            final(self).log() == old(self).log().push((Call::Exec(sql@), r is Ok)),
    {
        let r = self.conn.execute(sql, []);
        self.log = Ghost(self.log@.push((Call::Exec(sql@), r.is_ok())));
        r
    }

    /// Relies on rusqlite::Connection::execute: runs `sql` with `id` bound as
    /// an integer to `?1` and `name` as text to `?2`.
    #[verifier::external_body]
    pub fn execute_row(&mut self, sql: &str, id: i64, name: &str) -> (r: Result<
        usize,
        rusqlite::Error,
    >)
        ensures
            final(self).log() == old(self).log().push(
                (Call::Insert(sql@, id as int, name@), r is Ok),
            ),
    {
        let r = self.conn.execute(sql, (id, name));
        self.log = Ghost(self.log@.push((Call::Insert(sql@, id as int, name@), r.is_ok())));
        r
    }

    /// Ends the session and hands back the connection, for reading the
    /// table.
    pub fn into_connection(self) -> (r: Connection) {
        self.conn
    }
}

} // verus!
