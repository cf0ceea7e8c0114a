//! A benchmark session: setting up table `t`, filling it in batches, and
//! checkpointing. Every contract here speaks of the log of calls that the
//! connection in `engine` keeps, and of what that log commits to the table.

use crate::engine::{lemma_replay_push, replay, Call, Db, Event};
use crate::rows::{batches, payload_of, rows_from, Row};
use crate::sql::{
    begin_sql, checkpoint_sql, commit_sql, create_table_sql, create_table_statement,
    drop_table_sql, insert_sql, is_create_table, journal_mode_sql, journal_mode_statement,
    lemma_create_table_recognised, rollback_sql, synchronous_sql, synchronous_statement,
};
use rusqlite::Connection;
use vstd::prelude::*;

verus! {

/// Why a benchmark session stopped. Each variant but `TooManyRows` carries
/// the engine's error and names the step at which it came.
#[derive(Debug)]
pub enum BenchError {
    Open(rusqlite::Error),
    JournalMode(rusqlite::Error),
    Synchronous(rusqlite::Error),
    Schema(rusqlite::Error),
    Begin(rusqlite::Error),
    Insert(rusqlite::Error),
    Commit(rusqlite::Error),
    Checkpoint(rusqlite::Error),
    /// The run would number more rows than an `i64` identifier can hold.
    TooManyRows,
}

/// The calls that set up a run, in order.
pub open spec fn setup_calls(journal_mode: Seq<char>, synchronous: Seq<char>, options: Seq<
    char,
>) -> Seq<Call> {
    seq![
        Call::Query(journal_mode_sql(journal_mode)),
        Call::Exec(synchronous_sql(synchronous)),
        Call::Exec(drop_table_sql()),
        Call::Exec(create_table_sql(options)),
    ]
}

/// The given calls, each accepted by the engine.
pub open spec fn accepted(calls: Seq<Call>) -> Seq<Event> {
    calls.map_values(|c: Call| (c, true))
}

/// The accepted inserts of the rows `start` to `start + count - 1`.
pub open spec fn insert_events(start: nat, count: nat, name: Seq<char>) -> Seq<Event> {
    Seq::new(count, |k: int| (Call::Insert(insert_sql(), start + k, name), true))
}

/// One batch that the engine accepted throughout: begin, the inserts of the
/// rows `start` to `start + size - 1`, commit.
pub open spec fn batch_events(start: nat, size: nat, name: Seq<char>) -> Seq<Event> {
    seq![(Call::Exec(begin_sql()), true)] + insert_events(start, size, name) + seq![
        (Call::Exec(commit_sql()), true),
    ]
}

/// `count` batches of `size` rows that the engine accepted throughout,
/// numbered on from `start`.
pub open spec fn run_events(start: nat, size: nat, count: nat, name: Seq<char>) -> Seq<Event>
    decreases count,
{
    if count == 0 {
        Seq::empty()
    } else {
        batch_events(start, size, name) + run_events(start + size, size, (count - 1) as nat, name)
    }
}

proof fn lemma_run_events_step(start: nat, size: nat, done: nat, name: Seq<char>)
    ensures
        run_events(start, size, done + 1, name) == run_events(start, size, done, name)
            + batch_events(start + size * done, size, name),
    decreases done,
{
    if done == 0 {
        assert(size * done == 0) by (nonlinear_arith)
            requires
                done == 0,
        ;
        assert(run_events(start, size, 0, name) == Seq::<Event>::empty());
        assert(run_events(start + size, size, 0, name) =~= Seq::<Event>::empty());
        assert(run_events(start, size, 1, name) =~= batch_events(start, size, name));
        assert(Seq::<Event>::empty() + batch_events(start, size, name) =~= batch_events(
            start,
            size,
            name,
        ));
    } else {
        let k = (done - 1) as nat;
        lemma_run_events_step(start + size, size, k, name);
        assert(start + size + size * k == start + size * done) by (nonlinear_arith)
            requires
                k == done - 1,
        ;
        let b = batch_events(start, size, name);
        let last = batch_events(start + size * done, size, name);
        assert(run_events(start, size, done + 1, name) == b + run_events(start + size, size, done, name));
        assert(run_events(start, size, done, name) == b + run_events(start + size, size, k, name));
        assert(run_events(start + size, size, done, name) == run_events(start + size, size, k, name) + last);
        assert(b + (run_events(start + size, size, k, name) + last) =~= (b + run_events(
            start + size,
            size,
            k,
            name,
        )) + last);
    }
}

/// Batch `done` of a run starts at identifier `size * done` and extends the
/// rows of the batches before it.
proof fn lemma_batches_step(size: nat, done: nat, name: Seq<char>)
    ensures
        batches(0, size, done + 1, name) == batches(0, size, done, name) + rows_from(
            size * done,
            size,
            name,
        ),
{
    crate::rows::law_batches_contiguous(size, done + 1, name);
    crate::rows::law_batches_contiguous(size, done, name);
    assert(size * (done + 1) == size * done + size) by (nonlinear_arith);
    assert(rows_from(0, size * done, name) + rows_from(size * done, size, name) =~= rows_from(
        0,
        size * done + size,
        name,
    ));
}

proof fn lemma_statements_distinct()
    ensures
        !is_create_table(begin_sql()),
        !is_create_table(commit_sql()),
        begin_sql() != drop_table_sql(),
        commit_sql() != drop_table_sql(),
        commit_sql() != begin_sql(),
{
    reveal_strlit("DROP TABLE IF EXISTS t");
    reveal_strlit("CREATE TABLE t (id, name TEXT) ");
    reveal_strlit("BEGIN DEFERRED");
    reveal_strlit("COMMIT");
    assert(begin_sql()[0] != drop_table_sql()[0]);
    assert(commit_sql()[0] != drop_table_sql()[0]);
    assert(commit_sql()[0] != begin_sql()[0]);
}

proof fn lemma_replay_inserts(log: Seq<Event>, start: nat, count: nat, name: Seq<char>)
    requires
        replay(log).in_tx,
    ensures
        replay(log + insert_events(start, count, name)).in_tx,
        replay(log + insert_events(start, count, name)).table == replay(log).table,
        replay(log + insert_events(start, count, name)).pending == replay(log).pending + rows_from(
            start,
            count,
            name,
        ),
    decreases count,
{
    if count == 0 {
        assert(log + insert_events(start, 0, name) =~= log);
        assert(replay(log).pending + rows_from(start, 0, name) =~= replay(log).pending);
    } else {
        let k = (count - 1) as nat;
        lemma_replay_inserts(log, start, k, name);
        let e = (Call::Insert(insert_sql(), (start + k) as int, name), true);
        assert(log + insert_events(start, count, name) =~= (log + insert_events(start, k, name)).push(
            e,
        ));
        lemma_replay_push(log + insert_events(start, k, name), e);
        assert(replay(log).pending + rows_from(start, count, name) =~= (replay(log).pending
            + rows_from(start, k, name)).push(((start + k) as int, name)));
    }
}

proof fn lemma_replay_batch(log: Seq<Event>, start: nat, size: nat, name: Seq<char>)
    requires
        replay(log).table is Some,
        !replay(log).in_tx,
    ensures
        replay(log + batch_events(start, size, name)).table == Some(
            replay(log).table->0 + rows_from(start, size, name),
        ),
        !replay(log + batch_events(start, size, name)).in_tx,
{
    lemma_statements_distinct();
    let b = (Call::Exec(begin_sql()), true);
    let c = (Call::Exec(commit_sql()), true);
    lemma_replay_push(log, b);
    lemma_replay_inserts(log.push(b), start, size, name);
    let mid = log.push(b) + insert_events(start, size, name);
    lemma_replay_push(mid, c);
    assert(log + batch_events(start, size, name) =~= mid.push(c));
    assert(Seq::<Row>::empty() + rows_from(start, size, name) =~= rows_from(start, size, name));
}

proof fn lemma_replay_run(log: Seq<Event>, start: nat, size: nat, count: nat, name: Seq<char>)
    requires
        replay(log).table is Some,
        !replay(log).in_tx,
    ensures
        replay(log + run_events(start, size, count, name)).table == Some(
            replay(log).table->0 + batches(start, size, count, name),
        ),
        !replay(log + run_events(start, size, count, name)).in_tx,
    decreases count,
{
    if count == 0 {
        assert(log + run_events(start, size, 0, name) =~= log);
        assert(replay(log).table->0 + batches(start, size, 0, name) =~= replay(log).table->0);
    } else {
        let k = (count - 1) as nat;
        lemma_replay_batch(log, start, size, name);
        let l1 = log + batch_events(start, size, name);
        lemma_replay_run(l1, start + size, size, k, name);
        assert(log + run_events(start, size, count, name) =~= l1 + run_events(
            start + size,
            size,
            k,
            name,
        ));
        assert(replay(log).table->0 + batches(start, size, count, name) =~= replay(log).table->0
            + rows_from(start, size, name) + batches(start + size, size, k, name));
    }
}

proof fn lemma_replay_setup(
    log: Seq<Event>,
    journal_mode: Seq<char>,
    synchronous: Seq<char>,
    options: Seq<char>,
)
    requires
        !replay(log).in_tx,
    ensures
        replay(log + accepted(setup_calls(journal_mode, synchronous, options))).table == Some(
            Seq::<Row>::empty(),
        ),
        !replay(log + accepted(setup_calls(journal_mode, synchronous, options))).in_tx,
{
    reveal_strlit("PRAGMA synchronous = ");
    reveal_strlit("DROP TABLE IF EXISTS t");
    reveal_strlit("CREATE TABLE t (id, name TEXT) ");
    reveal_strlit("BEGIN DEFERRED");
    reveal_strlit("COMMIT");
    reveal_strlit("ROLLBACK");
    lemma_create_table_recognised(options);
    let calls = setup_calls(journal_mode, synchronous, options);
    let sq = synchronous_sql(synchronous);
    assert(sq[0] == 'P');
    assert(!is_create_table(sq)) by {
        let prefix = create_table_sql(Seq::empty());
        if sq.len() >= prefix.len() {
            assert(sq.subrange(0, prefix.len() as int)[0] != prefix[0]);
        }
    }
    assert(sq != drop_table_sql());
    assert(sq != begin_sql());
    assert(sq != commit_sql());
    assert(sq != rollback_sql());
    let cq = create_table_sql(options);
    assert(cq[0] == 'C');
    assert(cq != drop_table_sql());
    let l1 = log.push((calls[0], true));
    let l2 = l1.push((calls[1], true));
    let l3 = l2.push((calls[2], true));
    let l4 = l3.push((calls[3], true));
    lemma_replay_push(log, (calls[0], true));
    lemma_replay_push(l1, (calls[1], true));
    lemma_replay_push(l2, (calls[2], true));
    lemma_replay_push(l3, (calls[3], true));
    assert(log + accepted(calls) =~= l4);
}

/// After a run that the engine accepted throughout (the setup, then
/// `count` batches of `size` rows with payload `name`), table `t` holds
/// exactly the rows `0` to `size * count - 1`, in order, each with payload
/// `name`, and no row of whatever the table held before.
pub proof fn law_run_table(
    before: Seq<Event>,
    journal_mode: Seq<char>,
    synchronous: Seq<char>,
    options: Seq<char>,
    size: nat,
    count: nat,
    name: Seq<char>,
)
    requires
        !replay(before).in_tx,
    ensures
        replay(
            before + accepted(setup_calls(journal_mode, synchronous, options)) + run_events(
                0,
                size,
                count,
                name,
            ),
        ).table == Some(rows_from(0, size * count, name)),
{
    let l = before + accepted(setup_calls(journal_mode, synchronous, options));
    lemma_replay_setup(before, journal_mode, synchronous, options);
    lemma_replay_run(l, 0, size, count, name);
    crate::rows::law_batches_contiguous(size, count, name);
    assert(Seq::<Row>::empty() + batches(0, size, count, name) =~= batches(0, size, count, name));
}

/// Two runs accepted throughout that write the same number of rows leave the
/// same table, however each is cut into batches.
pub proof fn law_run_partition_independent(
    before: Seq<Event>,
    journal_mode: Seq<char>,
    synchronous: Seq<char>,
    options: Seq<char>,
    size1: nat,
    count1: nat,
    size2: nat,
    count2: nat,
    name: Seq<char>,
)
    requires
        !replay(before).in_tx,
        size1 * count1 == size2 * count2,
    ensures
        replay(
            before + accepted(setup_calls(journal_mode, synchronous, options)) + run_events(
                0,
                size1,
                count1,
                name,
            ),
        ).table == replay(
            before + accepted(setup_calls(journal_mode, synchronous, options)) + run_events(
                0,
                size2,
                count2,
                name,
            ),
        ).table,
{
    law_run_table(before, journal_mode, synchronous, options, size1, count1, name);
    law_run_table(before, journal_mode, synchronous, options, size2, count2, name);
}

/// After a run accepted throughout with a row size of zero, every row of
/// table `t` has the empty payload.
pub proof fn law_run_empty_payload(
    before: Seq<Event>,
    journal_mode: Seq<char>,
    synchronous: Seq<char>,
    options: Seq<char>,
    size: nat,
    count: nat,
)
    requires
        !replay(before).in_tx,
    ensures
        ({
            let t = replay(
                before + accepted(setup_calls(journal_mode, synchronous, options)) + run_events(
                    0,
                    size,
                    count,
                    payload_of(0),
                ),
            ).table->0;
            &&& t.len() == size * count
            &&& forall|i: int| 0 <= i < t.len() ==> (#[trigger] t[i]).1 == Seq::<char>::empty()
        }),
{
    law_run_table(before, journal_mode, synchronous, options, size, count, payload_of(0));
    assert(payload_of(0) =~= Seq::<char>::empty());
}

/// One benchmark session on a database connection.
pub struct Bench {
    db: Db,
}

impl Bench {
    /// Every call handed to the engine in this session, with its outcome.
    pub closed spec fn log(&self) -> Seq<Event> {
        self.db.log()
    }

    /// The committed rows of table `t`, once the session has created it.
    pub open spec fn table(&self) -> Option<Seq<Row>> {
        replay(self.log()).table
    }

    /// Whether a transaction is open.
    pub open spec fn in_transaction(&self) -> bool {
        replay(self.log()).in_tx
    }

    /// Opens the database file at `path`.
    pub fn open(path: &std::path::Path) -> (r: Result<Bench, BenchError>)
        ensures
            r matches Ok(b) ==> b.log() == Seq::<Event>::empty() && b.table() is None
                && !b.in_transaction(),
            r is Err ==> r matches Err(BenchError::Open(_)),
    {
        match Db::open(path) {
            Ok(db) => Ok(Bench { db }),
            Err(e) => Err(BenchError::Open(e)),
        }
    }

    /// Sets the journal mode and the synchronous mode, both verbatim, then
    /// drops table `t` if it exists and creates it anew with `table_options`
    /// appended to its definition. Stops at the first call that fails.
    pub fn prepare(&mut self, journal_mode: &str, synchronous: &str, table_options: &str) -> (r:
        Result<(), BenchError>)
        requires
            !old(self).in_transaction(),
        ensures
            ({
                let s = old(self).log();
                let calls = setup_calls(journal_mode@, synchronous@, table_options@);
                &&& r is Ok ==> final(self).log() == s + accepted(calls)
                &&& r matches Err(BenchError::JournalMode(_)) ==> final(self).log() == s
                    + accepted(calls.take(0)).push((calls[0], false))
                &&& r matches Err(BenchError::Synchronous(_)) ==> final(self).log() == s
                    + accepted(calls.take(1)).push((calls[1], false))
                &&& r matches Err(BenchError::Schema(_)) ==> (final(self).log() == s + accepted(
                    calls.take(2),
                ).push((calls[2], false)) || final(self).log() == s + accepted(
                    calls.take(3),
                ).push((calls[3], false)))
                &&& r is Err ==> (r matches Err(BenchError::JournalMode(_)) || r matches Err(
                    BenchError::Synchronous(_),
                ) || r matches Err(BenchError::Schema(_)))
            }),
            r is Ok ==> final(self).table() == Some(Seq::<Row>::empty()),
            r matches Err(BenchError::JournalMode(_)) ==> final(self).table() == old(self).table(),
            r matches Err(BenchError::Synchronous(_)) ==> final(self).table() == old(self).table(),
            r is Err ==> final(self).table() == old(self).table() || final(self).table() is None,
            !final(self).in_transaction(),
    {
        let ghost s = self.db.log();
        let ghost calls = setup_calls(journal_mode@, synchronous@, table_options@);
        proof {
            reveal_strlit("PRAGMA synchronous = ");
            reveal_strlit("DROP TABLE IF EXISTS t");
            reveal_strlit("CREATE TABLE t (id, name TEXT) ");
            reveal_strlit("BEGIN DEFERRED");
            reveal_strlit("COMMIT");
            reveal_strlit("ROLLBACK");
            lemma_create_table_recognised(table_options@);
            assert(accepted(calls.take(0)) =~= Seq::<Event>::empty());
        }
        let journal = journal_mode_statement(journal_mode);
        let jr = self.db.query_discarding_row(journal.as_str());
        proof {
            lemma_replay_push(s, (calls[0], jr is Ok));
            assert(accepted(calls.take(1)) =~= seq![(calls[0], true)]);
        }
        if let Err(e) = jr {
            return Err(BenchError::JournalMode(e));
        }
        let s1 = Ghost(self.db.log());
        let sync = synchronous_statement(synchronous);
        let sr = self.db.execute(sync.as_str());
        proof {
            let sq = synchronous_sql(synchronous@);
            assert(sq[0] == 'P');
            assert(sq != drop_table_sql());
            assert(!is_create_table(sq)) by {
                let prefix = create_table_sql(Seq::empty());
                if sq.len() >= prefix.len() {
                    assert(sq.subrange(0, prefix.len() as int)[0] != prefix[0]);
                }
            }
            assert(sq != begin_sql());
            assert(sq != commit_sql());
            assert(sq != rollback_sql());
            lemma_replay_push(s1@, (calls[1], sr is Ok));
            assert(accepted(calls.take(2)) =~= seq![(calls[0], true), (calls[1], true)]);
        }
        if let Err(e) = sr {
            return Err(BenchError::Synchronous(e));
        }
        let s2 = Ghost(self.db.log());
        let drop_sql = "DROP TABLE IF EXISTS t";
        let dr = self.db.execute(drop_sql);
        proof {
            lemma_replay_push(s2@, (calls[2], dr is Ok));
            assert(accepted(calls.take(3)) =~= seq![
                (calls[0], true),
                (calls[1], true),
                (calls[2], true),
            ]);
        }
        if let Err(e) = dr {
            return Err(BenchError::Schema(e));
        }
        let s3 = Ghost(self.db.log());
        let create = create_table_statement(table_options);
        let cr = self.db.execute(create.as_str());
        proof {
            let cq = create_table_sql(table_options@);
            assert(cq[0] == 'C');
            assert(cq != drop_table_sql());
            lemma_replay_push(s3@, (calls[3], cr is Ok));
            assert(accepted(calls) =~= accepted(calls.take(3)).push((calls[3], true)));
        }
        if let Err(e) = cr {
            return Err(BenchError::Schema(e));
        }
        Ok(())
    }

    /// Inserts `batch_size` rows in one transaction: identifiers
    /// `*current_id` onwards, bound as integers, each with payload `name`.
    /// The counter advances by one for each insert that the engine accepts.
    /// At the first call that fails nothing more of the batch is handed to
    /// the engine: the transaction, if open, is rolled back and the error is
    /// returned.
    pub fn insert_batch(&mut self, batch_size: usize, name: &str, current_id: &mut i64) -> (r:
        Result<(), BenchError>)
        requires
            old(self).table() is Some,
            !old(self).in_transaction(),
            0 <= *old(current_id),
            *old(current_id) + batch_size <= i64::MAX,
        ensures
            ({
                let s = old(self).log();
                let l = final(self).log();
                let c0 = *old(current_id) as nat;
                let k = *final(current_id) - c0;
                let opened = s.push((Call::Exec(begin_sql()), true));
                &&& r is Ok ==> *final(current_id) == c0 + batch_size && l == s + batch_events(
                    c0,
                    batch_size as nat,
                    name@,
                ) && final(self).table() == Some(
                    old(self).table()->0 + rows_from(c0, batch_size as nat, name@),
                ) && !final(self).in_transaction()
                &&& r matches Err(BenchError::Begin(_)) ==> *final(current_id) == c0 && l == s.push(
                    (Call::Exec(begin_sql()), false),
                ) && !final(self).in_transaction()
                &&& r matches Err(BenchError::Insert(_)) ==> 0 <= k < batch_size && l.len() == s.len()
                    + k + 3 && l.drop_last() == (opened + insert_events(c0, k as nat, name@)).push(
                    (Call::Insert(insert_sql(), c0 + k, name@), false),
                ) && l.last().0 == Call::Exec(rollback_sql())
                &&& r matches Err(BenchError::Commit(_)) ==> k == batch_size && l.len() == s.len()
                    + batch_size + 3 && l.drop_last() == (opened + insert_events(
                    c0,
                    batch_size as nat,
                    name@,
                )).push((Call::Exec(commit_sql()), false)) && l.last().0 == Call::Exec(
                    rollback_sql(),
                )
                &&& r is Err ==> final(self).table() == old(self).table() && (r matches Err(
                    BenchError::Begin(_),
                ) || r matches Err(BenchError::Insert(_)) || r matches Err(BenchError::Commit(_)))
            }),
    {
        let ghost s = self.db.log();
        let ghost c0 = *current_id as nat;
        let ghost t0 = old(self).table()->0;
        let ghost nm = name@;
        proof {
            reveal_strlit("DROP TABLE IF EXISTS t");
            reveal_strlit("CREATE TABLE t (id, name TEXT) ");
            reveal_strlit("BEGIN DEFERRED");
            reveal_strlit("COMMIT");
            reveal_strlit("ROLLBACK");
            assert(!is_create_table(begin_sql()));
            assert(!is_create_table(commit_sql()));
            assert(!is_create_table(rollback_sql()));
            assert(begin_sql()[0] != drop_table_sql()[0]);
            assert(commit_sql()[0] != drop_table_sql()[0]);
            assert(rollback_sql()[0] != drop_table_sql()[0]);
            assert(commit_sql()[0] != begin_sql()[0]);
            assert(rollback_sql()[0] != begin_sql()[0]);
            assert(rollback_sql()[0] != commit_sql()[0]);
        }
        let br = self.db.execute("BEGIN DEFERRED");
        proof {
            lemma_replay_push(s, (Call::Exec(begin_sql()), br is Ok));
        }
        if let Err(e) = br {
            return Err(BenchError::Begin(e));
        }
        let ghost opened = self.db.log();
        let sql = "INSERT INTO t (id, name) VALUES (?1, ?2)";
        let mut i: usize = 0;
        proof {
            assert(opened + insert_events(c0, 0, nm) =~= opened);
        }
        while i < batch_size
            invariant
                i <= batch_size,
                *current_id == c0 + i,
                c0 == *old(current_id),
                c0 + batch_size <= i64::MAX,
                s == old(self).log(),
                old(self).table() == Some(t0),
                nm == name@,
                opened == s.push((Call::Exec(begin_sql()), true)),
                sql@ == insert_sql(),
                self.db.log() == opened + insert_events(c0, i as nat, nm),
                replay(self.db.log()).table == Some(t0),
                replay(self.db.log()).in_tx,
                replay(self.db.log()).pending == rows_from(c0, i as nat, nm),
                !is_create_table(rollback_sql()),
                rollback_sql() != drop_table_sql(),
                rollback_sql() != begin_sql(),
                rollback_sql() != commit_sql(),
            decreases batch_size - i,
        {
            let ghost before = self.db.log();
            let ir = self.db.execute_row(sql, *current_id, name);
            proof {
                lemma_replay_push(before, (Call::Insert(sql@, *current_id as int, nm), ir is Ok));
            }
            if let Err(e) = ir {
                let ghost failed = self.db.log();
                let _ = self.db.execute("ROLLBACK");
                proof {
                    lemma_replay_push(failed, self.db.log().last());
                    assert(self.db.log().drop_last() =~= failed);
                }
                return Err(BenchError::Insert(e));
            }
            proof {
                assert(self.db.log() =~= opened + insert_events(c0, (i + 1) as nat, nm));
                assert(rows_from(c0, i as nat, nm).push((c0 + i, nm)) =~= rows_from(
                    c0,
                    (i + 1) as nat,
                    nm,
                ));
            }
            *current_id = *current_id + 1;
            i = i + 1;
        }
        let ghost inserted = self.db.log();
        let cr = self.db.execute("COMMIT");
        proof {
            lemma_replay_push(inserted, (Call::Exec(commit_sql()), cr is Ok));
        }
        if let Err(e) = cr {
            let ghost failed = self.db.log();
            let _ = self.db.execute("ROLLBACK");
            proof {
                lemma_replay_push(failed, self.db.log().last());
                assert(self.db.log().drop_last() =~= failed);
            }
            return Err(BenchError::Commit(e));
        }
        proof {
            assert(self.db.log() =~= s + batch_events(c0, batch_size as nat, nm));
        }
        Ok(())
    }

    /// Runs `batch_count` batches of `batch_size` rows, numbering the rows
    /// from zero, and returns how many rows were inserted. Stops at the first
    /// batch that fails; the batches before it stay committed. Refuses, before
    /// any call, a run with more rows than an `i64` can number.
    pub fn insert_all(&mut self, batch_size: usize, batch_count: usize, name: &str) -> (r: Result<
        i64,
        BenchError,
    >)
        requires
            old(self).table() is Some,
            !old(self).in_transaction(),
        ensures
            batch_size * batch_count > i64::MAX <==> r matches Err(BenchError::TooManyRows),
            r matches Err(BenchError::TooManyRows) ==> final(self).log() == old(self).log(),
            r matches Ok(n) ==> n == batch_size * batch_count && final(self).log() == old(
                self,
            ).log() + run_events(0, batch_size as nat, batch_count as nat, name@)
                && final(self).table() == Some(
                old(self).table()->0 + batches(0, batch_size as nat, batch_count as nat, name@),
            ) && !final(self).in_transaction(),
            r is Err && !(r matches Err(BenchError::TooManyRows)) ==> (r matches Err(
                BenchError::Begin(_),
            ) || r matches Err(BenchError::Insert(_)) || r matches Err(BenchError::Commit(_))),
            r is Err && !(r matches Err(BenchError::TooManyRows)) ==> exists|done: nat|
                done < batch_count && final(self).log().len() > old(self).log().len()
                    + #[trigger] run_events(0, batch_size as nat, done, name@).len()
                    && final(self).log().subrange(
                    0,
                    (old(self).log().len() + run_events(0, batch_size as nat, done, name@).len()) as int,
                ) == old(self).log() + run_events(0, batch_size as nat, done, name@)
                    && final(self).table() == Some(
                    old(self).table()->0 + batches(0, batch_size as nat, done, name@),
                ),
    {
        proof {
            assert(batch_size * batch_count <= u64::MAX * u64::MAX) by (nonlinear_arith)
                requires
                    batch_size <= u64::MAX,
                    batch_count <= u64::MAX,
            ;
        }
        let total = (batch_size as u128) * (batch_count as u128);
        if total > i64::MAX as u128 {
            return Err(BenchError::TooManyRows);
        }
        let ghost s = self.log();
        let ghost t0 = self.table()->0;
        let ghost nm = name@;
        let mut current_id: i64 = 0;
        let mut done: usize = 0;
        proof {
            assert(t0 + batches(0, batch_size as nat, 0, nm) =~= t0);
            assert(s + run_events(0, batch_size as nat, 0, nm) =~= s);
        }
        while done < batch_count
            invariant
                done <= batch_count,
                batch_size * batch_count <= i64::MAX,
                current_id == batch_size * done,
                s == old(self).log(),
                old(self).table() == Some(t0),
                nm == name@,
                self.log() == s + run_events(0, batch_size as nat, done as nat, nm),
                self.table() == Some(t0 + batches(0, batch_size as nat, done as nat, nm)),
                !self.in_transaction(),
            decreases batch_count - done,
        {
            proof {
                assert(batch_size * done + batch_size <= batch_size * batch_count) by (nonlinear_arith)
                    requires
                        done < batch_count,
                ;
            }
            let ghost prev_log = self.log();
            let ghost prev = self.table()->0;
            let ghost id = current_id as nat;
            let br = self.insert_batch(batch_size, name, &mut current_id);
            proof {
                lemma_run_events_step(0, batch_size as nat, done as nat, nm);
                lemma_batches_step(batch_size as nat, done as nat, nm);
            }
            if let Err(e) = br {
                proof {
                    assert(self.log().subrange(0, prev_log.len() as int) =~= prev_log);
                }
                return Err(e);
            }
            proof {
                assert(self.log() =~= s + run_events(0, batch_size as nat, (done + 1) as nat, nm));
                assert(prev + rows_from(id, batch_size as nat, nm) =~= t0 + batches(
                    0,
                    batch_size as nat,
                    (done + 1) as nat,
                    nm,
                ));
                assert(batch_size * done + batch_size == batch_size * (done + 1)) by (nonlinear_arith);
            }
            done = done + 1;
        }
        Ok(current_id)
    }

    /// Moves any write-ahead log back into the database file and truncates
    /// the log; under other journal modes the engine does nothing.
    pub fn checkpoint(&mut self) -> (r: Result<(), BenchError>)
        ensures
            final(self).log() == old(self).log().push((Call::Query(checkpoint_sql()), r is Ok)),
            final(self).table() == old(self).table(),
            final(self).in_transaction() == old(self).in_transaction(),
            r is Err ==> r matches Err(BenchError::Checkpoint(_)),
    {
        let ghost s = self.db.log();
        let cr = self.db.query_discarding_row("PRAGMA wal_checkpoint(TRUNCATE)");
        proof {
            lemma_replay_push(s, (Call::Query(checkpoint_sql()), cr is Ok));
        }
        match cr {
            Ok(()) => Ok(()),
            Err(e) => Err(BenchError::Checkpoint(e)),
        }
    }

    /// Ends the session and hands back its connection, for reading the
    /// table.
    pub fn into_connection(self) -> (r: Connection) {
        self.db.into_connection()
    }
}

} // verus!
