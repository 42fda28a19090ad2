//! A relational projection of the log: structured messages, parsed from log
//! records elsewhere, are inserted row by row into a persistent SQLite store
//! and can be looked up by message key or by content type. The store is
//! insert-only: a sequence or key seen before is refused, never updated, so
//! an already-indexed record must not be fed again.
//!
//! The store is modelled by the sequence of rows of its `message` table, in
//! insertion order, together with which tables exist behind the connection.

use vstd::prelude::*;

use crate::offset_log::Sequence;

verus! {

/// One modelled row of the `message` table, column by column: id (the log
/// sequence), key, seq (the message's own sequence), received_time,
/// asserted_time, root, branch, author, content_type, content (the content
/// object as JSON text).
pub type MessageRow = (
    int,
    Seq<char>,
    int,
    int,
    int,
    Option<Seq<char>>,
    Option<Seq<char>>,
    Seq<char>,
    Option<Seq<char>>,
    Seq<char>,
);

/// The rows of the `message` table behind a connection, in insertion order.
/// What a connection's database holds is not stated; the trusted operations
/// below say how each call changes or reads it.
pub uninterp spec fn view_rows(conn: rusqlite::Connection) -> Seq<MessageRow>;

/// Whether the table named `table` exists behind the connection. Like
/// `view_rows`, it is given meaning only by the trusted operations below.
pub uninterp spec fn table_exists(conn: rusqlite::Connection, table: Seq<char>) -> bool;

#[verifier::external_type_specification]
#[verifier::external_body]
pub struct ExConnection(rusqlite::Connection);

#[derive(Clone, Copy, Debug, PartialEq, Eq, Structural)]
pub enum FlumeViewError {
    /// No row matched the query.
    NotFound,
    /// The database could not be opened, changed or read.
    Sql,
}

/// A structured message, already parsed out of a log record's JSON payload:
/// the fields the projection stores. `content` carries the message's content
/// object verbatim as JSON text; `root`, `branch` and `content_type` are its
/// well-known keys, absent when the content object lacks them.
#[derive(Clone, Debug, PartialEq)]
pub struct SsbMessage {
    pub key: String,
    pub author: String,
    pub seq: u32,
    pub received_time: i64,
    pub asserted_time: i64,
    pub root: Option<String>,
    pub branch: Option<String>,
    pub content_type: Option<String>,
    pub content: String,
}

/// The view of an optional string.
pub open spec fn opt_string_view(o: Option<String>) -> Option<Seq<char>> {
    match o {
        Some(s) => Some(s@),
        None => None,
    }
}

/// The row that storing `msg` under row id `id` puts in the `message` table.
pub open spec fn row_of(id: int, msg: SsbMessage) -> MessageRow {
    (
        id,
        msg.key@,
        msg.seq as int,
        msg.received_time as int,
        msg.asserted_time as int,
        opt_string_view(msg.root),
        opt_string_view(msg.branch),
        msg.author@,
        opt_string_view(msg.content_type),
        msg.content@,
    )
}

/// The row ids of the rows carrying content type `t`, in insertion order.
pub open spec fn seqs_with_type(rows: Seq<MessageRow>, t: Seq<char>) -> Seq<int> {
    rows.filter(|row: MessageRow| row.8 == Some(t)).map_values(|row: MessageRow| row.0)
}

/// Some row carries key `key` under row id `id`.
pub open spec fn key_has_id(rows: Seq<MessageRow>, key: Seq<char>, id: int) -> bool {
    exists|i: int| 0 <= i < rows.len() && (#[trigger] rows[i]).0 == id && rows[i].1 == key
}

/// No row carries key `key`.
pub open spec fn key_absent(rows: Seq<MessageRow>, key: Seq<char>) -> bool {
    forall|i: int| 0 <= i < rows.len() ==> (#[trigger] rows[i]).1 != key
}

/// The ids come smallest first.
pub open spec fn ids_ascending(ids: Seq<i64>) -> bool {
    forall|i: int, j: int| 0 <= i < j < ids.len() ==> ids[i] <= ids[j]
}

/// Every table that existed behind `old_conn` still exists behind `new_conn`.
pub open spec fn tables_preserved(old_conn: rusqlite::Connection, new_conn: rusqlite::Connection) -> bool {
    forall|t: Seq<char>| table_exists(old_conn, t) ==> #[trigger] table_exists(new_conn, t)
}

/// Relies on rusqlite's `Connection::open`: opens (creating if absent) the
/// SQLite database at `path`. Nothing is stated about what is found there.
#[verifier::external_body]
fn open_connection(path: &str) -> (r: Result<rusqlite::Connection, FlumeViewError>)
{
    match rusqlite::Connection::open(path) {
        Ok(c) => Ok(c),
        Err(_) => Err(FlumeViewError::Sql),
    }
}

/// Relies on rusqlite's `Connection::execute`: on success, `CREATE TABLE IF
/// NOT EXISTS` leaves the `message` table in place; it never drops a table,
/// and it touches no row of an existing `message` table.
#[verifier::external_body]
fn create_message_table(conn: &mut rusqlite::Connection) -> (r: Result<(), FlumeViewError>)
    ensures
        view_rows(*final(conn)) == view_rows(*old(conn)),
        tables_preserved(*old(conn), *final(conn)),
        r is Ok ==> table_exists(*final(conn), "message"@),
{
    let sql =
        "CREATE TABLE IF NOT EXISTS message (id INTEGER PRIMARY KEY, key TEXT UNIQUE, seq INTEGER, received_time TEXT, asserted_time TEXT, root TEXT, branch TEXT, author TEXT, content_type TEXT, content JSON)";
    conn.execute(sql, ()).map(|_| ()).map_err(|_| FlumeViewError::Sql)
}

/// Relies on rusqlite's `Connection::execute`: on success, `CREATE TABLE IF
/// NOT EXISTS` leaves the `links` table in place; it never drops a table, and
/// it touches no row of the `message` table.
#[verifier::external_body]
fn create_links_table(conn: &mut rusqlite::Connection) -> (r: Result<(), FlumeViewError>)
    ensures
        view_rows(*final(conn)) == view_rows(*old(conn)),
        tables_preserved(*old(conn), *final(conn)),
        r is Ok ==> table_exists(*final(conn), "links"@),
{
    let sql =
        "CREATE TABLE IF NOT EXISTS links (id INTEGER PRIMARY KEY, links_from INTEGER, links_to INTEGER)";
    conn.execute(sql, ()).map(|_| ()).map_err(|_| FlumeViewError::Sql)
}

/// Relies on rusqlite's `Connection::execute`: on success, `CREATE TABLE IF
/// NOT EXISTS` leaves the `heads` table in place; it never drops a table, and
/// it touches no row of the `message` table.
#[verifier::external_body]
fn create_heads_table(conn: &mut rusqlite::Connection) -> (r: Result<(), FlumeViewError>)
    ensures
        view_rows(*final(conn)) == view_rows(*old(conn)),
        tables_preserved(*old(conn), *final(conn)),
        r is Ok ==> table_exists(*final(conn), "heads"@),
{
    let sql =
        "CREATE TABLE IF NOT EXISTS heads (id INTEGER PRIMARY KEY, links_from INTEGER, links_to INTEGER)";
    conn.execute(sql, ()).map(|_| ()).map_err(|_| FlumeViewError::Sql)
}

/// Relies on rusqlite's `Connection::execute`: a single `INSERT` is atomic.
/// On success it adds exactly one row, every column bound from the message;
/// a failed insert (a duplicate id or key under the schema this library
/// creates, or any database error) adds no row.
#[verifier::external_body]
fn insert_message(conn: &mut rusqlite::Connection, id: i64, msg: &SsbMessage) -> (r: Result<
    (),
    FlumeViewError,
>)
    ensures
        r is Ok ==> view_rows(*final(conn)) == view_rows(*old(conn)).push(
            row_of(id as int, *msg),
        ),
        r is Err ==> view_rows(*final(conn)) == view_rows(*old(conn)),
{
    let sql =
        "INSERT INTO message (id, key, seq, received_time, asserted_time, root, branch, author, content_type, content) VALUES (?1, ?2, ?3, ?4, ?5, ?6, ?7, ?8, ?9, ?10)";
    let params = (
        &id, &msg.key, &msg.seq, &msg.received_time, &msg.asserted_time, &msg.root, &msg.branch,
        &msg.author, &msg.content_type, &msg.content,
    );
    conn.execute(sql, params).map(|_| ()).map_err(|_| FlumeViewError::Sql)
}

/// Relies on rusqlite's `Connection::query_row`: `SELECT ... WHERE key=?1`
/// hands back the id of a row whose key matches, and reports
/// `QueryReturnedNoRows` exactly when no row matches.
#[verifier::external_body]
fn query_seq_by_key(conn: &rusqlite::Connection, key: &str) -> (r: Result<i64, FlumeViewError>)
    ensures
        r matches Ok(id) ==> key_has_id(view_rows(*conn), key@, id as int),
        (r matches Err(e) && e == FlumeViewError::NotFound) ==> key_absent(view_rows(*conn), key@),
{
    let r = conn.query_row("SELECT id FROM message WHERE key=?1", (key,), |row| row.get(0));
    match r {
        Ok(id) => Ok(id),
        Err(rusqlite::Error::QueryReturnedNoRows) => Err(FlumeViewError::NotFound),
        Err(_) => Err(FlumeViewError::Sql),
    }
}

/// Relies on rusqlite's `Statement::query_map` over `SELECT ... WHERE
/// content_type=?1 ORDER BY id`: the scan hands back the ids of exactly the
/// rows whose content type matches, each as often as it occurs, smallest id
/// first as `ORDER BY id` demands.
#[verifier::external_body]
fn query_seqs_by_type(conn: &rusqlite::Connection, content_type: &str) -> (r: Result<
    Vec<i64>,
    FlumeViewError,
>)
    ensures
        r matches Ok(v) ==> v@.map_values(|x: i64| x as int).to_multiset() == seqs_with_type(
            view_rows(*conn),
            content_type@,
        ).to_multiset(),
        r matches Ok(v) ==> ids_ascending(v@),
{
    let mut stmt = conn
        .prepare("SELECT id FROM message WHERE content_type=?1 ORDER BY id")
        .map_err(|_| FlumeViewError::Sql)?;
    let rows = stmt
        .query_map((content_type,), |row| row.get(0))
        .map_err(|_| FlumeViewError::Sql)?;
    let collected: Result<Vec<i64>, rusqlite::Error> = rows.collect();
    collected.map_err(|_| FlumeViewError::Sql)
}

/// Makes sure the projection's three tables exist: on success `message`,
/// `links` and `heads` are all in place. The rows already in the `message`
/// table stay as they are, and no existing table is lost, so calling this
/// again changes nothing.
fn create_tables(conn: &mut rusqlite::Connection) -> (r: Result<(), FlumeViewError>)
    ensures
        view_rows(*final(conn)) == view_rows(*old(conn)),
        tables_preserved(*old(conn), *final(conn)),
        r is Ok ==> table_exists(*final(conn), "message"@) && table_exists(
            *final(conn),
            "links"@,
        ) && table_exists(*final(conn), "heads"@),
{
    match create_message_table(conn) {
        Ok(()) => (),
        Err(e) => {
            return Err(e);
        },
    }
    match create_links_table(conn) {
        Ok(()) => (),
        Err(e) => {
            return Err(e);
        },
    }
    create_heads_table(conn)
}

/// The SQLite-backed projection: a connection to the store plus the latest
/// log sequence handed to it.
pub struct FlumeViewSql {
    pub connection: rusqlite::Connection,
    pub latest: Sequence,
}

impl FlumeViewSql {
    /// Opens (creating if absent) the store at `path` and makes sure its
    /// three tables exist. Rows already in the store stay as they are.
    pub fn new(path: &str, latest: Sequence) -> (r: Result<FlumeViewSql, FlumeViewError>)
        ensures
            r matches Ok(v) ==> v.latest == latest && table_exists(v.connection, "message"@)
                && table_exists(v.connection, "links"@) && table_exists(v.connection, "heads"@),
    {
        let mut connection = match open_connection(path) {
            Ok(c) => c,
            Err(e) => {
                return Err(e);
            },
        };
        match create_tables(&mut connection) {
            Ok(()) => (),
            Err(e) => {
                return Err(e);
            },
        }
        Ok(FlumeViewSql { connection, latest })
    }

    /// Projects one log record, already parsed. A message inserts one row
    /// keyed by the log sequence, with every column taken from the message;
    /// an insert the store refuses (a sequence or key seen before, or a
    /// database error) leaves the table unchanged and is reported. A record
    /// whose payload did not parse as a message (`None`) is a successful
    /// no-op: the log stays authoritative, the index is best-effort.
    pub fn append(&mut self, seq: Sequence, message: Option<SsbMessage>) -> (r: Result<
        (),
        FlumeViewError,
    >)
        requires
            message is Some ==> seq <= i64::MAX,
        ensures
            final(self).latest == old(self).latest,
            message is None ==> (r is Ok && view_rows(final(self).connection) == view_rows(
                old(self).connection,
            )),
            message matches Some(m) ==> ((r is Ok ==> view_rows(final(self).connection)
                == view_rows(old(self).connection).push(row_of(seq as int, m))) && (r is Err
                ==> view_rows(final(self).connection) == view_rows(old(self).connection))),
    {
        match message {
            Some(m) => {
                let signed_seq = seq as i64;
                insert_message(&mut self.connection, signed_seq, &m)
            },
            None => Ok(()),
        }
    }

    /// Looks up the log sequence of the message with `key`: an id the store
    /// holds for that key, or `NotFound` exactly when the store holds none.
    pub fn get_seq_by_key(&mut self, key: String) -> (r: Result<i64, FlumeViewError>)
        ensures
            final(self).connection == old(self).connection,
            final(self).latest == old(self).latest,
            r matches Ok(id) ==> key_has_id(view_rows(old(self).connection), key@, id as int),
            r == Err::<i64, _>(FlumeViewError::NotFound) ==> key_absent(
                view_rows(old(self).connection),
                key@,
            ),
    {
        query_seq_by_key(&self.connection, key.as_str())
    }

    /// Looks up the log sequences of all messages with `content_type`: each
    /// matching row's id exactly once per matching row, smallest id first
    /// (the order the rows are stored in); no match is an empty list, not an
    /// error.
    pub fn get_seqs_by_type(&mut self, content_type: String) -> (r: Result<
        Vec<i64>,
        FlumeViewError,
    >)
        ensures
            final(self).connection == old(self).connection,
            final(self).latest == old(self).latest,
            r matches Ok(v) ==> v@.map_values(|x: i64| x as int).to_multiset() == seqs_with_type(
                view_rows(old(self).connection),
                content_type@,
            ).to_multiset(),
            r matches Ok(v) ==> ids_ascending(v@),
    {
        query_seqs_by_type(&self.connection, content_type.as_str())
    }

    /// The latest log sequence this view was handed at open time.
    pub fn latest(&self) -> (r: Sequence)
        ensures
            r == self.latest,
    {
        self.latest
    }
}

} // verus!
