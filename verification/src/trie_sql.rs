use crate::bits;
use crate::bits::{decode_node, hash_at, node_hash_readable, node_starts_at, read_nodetype};
use crate::error::MarfError;
use crate::hash::{append_hash, bytes32_at, MarfTrieId, TrieHash};
use crate::node::{TrieNodeType, TriePtr, TRIE_NODE_ID_NODE256};
use rusqlite::types::Value;
use rusqlite::{Connection, OpenFlags, OptionalExtension, Transaction, TransactionBehavior};
use vstd::prelude::*;
use vstd::slice::slice_to_vec;

verus! {

/// A connection to a SQLite database. Nothing is known of what it holds.
#[verifier::external_type_specification]
#[verifier::external_body]
pub struct ExConnection(rusqlite::Connection);

/// A transaction on a connection: rolled back when dropped, unless
/// committed.
#[verifier::external_type_specification]
#[verifier::external_body]
pub struct ExTransaction<'conn>(rusqlite::Transaction<'conn>);

/// A failure reported by SQLite or by the layer that calls it.
#[verifier::external_type_specification]
#[verifier::external_body]
pub struct ExSqliteError(rusqlite::Error);

/// A value as SQLite holds it. Nothing is known of it here.
#[verifier::external_type_specification]
#[verifier::external_body]
pub struct ExSqliteValue(rusqlite::types::Value);

/// How a database is opened.
#[derive(Clone, Copy, Debug, PartialEq, Eq, Structural)]
pub enum OpenMode {
    /// For reading; the database must exist.
    ReadOnly,
    /// For reading and writing; the database must exist.
    ReadWrite,
    /// For reading and writing; the database is created if it is absent.
    ReadWriteCreate,
    /// For reading, with the mark that asks for creation.
    ReadOnlyCreate,
}

/// A value bound to a parameter of a statement.
#[derive(Debug, PartialEq, Eq)]
pub enum SqlParam {
    Integer(i64),
    Blob(Vec<u8>),
}

/// A value found in a column of a row. Of a floating-point value only
/// its kind is kept.
#[derive(Debug)]
pub enum SqlValue {
    Null,
    Integer(i64),
    Real,
    Text(String),
    Blob(Vec<u8>),
}

/// Longest serialized node, in bytes: a header, a path as long as the
/// trie is deep, and 256 pointers.
pub const MAX_NODE_SIZE: usize = 2626;

/// Calls `rusqlite::Connection::open_with_flags` with the flags that the
/// mode stands for. Trusted: nothing is claimed of the result.
#[verifier::external_body]
pub(crate) fn open_with_flags(path: &str, mode: OpenMode) -> (r: Result<
    Connection,
    rusqlite::Error,
>) {
    let flags = match mode {
        OpenMode::ReadOnly => OpenFlags::SQLITE_OPEN_READ_ONLY,
        OpenMode::ReadWrite => OpenFlags::SQLITE_OPEN_READ_WRITE,
        OpenMode::ReadWriteCreate => OpenFlags::SQLITE_OPEN_READ_WRITE
            | OpenFlags::SQLITE_OPEN_CREATE,
        OpenMode::ReadOnlyCreate => OpenFlags::SQLITE_OPEN_READ_ONLY
            | OpenFlags::SQLITE_OPEN_CREATE,
    };
    Connection::open_with_flags(path, flags)
}

/// Calls `rusqlite::Connection::busy_handler`: from now on SQLite asks
/// `handler` what to do when the database is locked by another
/// connection, telling it how often it has asked before for the same
/// lock; it tries again if the answer is `true` and gives up if it is
/// `false`. Trusted: nothing is claimed of the result.
#[verifier::external_body]
pub(crate) fn set_busy_handler<F: FnMut(i32) -> bool + Send + 'static>(
    conn: &mut Connection,
    handler: F,
) -> (r: Result<(), rusqlite::Error>) {
    conn.busy_handler(Some(handler))
}

/// Calls `rusqlite::Connection::busy_timeout`: from now on SQLite, when it
/// finds the database locked by another connection, pauses and tries
/// again until it has paused for `millis` milliseconds in all, and then
/// gives up. The call fails on a number of milliseconds that 31 bits
/// cannot say, which `requires` leaves out. Trusted: nothing is claimed
/// of the result.
#[verifier::external_body]
pub(crate) fn set_busy_timeout(conn: &Connection, millis: u32) -> (r: Result<(), rusqlite::Error>)
    requires
        millis <= i32::MAX,
{
    conn.busy_timeout(std::time::Duration::from_millis(u64::from(millis)))
}

/// Calls `rusqlite::Connection::execute_batch`, which runs the statements
/// of `sql` one after the other. Trusted: nothing is claimed of the result.
#[verifier::external_body]
pub(crate) fn sql_execute_batch(conn: &Connection, sql: &str) -> (r: Result<(), rusqlite::Error>) {
    conn.execute_batch(sql)
}

/// Calls `rusqlite::Connection::execute` with the values of
/// `rusqlite::params_from_iter`: runs one statement with the given values
/// bound to its parameters and says how many rows it changed. Trusted:
/// nothing is claimed of the result.
#[verifier::external_body]
pub(crate) fn sql_execute(conn: &Connection, sql: &str, params: Vec<Value>) -> (r: Result<
    usize,
    rusqlite::Error,
>) {
    conn.execute(sql, rusqlite::params_from_iter(params))
}

/// Calls `rusqlite::Connection::query_row` and
/// `rusqlite::OptionalExtension::optional`: runs one query with the given
/// values bound to its parameters and hands out the first column of the
/// first row, or nothing if there is no row. Trusted: nothing is claimed
/// of the result.
#[verifier::external_body]
pub(crate) fn sql_query_row(conn: &Connection, sql: &str, params: Vec<Value>) -> (r: Result<
    Option<Value>,
    rusqlite::Error,
>) {
    conn.query_row(sql, rusqlite::params_from_iter(params), |row| row.get(0)).optional()
}

/// Makes the value of `rusqlite::types::Value` that stands for a
/// parameter: an integer or a blob. Trusted: nothing is claimed of the
/// result.
#[verifier::external_body]
pub(crate) fn to_sqlite_value(p: &SqlParam) -> (r: Value) {
    match p {
        SqlParam::Integer(i) => Value::Integer(*i),
        SqlParam::Blob(b) => Value::Blob(b.clone()),
    }
}

/// Tells the kinds of `rusqlite::types::Value` apart and hands out what
/// the value holds. Trusted: nothing is claimed of the result.
#[verifier::external_body]
pub(crate) fn from_sqlite_value(v: Value) -> (r: SqlValue) {
    match v {
        Value::Null => SqlValue::Null,
        Value::Integer(i) => SqlValue::Integer(i),
        Value::Real(_) => SqlValue::Real,
        Value::Text(s) => SqlValue::Text(s),
        Value::Blob(b) => SqlValue::Blob(b),
    }
}

/// Calls `rusqlite::Connection::last_insert_rowid`. Trusted: nothing is
/// claimed of the result.
#[verifier::external_body]
pub(crate) fn last_insert_rowid(conn: &Connection) -> (r: i64) {
    conn.last_insert_rowid()
}

/// Calls `rusqlite::Transaction::new` for a transaction that takes the
/// write lock at once. Trusted: nothing is claimed of the result.
#[verifier::external_body]
pub(crate) fn tx_begin_immediate<'a>(conn: &'a mut Connection) -> (r: Result<
    Transaction<'a>,
    rusqlite::Error,
>) {
    Transaction::new(conn, TransactionBehavior::Immediate)
}

/// Calls `rusqlite::Transaction::commit`. Trusted: nothing is claimed of
/// the result.
#[verifier::external_body]
pub(crate) fn tx_commit<'a>(tx: Transaction<'a>) -> (r: Result<(), rusqlite::Error>) {
    tx.commit()
}

/// The connection a transaction runs on, through `Deref` of
/// `rusqlite::Transaction`. Trusted: nothing is claimed of the result.
#[verifier::external_body]
pub(crate) fn tx_connection<'a, 'b>(tx: &'a Transaction<'b>) -> (r: &'a Connection) {
    tx
}

/// Calls `rusqlite::Error::sqlite_error_code` and says whether the code
/// is that of a database locked by another connection. Trusted: nothing
/// is claimed of the result.
#[verifier::external_body]
pub(crate) fn sqlite_error_is_busy(e: &rusqlite::Error) -> (r: bool) {
    e.sqlite_error_code() == Some(rusqlite::ErrorCode::DatabaseBusy)
}

/// The text of a failure, through `Display` of `rusqlite::Error`.
/// Trusted: nothing is claimed of the result.
#[verifier::external_body]
pub(crate) fn sqlite_error_message(e: &rusqlite::Error) -> (r: String) {
    format!("{}", e)
}

/// Whether a failure came from the blob store itself: contention that
/// outlasted the retries, or anything else the store reports.
pub open spec fn is_store_failure(e: MarfError) -> bool {
    e is BusyError || e is BackingStoreError
}

/// The failure of this library that stands for a failure of the blob
/// store: `BusyError` where the store stayed locked until the retries
/// were used up, `BackingStoreError` with the text of the failure
/// otherwise.
pub fn store_failure(busy: bool, message: String) -> (r: MarfError)
    ensures
        r == (if busy {
            MarfError::BusyError
        } else {
            MarfError::BackingStoreError(message)
        }),
{
    if busy {
        MarfError::BusyError
    } else {
        MarfError::BackingStoreError(message)
    }
}

/// The failure of this library that stands for a failure of SQLite: what
/// `store_failure` makes of whether SQLite found the database locked and
/// of the text of the failure.
pub fn db_error(e: rusqlite::Error) -> (r: MarfError)
    ensures
        is_store_failure(r),
{
    store_failure(sqlite_error_is_busy(&e), sqlite_error_message(&e))
}

/// The parameter that stands for a block hash: its 32 bytes.
pub fn hash_param<T: MarfTrieId>(bhh: &T) -> (r: SqlParam)
    ensures
        r matches SqlParam::Blob(b) && b@ == bhh.id_bytes(),
{
    SqlParam::Blob(slice_to_vec(bhh.as_bytes().as_slice()))
}

/// The parameter that stands for a number of 32 bits.
pub fn number_param(n: u32) -> (r: SqlParam)
    ensures
        r == SqlParam::Integer(n as i64),
{
    SqlParam::Integer(n as i64)
}

/// The parameter that stands for a yes or a no: 1 or 0.
pub fn flag_param(flag: bool) -> (r: SqlParam)
    ensures
        r == SqlParam::Integer(if flag { 1i64 } else { 0i64 }),
{
    if flag {
        SqlParam::Integer(1)
    } else {
        SqlParam::Integer(0)
    }
}

/// The parameter that stands for a serialized trie: its bytes.
pub fn blob_param(data: &[u8]) -> (r: SqlParam)
    ensures
        r matches SqlParam::Blob(b) && b@ == data@,
{
    SqlParam::Blob(slice_to_vec(data))
}

/// The parameters of the query for a chunk of the trie stored under
/// `block_id`, from offset `at` on: the identifier, the place of the first
/// byte as SQLite counts it, from 1, and the number of bytes that a node
/// can take at most.
pub fn chunk_params(block_id: u32, at: u32) -> (r: Vec<SqlParam>)
    ensures
        r@ == seq![
            SqlParam::Integer(block_id as i64),
            SqlParam::Integer((at + 1) as i64),
            SqlParam::Integer(MAX_NODE_SIZE as i64),
        ],
{
    let r = vec![
        SqlParam::Integer(block_id as i64),
        SqlParam::Integer(at as i64 + 1),
        SqlParam::Integer(MAX_NODE_SIZE as i64),
    ];
    assert(r@ =~= seq![
        SqlParam::Integer(block_id as i64),
        SqlParam::Integer((at + 1) as i64),
        SqlParam::Integer(MAX_NODE_SIZE as i64),
    ]);
    r
}

/// The block identifier that a query found, if it found a row.
///
/// An identifier is an integer that fits 32 bits without sign. Anything
/// else in its place means that the store is corrupt.
pub fn block_id_of(found: &Option<SqlValue>) -> (r: Result<Option<u32>, MarfError>)
    ensures
        match *found {
            None => r == Ok::<Option<u32>, MarfError>(None),
            Some(SqlValue::Integer(i)) => if 0 <= i <= u32::MAX {
                r == Ok::<Option<u32>, MarfError>(Some(i as u32))
            } else {
                r is Err && r->Err_0 is CorruptionError
            },
            Some(_) => r is Err && r->Err_0 is CorruptionError,
        },
{
    match found {
        None => Ok(None),
        Some(SqlValue::Integer(i)) => {
            if 0 <= *i && *i <= u32::MAX as i64 {
                Ok(Some(*i as u32))
            } else {
                Err(MarfError::CorruptionError("block identifier is out of range".to_string()))
            }
        },
        Some(_) => Err(MarfError::CorruptionError("block identifier is not a number".to_string())),
    }
}

/// The block hash that a query found, if it found a row.
///
/// A block hash is a blob of 32 bytes. Anything else in its place means
/// that the store is corrupt.
pub fn block_hash_of<T: MarfTrieId>(found: &Option<SqlValue>) -> (r: Result<Option<T>, MarfError>)
    ensures
        match *found {
            None => r == Ok::<Option<T>, MarfError>(None),
            Some(SqlValue::Blob(b)) => if b@.len() == 32 {
                r is Ok && r->Ok_0 is Some && r->Ok_0->Some_0.id_bytes() == b@
            } else {
                r is Err && r->Err_0 is CorruptionError
            },
            Some(_) => r is Err && r->Err_0 is CorruptionError,
        },
{
    match found {
        None => Ok(None),
        Some(SqlValue::Blob(b)) => {
            if b.len() == 32 {
                let h = T::from_bytes(bytes32_at(b.as_slice(), 0));
                assert(h.id_bytes() =~= b@);
                Ok(Some(h))
            } else {
                Err(MarfError::CorruptionError("block hash has the wrong length".to_string()))
            }
        },
        Some(_) => Err(MarfError::CorruptionError("block hash is not a blob".to_string())),
    }
}

/// The bytes that a query found, if it found a row. Anything but a blob
/// in their place means that the store is corrupt.
pub fn blob_of(found: Option<SqlValue>) -> (r: Result<Option<Vec<u8>>, MarfError>)
    ensures
        match found {
            None => r == Ok::<Option<Vec<u8>>, MarfError>(None),
            Some(SqlValue::Blob(b)) => r == Ok::<Option<Vec<u8>>, MarfError>(Some(b)),
            Some(_) => r is Err && r->Err_0 is CorruptionError,
        },
{
    match found {
        None => Ok(None),
        Some(SqlValue::Blob(b)) => Ok(Some(b)),
        Some(_) => Err(MarfError::CorruptionError("trie is not a blob".to_string())),
    }
}

/// What was looked for, where a query found it; `NotFoundError` where it
/// found no row.
pub fn found_or_missing<V>(found: Option<V>) -> (r: Result<V, MarfError>)
    ensures
        r == (match found {
            Some(v) => Ok::<V, MarfError>(v),
            None => Err::<V, MarfError>(MarfError::NotFoundError),
        }),
{
    match found {
        Some(v) => Ok(v),
        None => Err(MarfError::NotFoundError),
    }
}

/// The number that a query for a count found. A count that is missing
/// means that the store is corrupt.
pub fn count_of(found: Option<u32>) -> (r: Result<u32, MarfError>)
    ensures
        match found {
            Some(n) => r == Ok::<u32, MarfError>(n),
            None => r is Err && r->Err_0 is CorruptionError,
        },
{
    match found {
        Some(n) => Ok(n),
        None => Err(MarfError::CorruptionError("no count".to_string())),
    }
}

/// The block identifier that a row identifier of SQLite stands for: the
/// same number, which has to fit 32 bits without sign.
pub fn block_id_of_rowid(rowid: i64) -> (r: Result<u32, MarfError>)
    ensures
        0 <= rowid <= u32::MAX ==> r == Ok::<u32, MarfError>(rowid as u32),
        !(0 <= rowid <= u32::MAX) ==> r is Err && r->Err_0 is CorruptionError,
{
    if 0 <= rowid && rowid <= u32::MAX as i64 {
        Ok(rowid as u32)
    } else {
        Err(MarfError::CorruptionError("block identifier is out of range".to_string()))
    }
}

/// Where an unconfirmed trie is to be stored, given the identifier of the
/// confirmed trie of its block and that of the unconfirmed one, as far as
/// the store has them: in place of the unconfirmed trie if there is one,
/// else in a new row. A block that has a confirmed trie takes no
/// unconfirmed one.
pub fn unconfirmed_slot(confirmed: Option<u32>, unconfirmed: Option<u32>) -> (r: Result<
    Option<u32>,
    MarfError,
>)
    ensures
        r == (if confirmed is Some {
            Err::<Option<u32>, MarfError>(MarfError::ExistsError)
        } else {
            Ok::<Option<u32>, MarfError>(unconfirmed)
        }),
{
    if confirmed.is_some() {
        Err(MarfError::ExistsError)
    } else {
        Ok(unconfirmed)
    }
}

/// The identifier that a query for the first identifier from `from` on
/// found, if it found one. One below `from` means that the store is
/// corrupt.
pub fn next_id_of(found: Option<u32>, from: u32) -> (r: Result<Option<u32>, MarfError>)
    ensures
        match found {
            Some(id) => if id >= from {
                r == Ok::<Option<u32>, MarfError>(Some(id))
            } else {
                r is Err && r->Err_0 is CorruptionError
            },
            None => r == Ok::<Option<u32>, MarfError>(None),
        },
{
    match found {
        Some(id) => {
            if id < from {
                Err(MarfError::CorruptionError("block identifiers are out of order".to_string()))
            } else {
                Ok(Some(id))
            }
        },
        None => Ok(None),
    }
}

/// The values of SQLite that stand for the parameters, in order.
fn bind(params: &Vec<SqlParam>) -> (r: Vec<Value>)
    ensures
        r@.len() == params@.len(),
{
    let mut values: Vec<Value> = Vec::with_capacity(params.len());
    let mut i: usize = 0;
    while i < params.len()
        invariant
            i <= params@.len(),
            values@.len() == i,
        decreases params@.len() - i,
    {
        values.push(to_sqlite_value(&params[i]));
        i += 1;
    }
    values
}

/// Runs one statement.
fn run(conn: &Connection, sql: &str, params: &Vec<SqlParam>) -> (r: Result<(), MarfError>)
    ensures
        r matches Err(e) ==> is_store_failure(e),
{
    match sql_execute(conn, sql, bind(params)) {
        Ok(_) => Ok(()),
        Err(e) => Err(db_error(e)),
    }
}

/// Runs one query for one value.
fn query(conn: &Connection, sql: &str, params: &Vec<SqlParam>) -> (r: Result<
    Option<SqlValue>,
    MarfError,
>)
    ensures
        r matches Err(e) ==> is_store_failure(e),
{
    match sql_query_row(conn, sql, bind(params)) {
        Ok(Some(value)) => Ok(Some(from_sqlite_value(value))),
        Ok(None) => Ok(None),
        Err(e) => Err(db_error(e)),
    }
}

/// Starts a transaction that takes the write lock at once.
pub fn begin_immediate<'a>(conn: &'a mut Connection) -> (r: Result<Transaction<'a>, MarfError>)
    ensures
        r matches Err(e) ==> is_store_failure(e),
{
    match tx_begin_immediate(conn) {
        Ok(tx) => Ok(tx),
        Err(e) => Err(db_error(e)),
    }
}

/// Commits a transaction.
pub fn commit<'a>(tx: Transaction<'a>) -> (r: Result<(), MarfError>)
    ensures
        r matches Err(e) ==> is_store_failure(e),
{
    match tx_commit(tx) {
        Ok(()) => Ok(()),
        Err(e) => Err(db_error(e)),
    }
}

/// Creates the tables of the store where they are missing: the tries by
/// block, confirmed and unconfirmed; the tries mined but not yet
/// confirmed; and the locks of the blocks being extended.
pub fn create_tables_if_needed(conn: &mut Connection) -> (r: Result<(), MarfError>)
    ensures
        r matches Err(e) ==> is_store_failure(e),
{
    let tx = begin_immediate(conn)?;
    let c = tx_connection(&tx);
    let made = sql_execute_batch(
        c,
        "CREATE TABLE IF NOT EXISTS marf_data (
            block_id INTEGER PRIMARY KEY,
            block_hash BLOB UNIQUE NOT NULL,
            data BLOB NOT NULL,
            unconfirmed INTEGER NOT NULL
        );
        CREATE INDEX IF NOT EXISTS unconfirmed_marf_data ON marf_data(unconfirmed);
        CREATE TABLE IF NOT EXISTS mined_blocks (
            block_id INTEGER PRIMARY KEY,
            block_hash BLOB UNIQUE NOT NULL,
            data BLOB NOT NULL
        );
        CREATE TABLE IF NOT EXISTS block_extension_locks (
            block_hash BLOB PRIMARY KEY,
            unconfirmed INTEGER NOT NULL
        );",
    );
    match made {
        Ok(()) => {},
        Err(e) => {
            return Err(db_error(e));
        },
    }
    commit(tx)
}

/// The identifier of the trie stored for `bhh`, confirmed or not.
pub fn get_block_identifier<T: MarfTrieId>(conn: &Connection, bhh: &T) -> (r: Result<u32, MarfError>)
    ensures
        r matches Err(e) ==> is_store_failure(e) || e is CorruptionError || e is NotFoundError,
{
    let params = vec![hash_param(bhh)];
    let found = query(conn, "SELECT block_id FROM marf_data WHERE block_hash = ?1", &params)?;
    found_or_missing(block_id_of(&found)?)
}

/// The identifier of the confirmed trie stored for `bhh`, if there is one.
pub fn get_confirmed_block_identifier<T: MarfTrieId>(conn: &Connection, bhh: &T) -> (r: Result<
    Option<u32>,
    MarfError,
>)
    ensures
        r matches Err(e) ==> is_store_failure(e) || e is CorruptionError,
{
    let params = vec![hash_param(bhh)];
    let found = query(
        conn,
        "SELECT block_id FROM marf_data WHERE block_hash = ?1 AND unconfirmed = 0",
        &params,
    )?;
    block_id_of(&found)
}

/// The identifier of the unconfirmed trie stored for `bhh`, if there is
/// one.
pub fn get_unconfirmed_block_identifier<T: MarfTrieId>(conn: &Connection, bhh: &T) -> (r: Result<
    Option<u32>,
    MarfError,
>)
    ensures
        r matches Err(e) ==> is_store_failure(e) || e is CorruptionError,
{
    let params = vec![hash_param(bhh)];
    let found = query(
        conn,
        "SELECT block_id FROM marf_data WHERE block_hash = ?1 AND unconfirmed = 1",
        &params,
    )?;
    block_id_of(&found)
}

/// The identifier of the mined trie stored for `bhh`.
pub fn get_mined_block_identifier<T: MarfTrieId>(conn: &Connection, bhh: &T) -> (r: Result<
    u32,
    MarfError,
>)
    ensures
        r matches Err(e) ==> is_store_failure(e) || e is CorruptionError || e is NotFoundError,
{
    let params = vec![hash_param(bhh)];
    let found = query(conn, "SELECT block_id FROM mined_blocks WHERE block_hash = ?1", &params)?;
    found_or_missing(block_id_of(&found)?)
}

/// The hash of the block whose trie is stored under `local_id`.
pub fn get_block_hash<T: MarfTrieId>(conn: &Connection, local_id: u32) -> (r: Result<T, MarfError>)
    ensures
        r matches Err(e) ==> is_store_failure(e) || e is CorruptionError || e is NotFoundError,
{
    let params = vec![number_param(local_id)];
    let found = query(conn, "SELECT block_hash FROM marf_data WHERE block_id = ?1", &params)?;
    found_or_missing(block_hash_of(&found)?)
}

/// The identifier under which the row just inserted stands.
fn inserted_block_id(conn: &Connection) -> (r: Result<u32, MarfError>)
    ensures
        r matches Err(e) ==> e is CorruptionError,
{
    block_id_of_rowid(last_insert_rowid(conn))
}

/// Stores a serialized trie as the confirmed trie of `bhh` and hands out
/// its identifier. Fails if a trie is stored for `bhh` already.
pub fn write_trie_blob<T: MarfTrieId>(conn: &Connection, bhh: &T, data: &[u8]) -> (r: Result<
    u32,
    MarfError,
>)
    ensures
        r matches Err(e) ==> is_store_failure(e) || e is CorruptionError,
{
    let params = vec![hash_param(bhh), blob_param(data)];
    run(
        conn,
        "INSERT INTO marf_data (block_hash, data, unconfirmed) VALUES (?1, ?2, 0)",
        &params,
    )?;
    inserted_block_id(conn)
}

/// Stores a serialized trie as the mined trie of `bhh`, in place of the
/// one stored for it if any, and hands out its identifier.
pub fn write_trie_blob_to_mined<T: MarfTrieId>(conn: &Connection, bhh: &T, data: &[u8]) -> (r:
    Result<u32, MarfError>)
    ensures
        r matches Err(e) ==> is_store_failure(e) || e is CorruptionError || e is NotFoundError,
{
    let params = vec![hash_param(bhh), blob_param(data)];
    run(conn, "INSERT OR REPLACE INTO mined_blocks (block_hash, data) VALUES (?1, ?2)", &params)?;
    get_mined_block_identifier(conn, bhh)
}

/// Stores a serialized trie as the unconfirmed trie of `bhh`, in place of
/// the one stored for it if any, and hands out its identifier. Refuses to
/// touch a confirmed trie.
pub fn write_trie_blob_to_unconfirmed<T: MarfTrieId>(
    conn: &Connection,
    bhh: &T,
    data: &[u8],
) -> (r: Result<u32, MarfError>)
    ensures
        r matches Err(e) ==> is_store_failure(e) || e is CorruptionError || e is ExistsError,
{
    let confirmed = get_confirmed_block_identifier(conn, bhh)?;
    let unconfirmed = if confirmed.is_some() {
        None
    } else {
        get_unconfirmed_block_identifier(conn, bhh)?
    };
    match unconfirmed_slot(confirmed, unconfirmed)? {
        Some(block_id) => {
            let params = vec![blob_param(data), number_param(block_id)];
            run(conn, "UPDATE marf_data SET data = ?1 WHERE block_id = ?2", &params)?;
            Ok(block_id)
        },
        None => {
            let params = vec![hash_param(bhh), blob_param(data)];
            run(
                conn,
                "INSERT INTO marf_data (block_hash, data, unconfirmed) VALUES (?1, ?2, 1)",
                &params,
            )?;
            inserted_block_id(conn)
        },
    }
}

/// The serialized trie stored under `block_id`.
pub fn read_trie_blob(conn: &Connection, block_id: u32) -> (r: Result<Vec<u8>, MarfError>)
    ensures
        r matches Err(e) ==> is_store_failure(e) || e is CorruptionError || e is NotFoundError,
{
    let params = vec![number_param(block_id)];
    let found = query(conn, "SELECT data FROM marf_data WHERE block_id = ?1", &params)?;
    found_or_missing(blob_of(found)?)
}

/// The bytes of the trie stored under `block_id` from offset `at` on: as
/// many as a node can take, or fewer where the trie ends before.
pub fn read_trie_chunk(conn: &Connection, block_id: u32, at: u32) -> (r: Result<Vec<u8>, MarfError>)
    ensures
        r matches Err(e) ==> is_store_failure(e) || e is CorruptionError || e is NotFoundError,
{
    let params = chunk_params(block_id, at);
    let found = query(
        conn,
        "SELECT substr(data, ?2, ?3) FROM marf_data WHERE block_id = ?1",
        &params,
    )?;
    found_or_missing(blob_of(found)?)
}

/// The node at the start of a chunk of a trie, with its hash.
pub fn node_of_chunk(chunk: &[u8]) -> (r: Result<(TrieNodeType, TrieHash), MarfError>)
    ensures
        r is Ok <==> node_starts_at(chunk@, 0),
        r matches Ok(nh) ==> decode_node(chunk@, 0) == Some((nh.0@, nh.1@)),
        r matches Err(e) ==> e is CorruptionError,
{
    read_nodetype(chunk, &TriePtr::new(TRIE_NODE_ID_NODE256, 0, 0))
}

/// The hash of the node at the start of a chunk of a trie.
pub fn node_hash_of_chunk(chunk: &[u8]) -> (r: Result<TrieHash, MarfError>)
    ensures
        r is Ok <==> node_hash_readable(chunk@, 0),
        r matches Ok(h) ==> h@ == hash_at(chunk@, 0),
        r matches Err(e) ==> e is CorruptionError,
{
    bits::read_node_hash_bytes(chunk, &TriePtr::new(TRIE_NODE_ID_NODE256, 0, 0))
}

/// The node that `ptr` points to in the trie stored under `block_id`,
/// with its hash.
pub fn read_node_type(conn: &Connection, block_id: u32, ptr: &TriePtr) -> (r: Result<
    (TrieNodeType, TrieHash),
    MarfError,
>)
    ensures
        r matches Ok(found) ==> found.0@.encodable(),
        r matches Err(e) ==> is_store_failure(e) || e is CorruptionError || e is NotFoundError,
{
    let chunk = read_trie_chunk(conn, block_id, ptr.ptr())?;
    let (node, hash) = node_of_chunk(chunk.as_slice())?;
    proof {
        node.lemma_shaped();
    }
    Ok((node, hash))
}

/// The hash of the node that `ptr` points to in the trie stored under
/// `block_id`.
pub fn get_node_hash_bytes(conn: &Connection, block_id: u32, ptr: &TriePtr) -> (r: Result<
    TrieHash,
    MarfError,
>)
    ensures
        r matches Err(e) ==> is_store_failure(e) || e is CorruptionError || e is NotFoundError,
{
    let chunk = read_trie_chunk(conn, block_id, ptr.ptr())?;
    node_hash_of_chunk(chunk.as_slice())
}

/// The hash of the node that `ptr` points to in the trie stored for
/// `bhh`.
pub fn get_node_hash_bytes_by_bhh<T: MarfTrieId>(conn: &Connection, bhh: &T, ptr: &TriePtr) -> (r:
    Result<TrieHash, MarfError>)
    ensures
        r matches Err(e) ==> is_store_failure(e) || e is CorruptionError || e is NotFoundError,
{
    let block_id = get_block_identifier(conn, bhh)?;
    get_node_hash_bytes(conn, block_id, ptr)
}

/// Appends to `w` the 32 bytes of the hash of the node that `ptr` points
/// to in the trie stored under `block_id`. On failure `w` is as it was.
pub fn read_node_hash_bytes(conn: &Connection, w: &mut Vec<u8>, block_id: u32, ptr: &TriePtr) -> (r:
    Result<(), MarfError>)
    ensures
        r is Ok ==> final(w)@.len() == old(w)@.len() + 32 && final(w)@.subrange(
            0,
            old(w)@.len() as int,
        ) == old(w)@,
        r matches Err(e) ==> final(w)@ == old(w)@ && (is_store_failure(e) || e is CorruptionError
            || e is NotFoundError),
{
    let hash = get_node_hash_bytes(conn, block_id, ptr)?;
    append_hash(w, &hash.0);
    assert(w@.subrange(0, old(w)@.len() as int) =~= old(w)@);
    Ok(())
}

/// Whether a lock may be taken, given what the store holds: not on a
/// block that is locked already, and for a confirmed trie not on a block
/// that has a trie already.
pub open spec fn spec_may_lock(unconfirmed: bool, committed: bool, locked: bool) -> bool {
    !locked && (unconfirmed || !committed)
}

/// Whether a lock may be taken, given what the store holds.
#[verifier::when_used_as_spec(spec_may_lock)]
pub fn may_lock(unconfirmed: bool, committed: bool, locked: bool) -> (r: bool)
    ensures
        r == spec_may_lock(unconfirmed, committed, locked),
{
    !locked && (unconfirmed || !committed)
}

/// Takes the lock on `bhh` within a transaction, so that no other writer
/// extends to the same block: `true` if the lock was taken, `false` if it
/// may not be taken.
pub fn tx_lock_bhh_for_extension<T: MarfTrieId>(conn: &Connection, bhh: &T, unconfirmed: bool) -> (r:
    Result<bool, MarfError>)
    ensures
        r matches Err(e) ==> is_store_failure(e),
{
    let params = vec![hash_param(bhh)];
    let committed = query(
        conn,
        "SELECT 1 FROM marf_data WHERE block_hash = ?1 LIMIT 1",
        &params,
    )?.is_some();
    let locked = query(
        conn,
        "SELECT 1 FROM block_extension_locks WHERE block_hash = ?1 LIMIT 1",
        &params,
    )?.is_some();
    if !may_lock(unconfirmed, committed, locked) {
        return Ok(false);
    }
    let params = vec![hash_param(bhh), flag_param(unconfirmed)];
    run(
        conn,
        "INSERT INTO block_extension_locks (block_hash, unconfirmed) VALUES (?1, ?2)",
        &params,
    )?;
    Ok(true)
}

/// Takes the lock on `bhh` in a transaction of its own.
pub fn lock_bhh_for_extension<T: MarfTrieId>(conn: &mut Connection, bhh: &T, unconfirmed: bool) -> (r:
    Result<bool, MarfError>)
    ensures
        r matches Err(e) ==> is_store_failure(e),
{
    let tx = begin_immediate(conn)?;
    let taken = tx_lock_bhh_for_extension(tx_connection(&tx), bhh, unconfirmed)?;
    if !taken {
        return Ok(false);
    }
    commit(tx)?;
    Ok(true)
}

/// Gives up the lock on `bhh`, if there is one.
pub fn drop_lock<T: MarfTrieId>(conn: &Connection, bhh: &T) -> (r: Result<(), MarfError>)
    ensures
        r matches Err(e) ==> is_store_failure(e),
{
    let params = vec![hash_param(bhh)];
    run(conn, "DELETE FROM block_extension_locks WHERE block_hash = ?1", &params)
}

/// Removes the unconfirmed trie stored for `bhh`, if there is one.
pub fn drop_unconfirmed_trie<T: MarfTrieId>(conn: &Connection, bhh: &T) -> (r: Result<(), MarfError>)
    ensures
        r matches Err(e) ==> is_store_failure(e),
{
    let params = vec![hash_param(bhh)];
    run(conn, "DELETE FROM marf_data WHERE block_hash = ?1 AND unconfirmed = 1", &params)
}

/// Gives up every lock.
pub fn clear_lock_data(conn: &Connection) -> (r: Result<(), MarfError>)
    ensures
        r matches Err(e) ==> is_store_failure(e),
{
    let params: Vec<SqlParam> = Vec::new();
    run(conn, "DELETE FROM block_extension_locks", &params)
}

/// Empties every table.
pub fn clear_tables(conn: &mut Connection) -> (r: Result<(), MarfError>)
    ensures
        r matches Err(e) ==> is_store_failure(e),
{
    let tx = begin_immediate(conn)?;
    let c = tx_connection(&tx);
    let params: Vec<SqlParam> = Vec::new();
    run(c, "DELETE FROM block_extension_locks", &params)?;
    run(c, "DELETE FROM marf_data", &params)?;
    run(c, "DELETE FROM mined_blocks", &params)?;
    commit(tx)
}

/// Number of confirmed tries in the store.
pub fn count_blocks(conn: &Connection) -> (r: Result<u32, MarfError>)
    ensures
        r matches Err(e) ==> is_store_failure(e) || e is CorruptionError,
{
    let params: Vec<SqlParam> = Vec::new();
    let found = query(conn, "SELECT COUNT(1) FROM marf_data WHERE unconfirmed = 0", &params)?;
    count_of(block_id_of(&found)?)
}

/// The smallest identifier of a trie in the store that is not below
/// `from`, if there is one.
pub fn next_block_identifier(conn: &Connection, from: u32) -> (r: Result<Option<u32>, MarfError>)
    ensures
        r matches Ok(Some(id)) ==> id >= from,
        r matches Err(e) ==> is_store_failure(e) || e is CorruptionError,
{
    let params = vec![number_param(from)];
    let found = query(
        conn,
        "SELECT block_id FROM marf_data WHERE block_id >= ?1 ORDER BY block_id LIMIT 1",
        &params,
    )?;
    next_id_of(block_id_of(&found)?, from)
}

/// The hash of the root of each trie in the store, with the hash of the
/// trie's block, by rising block identifier.
pub fn read_all_block_hashes_and_roots<T: MarfTrieId>(conn: &Connection) -> (r: Result<
    Vec<(TrieHash, T)>,
    MarfError,
>)
    ensures
        r matches Err(e) ==> is_store_failure(e) || e is CorruptionError || e is NotFoundError,
{
    let mut out: Vec<(TrieHash, T)> = Vec::new();
    let root_ptr = TriePtr::new(TRIE_NODE_ID_NODE256, 0, 36);
    let mut from: u32 = 0;
    loop
        invariant
            root_ptr.ptr == 36,
        decreases u32::MAX - from,
    {
        let id = match next_block_identifier(conn, from)? {
            Some(id) => id,
            None => {
                return Ok(out);
            },
        };
        let bhh: T = get_block_hash(conn, id)?;
        let root_hash = get_node_hash_bytes(conn, id, &root_ptr)?;
        out.push((root_hash, bhh));
        if id == u32::MAX {
            return Ok(out);
        }
        from = id + 1;
    }
}

} // verus!
