//! The cache of translated modules, a table in an SQLite database.
use crate::cache_key::{CacheIdentity, ModuleKey};
use crate::clock;
use crate::text;
use crate::text::has_substring;
use diesel::connection::{Connection, SimpleConnection};
use diesel::result::{DatabaseErrorKind, Error};
use diesel::sql_types::{BigInt, Binary, Text};
use diesel::sqlite::SqliteConnection;
use diesel::{sql_query, RunQueryDsl};
use vstd::prelude::*;

verus! {

/// A connection to an SQLite database.
#[verifier::external_type_specification]
#[verifier::external_body]
pub struct ExSqliteConnection(diesel::sqlite::SqliteConnection);

/// What a cache entry holds besides its key.
pub struct CacheRow {
    pub binary: Seq<u8>,
    pub last_access: i64,
}

/// The entries of a cache.
pub type CacheRows = Map<CacheIdentity, CacheRow>;

/// The rows of the table `modules`. It speaks of a database that only this connection reaches.
pub uninterp spec fn stored_rows(connection: SqliteConnection) -> Map<CacheIdentity, CacheRow>;

/// The number of bytes that the table `globals` records for all entries together. It speaks of a
/// database that only this connection reaches.
pub uninterp spec fn recorded_size(connection: SqliteConnection) -> int;

/// Whether the database is one that this connection made for itself in memory, which no other
/// connection reaches and which nothing else has written to.
pub uninterp spec fn unshared(connection: SqliteConnection) -> bool;

/// The path of the database that the connection was made to.
pub uninterp spec fn database_of(connection: SqliteConnection) -> Seq<char>;

/// For how many milliseconds a statement waits for another writer.
pub uninterp spec fn busy_timeout(connection: SqliteConnection) -> int;

/// How many bytes the binaries of all entries have together.
pub open spec fn total_size(rows: CacheRows) -> int
    decreases rows.dom().len(),
    when rows.dom().finite()
{
    if rows.dom().len() == 0 {
        0
    } else {
        let identity = rows.dom().choose();
        total_size(rows.remove(identity)) + rows[identity].binary.len()
    }
}

/// The entries of an empty cache.
pub open spec fn no_rows() -> CacheRows {
    Map::empty()
}

/// The binary of an entry, where the entry is there.
pub open spec fn found_in(rows: CacheRows, identity: CacheIdentity) -> Option<Seq<u8>> {
    if rows.dom().contains(identity) {
        Some(rows[identity].binary)
    } else {
        None
    }
}

/// The entries after a lookup at the time `now`: the entry that was found carries that time.
pub open spec fn touched(rows: CacheRows, identity: CacheIdentity, now: i64) -> CacheRows {
    if rows.dom().contains(identity) {
        rows.insert(identity, CacheRow { binary: rows[identity].binary, last_access: now })
    } else {
        rows
    }
}

/// The entries after an insertion. An entry that is already there stays as it is.
pub open spec fn inserted(
    rows: CacheRows,
    identity: CacheIdentity,
    binary: Seq<u8>,
    now: i64,
) -> CacheRows {
    if rows.dom().contains(identity) {
        rows
    } else {
        rows.insert(identity, CacheRow { binary, last_access: now })
    }
}

/// What kind of failure the database reports.
#[derive(Clone, Copy, PartialEq, Eq, Structural, Debug)]
pub enum StoreErrorKind {
    /// A row with the same key is already there.
    UniqueViolation,
    /// A concurrent transaction got in the way.
    SerializationFailure,
    /// Another failure of the database.
    OtherDatabase,
    /// A failure outside the database.
    NotDatabase,
}

/// Why a statement failed.
#[derive(Debug)]
pub struct StoreError {
    pub kind: StoreErrorKind,
    pub message: String,
}

impl StoreError {
    /// Whether another writer holds the lock.
    pub open spec fn busy(self) -> bool {
        &&& self.kind != StoreErrorKind::NotDatabase
        &&& self.kind == StoreErrorKind::SerializationFailure || has_substring(
            self.message@,
            "locked"@,
        ) || has_substring(self.message@, "busy"@)
    }

    /// Whether the row is already there.
    pub open spec fn unique_violation(self) -> bool {
        &&& self.kind != StoreErrorKind::NotDatabase
        &&& self.kind == StoreErrorKind::UniqueViolation || has_substring(
            self.message@,
            "UNIQUE constraint failed"@,
        )
    }
}

/// Whether a failed insert failed because another writer holds the lock.
///
/// The message is inspected as well as the kind because the interesting case, a stale snapshot,
/// has no kind of its own: it arrives with SQLite's "database is locked" text alone.
pub fn is_busy(error: &StoreError) -> (busy: bool)
    ensures
        busy == error.busy(),
{
    error.kind != StoreErrorKind::NotDatabase && (error.kind == StoreErrorKind::SerializationFailure
        || text::contains(error.message.as_str(), "locked") || text::contains(
        error.message.as_str(),
        "busy",
    ))
}

/// Whether a failed insert failed because the row is already there. Two processes translating the
/// same module at once both try to store it, and the second one losing that race has not gone
/// wrong.
pub fn is_unique_violation(error: &StoreError) -> (unique: bool)
    ensures
        unique == error.unique_violation(),
{
    error.kind != StoreErrorKind::NotDatabase && (error.kind == StoreErrorKind::UniqueViolation
        || text::contains(error.message.as_str(), "UNIQUE constraint failed"))
}

/// How many times an insertion is attempted.
pub const ATTEMPTS: u32 = 5;

/// Whether `pause` was asked to wait once after each attempt but the last: one millisecond after the
/// first, and twice as long after each one that followed. The states of the outside form a chain
/// with one link for each wait.
pub open spec fn paused<O, P: Fn(O, u64) -> O>(pause: P, chain: Seq<O>) -> bool {
    forall|k: int|
        0 <= k < chain.len() - 1 ==> pause.ensures(
            (#[trigger] chain[k], 1u64 << (k as u64)),
            chain[k + 1],
        )
}

/// What follows an attempt to insert an entry.
pub enum InsertStep {
    /// The entry is there.
    Stored,
    /// The entry could not be stored.
    Failed(StoreError),
    /// Try again after so many milliseconds.
    RetryAfter(u64),
}

/// What follows the attempt number `attempt`, counted from zero, by how it ended.
///
/// That the row exists already is not a failure: another process won the race and stored the same
/// translation. A busy database is tried again with a short and growing backoff, since a new
/// statement takes a new snapshot; anything else is reported, and so is the last attempt.
pub fn after_attempt(attempt: u32, outcome: Result<(), StoreError>) -> (step: InsertStep)
    requires
        attempt < ATTEMPTS,
    ensures
        step == match outcome {
            Ok(_) => InsertStep::Stored,
            Err(error) => if error.unique_violation() {
                InsertStep::Stored
            } else if error.busy() && attempt + 1 < ATTEMPTS {
                InsertStep::RetryAfter(1u64 << (attempt as u64))
            } else {
                InsertStep::Failed(error)
            },
        },
{
    match outcome {
        Ok(_) => InsertStep::Stored,
        Err(error) => {
            if is_unique_violation(&error) {
                return InsertStep::Stored;
            }
            if !is_busy(&error) || attempt + 1 == ATTEMPTS {
                return InsertStep::Failed(error);
            }
            InsertStep::RetryAfter(1u64 << (attempt as u64))
        },
    }
}

/// How a lookup ended.
pub enum Lookup {
    Found(Vec<u8>),
    Absent,
    Failed,
}

impl Lookup {
    /// The binary that was found. A statement that fails counts as a miss: a miss is cheap, it
    /// means that the module is translated.
    pub fn binary(self) -> (binary: Option<Vec<u8>>)
        ensures
            binary == binary_of(self),
    {
        match self {
            Lookup::Found(found) => Some(found),
            Lookup::Absent => None,
            Lookup::Failed => None,
        }
    }
}

/// The tables of the cache. The database keeps the total size of the entries itself. What is there
/// already under these names is left as it is.
pub const SCHEMA: &'static str =
    "CREATE TABLE IF NOT EXISTS modules (
        id INTEGER PRIMARY KEY AUTOINCREMENT NOT NULL,
        hash TEXT NOT NULL,
        compiler_version TEXT NOT NULL,
        zluda_version TEXT NOT NULL,
        device TEXT NOT NULL,
        backend_key TEXT NOT NULL,
        last_access BIGINT NOT NULL,
        binary BLOB NOT NULL,
        UNIQUE (hash, compiler_version, zluda_version, device, backend_key)
    );
    CREATE TABLE IF NOT EXISTS globals (
        key TEXT PRIMARY KEY NOT NULL,
        value BIGINT NOT NULL
    );
    INSERT OR IGNORE INTO globals (key, value) VALUES ('total_size', 0);
    CREATE TRIGGER IF NOT EXISTS modules_insert AFTER INSERT ON modules BEGIN
        UPDATE globals SET value = value + LENGTH(NEW.binary) WHERE key = 'total_size';
    END;
    CREATE TRIGGER IF NOT EXISTS modules_delete AFTER DELETE ON modules BEGIN
        UPDATE globals SET value = value - LENGTH(OLD.binary) WHERE key = 'total_size';
    END;";

/// The statement that adds an entry.
pub const INSERT: &'static str =
    "INSERT INTO modules (hash, compiler_version, zluda_version, device, backend_key, last_access, binary) VALUES (?, ?, ?, ?, ?, ?, ?)";

/// The statement that deletes an entry.
pub const DELETE: &'static str =
    "DELETE FROM modules WHERE hash = ? AND compiler_version = ? AND zluda_version = ? AND device = ? AND backend_key = ?";

/// Connects to a database with `SqliteConnection::establish`, which creates the database where it
/// is not there yet.
///
/// What is relied on: the connection is to the database at that path, and each connection to
/// `:memory:` gets a new, empty database of its own.
#[verifier::external_body]
fn connect(path: &str) -> (connection: Option<SqliteConnection>)
    ensures
        connection matches Some(c) ==> database_of(c) == path@,
        connection matches Some(c) ==> path@ == ":memory:"@ ==> unshared(c) && stored_rows(c)
            == no_rows(),
{
    SqliteConnection::establish(path).ok()
}

/// Puts the database into write-ahead mode with `SimpleConnection::batch_execute`.
///
/// What is relied on: the mode of the journal does not change what is stored, nor for how long
/// statements wait.
#[verifier::external_body]
fn use_write_ahead_log(connection: &mut SqliteConnection) -> (done: bool)
    ensures
        database_of(*final(connection)) == database_of(*old(connection)),
        unshared(*final(connection)) == unshared(*old(connection)),
        unshared(*old(connection)) ==> stored_rows(*final(connection)) == stored_rows(
            *old(connection),
        ),
        unshared(*old(connection)) ==> recorded_size(*final(connection)) == recorded_size(
            *old(connection),
        ),
        busy_timeout(*final(connection)) == busy_timeout(*old(connection)),
{
    connection.batch_execute("PRAGMA journal_mode = WAL; PRAGMA synchronous = NORMAL;").is_ok()
}

/// Sets for how long a statement waits for another writer, with `SimpleConnection::batch_execute`.
///
/// What is relied on: the statement sets the waiting time and changes nothing that is stored; one
/// that fails changes nothing.
#[verifier::external_body]
fn set_busy_timeout(connection: &mut SqliteConnection, millis: u32) -> (done: bool)
    requires
        millis <= 0x7fff_ffff,
    ensures
        database_of(*final(connection)) == database_of(*old(connection)),
        unshared(*final(connection)) == unshared(*old(connection)),
        unshared(*old(connection)) ==> stored_rows(*final(connection)) == stored_rows(
            *old(connection),
        ),
        unshared(*old(connection)) ==> recorded_size(*final(connection)) == recorded_size(
            *old(connection),
        ),
        busy_timeout(*final(connection)) == if done {
            millis as int
        } else {
            busy_timeout(*old(connection))
        },
{
    connection.batch_execute(&format!("PRAGMA busy_timeout = {};", millis)).is_ok()
}

/// Creates the tables where they are not there yet, with `SimpleConnection::batch_execute`.
///
/// What is relied on: a database that had no entries has none afterwards, and it records a total
/// size of zero for them.
#[verifier::external_body]
fn create_tables(connection: &mut SqliteConnection) -> (done: bool)
    ensures
        busy_timeout(*final(connection)) == busy_timeout(*old(connection)),
        database_of(*final(connection)) == database_of(*old(connection)),
        unshared(*final(connection)) == unshared(*old(connection)),
        done && unshared(*old(connection)) && stored_rows(*old(connection)) == no_rows() ==> {
            &&& stored_rows(*final(connection)) == no_rows()
            &&& recorded_size(*final(connection)) == 0
        },
{
    connection.batch_execute(SCHEMA).is_ok()
}

/// Looks a row up and stamps it, with one `UPDATE` statement that returns the binary, run by
/// `RunQueryDsl::get_result`.
///
/// What is relied on, of a database that only this connection reaches: the statement finds the row
/// with exactly the five given texts, returns its binary and sets its time; without such a row it
/// finds nothing; a statement that finds nothing or fails changes nothing.
#[verifier::external_body]
fn touch_row(connection: &mut SqliteConnection, key: &ModuleKey) -> (lookup: Lookup)
    ensures
        busy_timeout(*final(connection)) == busy_timeout(*old(connection)),
        database_of(*final(connection)) == database_of(*old(connection)),
        unshared(*final(connection)) == unshared(*old(connection)),
        unshared(*old(connection)) ==> {
            let rows = stored_rows(*old(connection));
            &&& recorded_size(*final(connection)) == recorded_size(*old(connection))
            &&& match lookup {
                Lookup::Found(binary) => {
                    &&& found_in(rows, key.identity()) == Some(binary@)
                    &&& stored_rows(*final(connection)) == touched(
                        rows,
                        key.identity(),
                        key.last_access,
                    )
                },
                Lookup::Absent => {
                    &&& found_in(rows, key.identity()) is None
                    &&& stored_rows(*final(connection)) == rows
                },
                Lookup::Failed => stored_rows(*final(connection)) == rows,
            }
        },
{
    let set = diesel::dsl::sql::<Binary>("UPDATE modules SET last_access = ").bind::<BigInt, _>(key.last_access);
    let by_hash = set.sql(" WHERE hash = ").bind::<Text, _>(&key.hash);
    let by_compiler = by_hash.sql(" AND compiler_version = ").bind::<Text, _>(key.compiler_version);
    let by_version = by_compiler.sql(" AND zluda_version = ").bind::<Text, _>(key.zluda_version);
    let by_device = by_version.sql(" AND device = ").bind::<Text, _>(key.device);
    let by_key = by_device.sql(" AND backend_key = ").bind::<Text, _>(&key.backend_key);
    match by_key.sql(" RETURNING binary").get_result(connection) {
        Ok(binary) => Lookup::Found(binary),
        Err(Error::NotFound) => Lookup::Absent,
        Err(_) => Lookup::Failed,
    }
}

/// Inserts a row with an `INSERT` statement run by `RunQueryDsl::execute`.
///
/// What is relied on, of a database that only this connection reaches: the statement adds the row
/// where there is no row with the same five texts, and the length of the binary is added to the
/// recorded size; otherwise it fails; a statement that fails changes nothing, and one that fails
/// for a violated uniqueness found such a row. A database never outgrows 2^48 bytes, so the size of
/// its entries can be counted in 64 bits.
#[verifier::external_body]
fn insert_row(connection: &mut SqliteConnection, key: &ModuleKey, binary: &[u8]) -> (outcome: Result<
    (),
    StoreError,
>)
    ensures
        busy_timeout(*final(connection)) == busy_timeout(*old(connection)),
        database_of(*final(connection)) == database_of(*old(connection)),
        unshared(*final(connection)) == unshared(*old(connection)),
        unshared(*old(connection)) ==> {
            let rows = stored_rows(*old(connection));
            match outcome {
                Ok(_) => {
                    &&& found_in(rows, key.identity()) is None
                    &&& stored_rows(*final(connection)) == inserted(
                        rows,
                        key.identity(),
                        binary@,
                        key.last_access,
                    )
                    &&& total_size(stored_rows(*final(connection))) <= i64::MAX
                    &&& recorded_size(*old(connection)) + binary@.len() <= i64::MAX
                        ==> recorded_size(*final(connection)) == recorded_size(*old(connection))
                        + binary@.len()
                },
                Err(error) => {
                    &&& stored_rows(*final(connection)) == rows
                    &&& recorded_size(*final(connection)) == recorded_size(*old(connection))
                    &&& error.unique_violation() ==> found_in(rows, key.identity()) is Some
                },
            }
        },
{
    match sql_query(INSERT).bind::<Text, _>(&key.hash).bind::<Text, _>(key.compiler_version)
        .bind::<Text, _>(key.zluda_version).bind::<Text, _>(key.device).bind::<Text, _>(&key.backend_key)
        .bind::<BigInt, _>(key.last_access).bind::<Binary, _>(binary).execute(connection) {
        Ok(_) => Ok(()),
        Err(Error::DatabaseError(kind, info)) => Err(StoreError {
            kind: match kind {
                DatabaseErrorKind::UniqueViolation => StoreErrorKind::UniqueViolation,
                DatabaseErrorKind::SerializationFailure => StoreErrorKind::SerializationFailure,
                _ => StoreErrorKind::OtherDatabase,
            },
            message: info.message().to_owned(),
        }),
        Err(other) => Err(StoreError { kind: StoreErrorKind::NotDatabase, message: other.to_string() }),
    }
}

/// Deletes a row with a `DELETE` statement run by `RunQueryDsl::execute`.
///
/// What is relied on, of a database that only this connection reaches: the statement deletes the
/// row with exactly the five given texts, where there is one, and takes the length of its binary
/// off the recorded size; a statement that fails changes nothing.
#[verifier::external_body]
fn delete_row(connection: &mut SqliteConnection, key: &ModuleKey) -> (done: bool)
    ensures
        busy_timeout(*final(connection)) == busy_timeout(*old(connection)),
        database_of(*final(connection)) == database_of(*old(connection)),
        unshared(*final(connection)) == unshared(*old(connection)),
        unshared(*old(connection)) ==> {
            let rows = stored_rows(*old(connection));
            if done {
                &&& stored_rows(*final(connection)) == rows.remove(key.identity())
                &&& recorded_size(*final(connection)) == recorded_size(*old(connection)) - (
                match found_in(rows, key.identity()) {
                    Some(binary) => binary.len() as int,
                    None => 0int,
                })
            } else {
                &&& stored_rows(*final(connection)) == rows
                &&& recorded_size(*final(connection)) == recorded_size(*old(connection))
            }
        },
{
    let query = sql_query(DELETE).bind::<Text, _>(&key.hash).bind::<Text, _>(key.compiler_version)
        .bind::<Text, _>(key.zluda_version).bind::<Text, _>(key.device);
    query.bind::<Text, _>(&key.backend_key).execute(connection).is_ok()
}

/// Whether connecting to the database at `path` may give this.
pub closed spec fn connecting_gave(path: &str, connection: Option<SqliteConnection>) -> bool {
    call_ensures(connect, (path,), connection)
}

/// Whether putting the database behind this connection into write-ahead mode may end so.
pub closed spec fn logging_gave(connection: SqliteConnection, done: bool) -> bool {
    exists|c: &mut SqliteConnection|
        *c == connection && #[trigger] call_ensures(use_write_ahead_log, (c,), done)
}

/// Whether setting the waiting time of this connection may end so.
pub closed spec fn waiting_gave(connection: SqliteConnection, millis: u32, done: bool) -> bool {
    exists|c: &mut SqliteConnection|
        *c == connection && #[trigger] call_ensures(set_busy_timeout, (c, millis), done)
}

/// Whether making the tables behind this connection may end so.
pub closed spec fn tables_gave(connection: SqliteConnection, done: bool) -> bool {
    exists|c: &mut SqliteConnection|
        *c == connection && #[trigger] call_ensures(create_tables, (c,), done)
}

/// Whether looking the row of `key` up through this connection may end so.
pub closed spec fn touching_gave(
    connection: SqliteConnection,
    key: &ModuleKey,
    lookup: Lookup,
) -> bool {
    exists|c: &mut SqliteConnection|
        *c == connection && #[trigger] call_ensures(touch_row, (c, key), lookup)
}

/// Whether deleting the row of `key` through this connection may end so.
pub closed spec fn deleting_gave(connection: SqliteConnection, key: &ModuleKey, done: bool) -> bool {
    exists|c: &mut SqliteConnection|
        *c == connection && #[trigger] call_ensures(delete_row, (c, key), done)
}

/// Whether preparing the database behind this connection may end so: it is done if each of its
/// statements could be run, and the first that could not ends it.
pub open spec fn preparing_gave(connection: SqliteConnection, done: bool) -> bool {
    ||| logging_gave(connection, false) && !done
    ||| logging_gave(connection, true) && exists|logged: SqliteConnection|
        {
            &&& database_of(logged) == database_of(connection)
            &&& #[trigger] waiting_gave(logged, 5000, false)
            &&& !done
        }
    ||| logging_gave(connection, true) && exists|
        logged: SqliteConnection,
        waiting: SqliteConnection,
    |
        {
            &&& database_of(logged) == database_of(connection)
            &&& #[trigger] waiting_gave(logged, 5000, true)
            &&& busy_timeout(waiting) == 5000
            &&& database_of(waiting) == database_of(connection)
            &&& #[trigger] tables_gave(waiting, done)
        }
}

/// Whether opening the cache in the file at `path` may give this: the cache behind the connection,
/// if there is one and its database could be prepared.
pub open spec fn opening_gave(path: &str, cache: Option<ModuleCache>) -> bool {
    exists|connection: Option<SqliteConnection>|
        {
            &&& #[trigger] connecting_gave(path, connection)
            &&& match connection {
                Some(c) => preparing_gave(c, cache is Some),
                None => cache is None,
            }
            &&& cache matches Some(opened) ==> opened.database() == path@
        }
}

/// Whether a lookup of `key` through this connection may end so and leave the connection waiting
/// for `patience` milliseconds: the waiting time is shortened, the row is looked up, and the waiting
/// time is restored. If the time cannot be shortened, nothing else is done.
pub open spec fn looking_up_gave(
    connection: SqliteConnection,
    key: &ModuleKey,
    lookup: Lookup,
    patience: int,
) -> bool {
    ||| {
        &&& waiting_gave(connection, 100, false)
        &&& lookup is Failed
        &&& patience == busy_timeout(connection)
    }
    ||| {
        &&& waiting_gave(connection, 100, true)
        &&& exists|hasty: SqliteConnection, looked_up: SqliteConnection, restored: bool|
            {
                &&& busy_timeout(hasty) == 100
                &&& database_of(hasty) == database_of(connection)
                &&& #[trigger] touching_gave(hasty, key, lookup)
                &&& busy_timeout(looked_up) == 100
                &&& database_of(looked_up) == database_of(connection)
                &&& #[trigger] waiting_gave(looked_up, 5000, restored)
                &&& patience == if restored {
                    5000int
                } else {
                    100int
                }
            }
    }
}

/// What a lookup that ended so did to a private cache: the entry that was found carries the time of
/// the key, and a lookup that found none, or could not be run, changed nothing.
pub open spec fn lookup_effect(
    before: ModuleCache,
    after: ModuleCache,
    key: &ModuleKey,
    lookup: Lookup,
) -> bool {
    before.private() ==> after.private() && match lookup {
        Lookup::Found(binary) => {
            &&& found_in(before.rows(), key.identity()) == Some(binary@)
            &&& after.rows() == touched(before.rows(), key.identity(), key.last_access)
        },
        Lookup::Absent => {
            &&& found_in(before.rows(), key.identity()) is None
            &&& after.rows() == before.rows()
        },
        Lookup::Failed => after.rows() == before.rows(),
    }
}

/// Whether a lookup of `key` in the cache may end so and lead from `before` to `after`.
pub open spec fn lookup_led(
    before: ModuleCache,
    after: ModuleCache,
    key: &ModuleKey,
    lookup: Lookup,
) -> bool {
    &&& looking_up_gave(before.0, key, lookup, after.patience())
    &&& lookup_effect(before, after, key, lookup)
    &&& after.database() == before.database()
}

/// The binary that a lookup found. A lookup that failed counts as a miss.
pub open spec fn binary_of(lookup: Lookup) -> Option<Vec<u8>> {
    match lookup {
        Lookup::Found(found) => Some(found),
        _ => None,
    }
}

/// Whether looking `key` up in the cache may give this binary and lead from `before` to `after`.
pub open spec fn binary_gave(
    before: ModuleCache,
    after: ModuleCache,
    key: &ModuleKey,
    binary: Option<Vec<u8>>,
) -> bool {
    exists|lookup: Lookup| #[trigger]
        lookup_led(before, after, key, lookup) && binary == binary_of(lookup)
}

/// Whether throwing the entry of `key` away may end so and lead the cache from `before` to `after`.
pub open spec fn removing_gave(
    before: ModuleCache,
    after: ModuleCache,
    key: &ModuleKey,
    done: bool,
) -> bool {
    &&& deleting_gave(before.0, key, done)
    &&& after.patience() == before.patience()
    &&& after.database() == before.database()
    &&& before.private() ==> after.private() && after.rows() == if done {
        before.rows().remove(key.identity())
    } else {
        before.rows()
    }
}

/// Whether inserting a row for `key` through this connection may end so.
pub closed spec fn inserting_gave(
    connection: SqliteConnection,
    key: &ModuleKey,
    binary: &[u8],
    outcome: Result<(), StoreError>,
) -> bool {
    exists|c: &mut SqliteConnection|
        *c == connection && #[trigger] call_ensures(insert_row, (c, key, binary), outcome)
}

/// Whether inserting a row for `key` may end so, through a connection to this database.
pub open spec fn insertion_ends_so(
    database: Seq<char>,
    key: &ModuleKey,
    binary: &[u8],
    outcome: Result<(), StoreError>,
) -> bool {
    exists|connection: SqliteConnection|
        database_of(connection) == database && #[trigger] inserting_gave(
            connection,
            key,
            binary,
            outcome,
        )
}

/// Whether an attempt that ended so is followed by another one.
pub open spec fn is_tried_again(outcome: Result<(), StoreError>) -> bool {
    outcome matches Err(error) && error.busy() && !error.unique_violation()
}

/// Whether attempts to insert a row for `key`, the first of them through this connection, may end
/// so, one after the other. All but the last found the database busy.
pub open spec fn attempts_gave(
    connection: SqliteConnection,
    key: &ModuleKey,
    binary: &[u8],
    outcomes: Seq<Result<(), StoreError>>,
) -> bool {
    &&& 1 <= outcomes.len() <= ATTEMPTS
    &&& inserting_gave(connection, key, binary, outcomes[0])
    &&& forall|i: int|
        0 <= i < outcomes.len() ==> insertion_ends_so(
            database_of(connection),
            key,
            binary,
            #[trigger] outcomes[i],
        )
    &&& forall|i: int| 0 <= i < outcomes.len() - 1 ==> is_tried_again(#[trigger] outcomes[i])
}

/// Whether `r` is what the attempts come to: the last of them decides. A row that is there already
/// counts as stored, and a busy database is only reported after the last attempt.
pub open spec fn attempts_come_to(
    outcomes: Seq<Result<(), StoreError>>,
    r: Result<(), StoreError>,
) -> bool {
    match outcomes.last() {
        Ok(_) => r is Ok,
        Err(error) => if error.unique_violation() {
            r is Ok
        } else {
            r == Err::<(), StoreError>(error) && (error.busy() ==> outcomes.len() == ATTEMPTS)
        },
    }
}

/// Whether writing an entry may end so, lead the cache from `before` to `after`, and the outside from
/// `from` to `to`.
pub open spec fn storing_gave<O, P: Fn(O, u64) -> O>(
    pause: P,
    from: O,
    to: O,
    before: ModuleCache,
    after: ModuleCache,
    key: &ModuleKey,
    binary: &[u8],
    r: Result<(), StoreError>,
) -> bool {
    &&& exists|outcomes: Seq<Result<(), StoreError>>, chain: Seq<O>|
        {
            &&& #[trigger] attempts_gave(before.0, key, binary, outcomes)
            &&& chain.len() == outcomes.len()
            &&& chain[0] == from
            &&& chain.last() == to
            &&& #[trigger] paused(pause, chain)
            &&& attempts_come_to(outcomes, r)
        }
    &&& after.patience() == before.patience()
    &&& after.database() == before.database()
    &&& before.private() ==> after.private() && after.rows() == match r {
        Ok(_) => inserted(before.rows(), key.identity(), binary@, key.last_access),
        Err(_) => before.rows(),
    }
}

/// Prepares a database for the cache: write-ahead mode, five seconds of waiting for other writers,
/// and the tables. The first statement that cannot be run ends it.
fn prepare(connection: &mut SqliteConnection) -> (done: bool)
    ensures
        preparing_gave(*old(connection), done),
        database_of(*final(connection)) == database_of(*old(connection)),
        unshared(*final(connection)) == unshared(*old(connection)),
        done ==> busy_timeout(*final(connection)) == 5000,
        done && unshared(*old(connection)) && stored_rows(*old(connection)) == no_rows() ==> {
            &&& stored_rows(*final(connection)) == no_rows()
            &&& recorded_size(*final(connection)) == 0
        },
{
    let ghost fresh = *connection;
    let logged: bool = use_write_ahead_log(connection);
    assert(logging_gave(fresh, logged));
    if !logged {
        return false;
    }
    let ghost with_log = *connection;
    let waits: bool = set_busy_timeout(connection, 5000);
    assert(waiting_gave(with_log, 5000, waits));
    if !waits {
        return false;
    }
    let ghost waiting = *connection;
    let done: bool = create_tables(connection);
    assert(tables_gave(waiting, done));
    done
}

/// The cache of translated modules.
pub struct ModuleCache(pub SqliteConnection);

/// The name of the file that the cache is in.
pub const DATABASE_FILE: &'static str = "zluda2.db";

/// Whether the cache is in the directory that is reached from `start` by going down `below`.
pub open spec fn is_cache_directory<T>(
    override_dir: Option<T>,
    user_cache_dir: Option<T>,
    start: T,
    below: Seq<&'static str>,
) -> bool {
    match override_dir {
        Some(dir) => start == dir && below.len() == 0,
        None => user_cache_dir == Some(start) && below.len() == 2 && below[0]@ == "zluda"@
            && below[1]@ == "ComputeCache"@,
    }
}

/// The directory that the cache is in: a directory to start from, and the directories to go down
/// from there. `override_dir` is the value of `ZLUDA_CACHE_DIR`, which moves the cache somewhere
/// else, and `user_cache_dir` is where programs of this user keep their caches.
pub fn cache_directory<T>(override_dir: Option<T>, user_cache_dir: Option<T>) -> (place: Option<
    (T, Vec<&'static str>),
>)
    ensures
        match place {
            Some((start, below)) => is_cache_directory(
                override_dir,
                user_cache_dir,
                start,
                below@,
            ),
            None => override_dir is None && user_cache_dir is None,
        },
{
    match override_dir {
        Some(dir) => Some((dir, Vec::new())),
        None => match user_cache_dir {
            Some(dir) => {
                let mut below: Vec<&'static str> = Vec::new();
                below.push("zluda");
                below.push("ComputeCache");
                Some((dir, below))
            },
            None => None,
        },
    }
}

impl ModuleCache {
    /// The entries.
    pub open spec fn rows(&self) -> CacheRows {
        stored_rows(self.0)
    }

    /// Whether only this cache reaches its database. Its entries are then what it made them, and
    /// the recorded size is the size of the entries.
    pub open spec fn private(&self) -> bool {
        &&& unshared(self.0)
        &&& stored_rows(self.0).dom().finite()
        &&& recorded_size(self.0) == total_size(stored_rows(self.0))
    }

    /// The path of the database that the cache is in.
    pub open spec fn database(&self) -> Seq<char> {
        database_of(self.0)
    }

    /// For how many milliseconds a statement waits for another writer.
    pub open spec fn patience(&self) -> int {
        busy_timeout(self.0)
    }

    /// Makes the directory of the cache and gives the path of its file.
    ///
    /// `create` makes a directory below another one and gives its path, where it can, and
    /// `path_of` gives the path of a file in a directory as text. The file itself is made when the
    /// cache is opened.
    pub fn create_cache_dir_and_get_path<
        T,
        C: FnOnce(T, Vec<&'static str>) -> Option<T>,
        P: FnOnce(T, &'static str) -> String,
    >(override_dir: Option<T>, user_cache_dir: Option<T>, create: C, path_of: P) -> (path: Option<
        String,
    >)
        requires
            forall|start: T, below: Vec<&'static str>|
                is_cache_directory(override_dir, user_cache_dir, start, below@) ==> #[trigger]
                create.requires((start, below)),
            forall|start: T, below: Vec<&'static str>, dir: T|
                is_cache_directory(override_dir, user_cache_dir, start, below@) && #[trigger]
                create.ensures((start, below), Some(dir)) ==> path_of.requires(
                    (dir, DATABASE_FILE),
                ),
        ensures
            if override_dir is None && user_cache_dir is None {
                path is None
            } else {
                exists|start: T, below: Vec<&'static str>, made: Option<T>|
                    {
                        &&& is_cache_directory(override_dir, user_cache_dir, start, below@)
                        &&& #[trigger] create.ensures((start, below), made)
                        &&& match made {
                            Some(dir) => path matches Some(text) && path_of.ensures(
                                (dir, DATABASE_FILE),
                                text,
                            ),
                            None => path is None,
                        }
                    }
            },
    {
        match cache_directory(override_dir, user_cache_dir) {
            None => None,
            Some((start, below)) => {
                let made = create(start, below);
                assert(create.ensures((start, below), made));
                match made {
                    Some(dir) => Some(path_of(dir, DATABASE_FILE)),
                    None => None,
                }
            },
        }
    }

    /// Opens the cache in the file `file_path`.
    ///
    /// A statement that finds another writer at work waits for it for five seconds. That is not
    /// what makes writes durable, so its only job is to absorb a brief collision.
    pub fn open(file_path: &str) -> (cache: Option<ModuleCache>)
        ensures
            opening_gave(file_path, cache),
            cache matches Some(c) ==> c.database() == file_path@,
            cache matches Some(c) ==> c.patience() == 5000,
            cache matches Some(c) ==> file_path@ == ":memory:"@ ==> c.private() && c.rows()
                == no_rows(),
    {
        let connected = connect(file_path);
        assert(connecting_gave(file_path, connected));
        match connected {
            None => None,
            Some(connection) => {
                let mut connection = connection;
                let prepared: bool = prepare(&mut connection);
                ModuleCache::from_connection(connection, prepared)
            },
        }
    }

    /// The cache behind a connection. There is none if the database could not be prepared for it.
    pub fn from_connection(connection: SqliteConnection, prepared: bool) -> (cache: Option<
        ModuleCache,
    >)
        ensures
            cache == if prepared {
                Some(ModuleCache(connection))
            } else {
                None
            },
    {
        if prepared {
            Some(ModuleCache(connection))
        } else {
            None
        }
    }

    /// Looks an entry up and stamps it with the time of the key, saying whether the statement
    /// could be run at all.
    ///
    /// A short waiting time is set for this statement and the longer one restored afterwards, so
    /// that a busy reader does not hold up the work that has to happen anyway on a miss.
    pub fn look_up(&mut self, key: &ModuleKey) -> (lookup: Lookup)
        ensures
            lookup_led(*old(self), *final(self), key, lookup),
    {
        let ghost before = self.0;
        let shortened: bool = set_busy_timeout(&mut self.0, 100);
        assert(waiting_gave(before, 100, shortened));
        if !shortened {
            return Lookup::Failed;
        }
        let ghost hasty = self.0;
        let lookup = touch_row(&mut self.0, key);
        assert(touching_gave(hasty, key, lookup));
        // A failure here only leaves the shorter time in place for the next statement.
        let ghost looked_up = self.0;
        let restored: bool = set_busy_timeout(&mut self.0, 5000);
        assert(waiting_gave(looked_up, 5000, restored));
        proof {
            if old(self).private() {
                touching_keeps_the_size(old(self).rows(), key.identity(), key.last_access);
            }
        }
        lookup
    }

    /// Looks an entry up, refreshing its `last_access`.
    pub fn get_module_binary(&mut self, key: &ModuleKey) -> (binary: Option<Vec<u8>>)
        ensures
            binary_gave(*old(self), *final(self), key, binary),
    {
        self.look_up(key).binary()
    }

    /// Writes an entry, trying again where the database is busy. `pause` waits for a number of
    /// milliseconds; `outside` is whatever it works on, and is given back at the end.
    ///
    /// If it still fails the caller is told, rather than left to discover it by noticing that the
    /// next run translated everything again.
    pub fn insert_module<O, P: Fn(O, u64) -> O>(
        &mut self,
        key: &ModuleKey,
        binary: &[u8],
        outside: O,
        pause: P,
    ) -> (end: (O, Result<(), StoreError>))
        requires
            forall|from: O, k: u64|
                k < ATTEMPTS - 1 ==> #[trigger] pause.requires((from, 1u64 << k)),
        ensures
            storing_gave(pause, outside, end.0, *old(self), *final(self), key, binary, end.1),
    {
        let ghost rows = self.rows();
        let ghost mut outcomes: Seq<Result<(), StoreError>> = Seq::empty();
        let mut current = outside;
        let ghost mut chain: Seq<O> = seq![current];
        let mut attempt: u32 = 0;
        loop
            invariant
                attempt < ATTEMPTS,
                forall|from: O, k: u64|
                    k < ATTEMPTS - 1 ==> #[trigger] pause.requires((from, 1u64 << k)),
                chain.len() == attempt + 1,
                chain[0] == outside,
                chain.last() == current,
                paused(pause, chain),
                outcomes.len() == attempt,
                attempt == 0 ==> self.0 == old(self).0,
                attempt > 0 ==> inserting_gave(old(self).0, key, binary, outcomes[0]),
                forall|i: int|
                    0 <= i < outcomes.len() ==> insertion_ends_so(
                        old(self).database(),
                        key,
                        binary,
                        #[trigger] outcomes[i],
                    ),
                forall|i: int| 0 <= i < outcomes.len() ==> is_tried_again(#[trigger] outcomes[i]),
                rows == old(self).rows(),
                self.patience() == old(self).patience(),
                self.database() == old(self).database(),
                old(self).private() ==> self.private() && self.rows() == rows,
            decreases ATTEMPTS - attempt,
        {
            let ghost connection = self.0;
            let outcome = insert_row(&mut self.0, key, binary);
            proof {
                assert(inserting_gave(connection, key, binary, outcome));
                assert(insertion_ends_so(old(self).database(), key, binary, outcome));
                if old(self).private() {
                    inserting_adds_to_the_size(rows, key.identity(), binary@, key.last_access);
                }
                outcomes = outcomes.push(outcome);
                assert(outcomes.last() == outcome);
                assert(attempts_gave(old(self).0, key, binary, outcomes));
            }
            match after_attempt(attempt, outcome) {
                InsertStep::Stored => {
                    return (current, Ok(()));
                },
                InsertStep::Failed(error) => {
                    return (current, Err(error));
                },
                InsertStep::RetryAfter(millis) => {
                    let ghost links = chain;
                    let ghost from = current;
                    current = pause(current, millis);
                    proof {
                        chain = links.push(current);
                        assert forall|k: int| 0 <= k < chain.len() - 1 implies pause.ensures(
                            (#[trigger] chain[k], 1u64 << (k as u64)),
                            chain[k + 1],
                        ) by {
                            if k < links.len() - 1 {
                                assert(chain[k] == links[k]);
                                assert(chain[k + 1] == links[k + 1]);
                            } else {
                                assert(chain[k] == from);
                            }
                        }
                    }
                    attempt += 1;
                },
            }
        }
    }

    /// Throws an entry away. Used when what came back cannot be right, so that the next run
    /// translates again instead of being handed the same broken answer for as long as the cache
    /// lives. Whether the statement could be run is the result.
    pub fn remove_module(&mut self, key: &ModuleKey) -> (done: bool)
        ensures
            removing_gave(*old(self), *final(self), key, done),
    {
        let done: bool = delete_row(&mut self.0, key);
        assert(deleting_gave(old(self).0, key, done));
        proof {
            if old(self).private() {
                removing_takes_off_the_size(old(self).rows(), key.identity());
            }
        }
        done
    }

    /// The time that accesses are stamped with, in milliseconds. The system clock decides it.
    pub fn time_now() -> (stamp: i64)
        ensures
            clock::is_clock_time(stamp),
    {
        clock::now()
    }
}

/// The total size does not depend on which entry is counted first.
proof fn lemma_total_size_remove(rows: CacheRows, identity: CacheIdentity)
    requires
        rows.dom().finite(),
        rows.dom().contains(identity),
    ensures
        total_size(rows) == total_size(rows.remove(identity)) + rows[identity].binary.len(),
    decreases rows.dom().len(),
{
    let first = rows.dom().choose();
    assert(rows.dom().len() > 0);
    assert(rows.dom().contains(first));
    if first != identity {
        let less = rows.remove(first);
        assert(less.dom() =~= rows.dom().remove(first));
        lemma_total_size_remove(less, identity);
        let other = rows.remove(identity);
        assert(other.dom() =~= rows.dom().remove(identity));
        lemma_total_size_remove(other, first);
        assert(less.remove(identity) =~= other.remove(first));
    }
}

/// A lookup leaves the total size as it was.
pub proof fn touching_keeps_the_size(rows: CacheRows, identity: CacheIdentity, now: i64)
    requires
        rows.dom().finite(),
    ensures
        touched(rows, identity, now).dom() == rows.dom(),
        total_size(touched(rows, identity, now)) == total_size(rows),
{
    let after = touched(rows, identity, now);
    assert(after.dom() =~= rows.dom());
    if rows.dom().contains(identity) {
        lemma_total_size_remove(rows, identity);
        lemma_total_size_remove(after, identity);
        assert(after.remove(identity) =~= rows.remove(identity));
    }
}

/// A newly inserted entry adds its size to the total, and one that was already there adds nothing.
pub proof fn inserting_adds_to_the_size(
    rows: CacheRows,
    identity: CacheIdentity,
    binary: Seq<u8>,
    now: i64,
)
    requires
        rows.dom().finite(),
    ensures
        inserted(rows, identity, binary, now).dom().finite(),
        total_size(inserted(rows, identity, binary, now)) == total_size(rows) + (
        if rows.dom().contains(identity) {
            0
        } else {
            binary.len() as int
        }),
{
    if !rows.dom().contains(identity) {
        let after = inserted(rows, identity, binary, now);
        lemma_total_size_remove(after, identity);
        assert(after.remove(identity) =~= rows);
    }
}

/// A removed entry takes its size off the total.
pub proof fn removing_takes_off_the_size(rows: CacheRows, identity: CacheIdentity)
    requires
        rows.dom().finite(),
    ensures
        rows.remove(identity).dom().finite(),
        total_size(rows.remove(identity)) == total_size(rows) - (match found_in(rows, identity) {
            Some(binary) => binary.len() as int,
            None => 0int,
        }),
{
    if rows.dom().contains(identity) {
        lemma_total_size_remove(rows, identity);
    } else {
        assert(rows.remove(identity) =~= rows);
    }
}

/// A lookup gives back what was inserted, whatever else the cache holds, and goes on giving it back.
pub proof fn read_gives_back_what_was_written(
    rows: CacheRows,
    identity: CacheIdentity,
    binary: Seq<u8>,
    written: i64,
    read: i64,
)
    requires
        found_in(rows, identity) is None,
    ensures
        found_in(inserted(rows, identity, binary, written), identity) == Some(binary),
        found_in(
            touched(inserted(rows, identity, binary, written), identity, read),
            identity,
        ) == Some(binary),
{
}

/// An insertion, a lookup and a removal leave the entries under other keys alone.
pub proof fn other_entries_stay(
    rows: CacheRows,
    identity: CacheIdentity,
    other: CacheIdentity,
    binary: Seq<u8>,
    now: i64,
)
    requires
        identity != other,
    ensures
        rows.dom().contains(other) == inserted(rows, identity, binary, now).dom().contains(other),
        rows.dom().contains(other) == touched(rows, identity, now).dom().contains(other),
        rows.dom().contains(other) == rows.remove(identity).dom().contains(other),
        rows.dom().contains(other) ==> {
            &&& inserted(rows, identity, binary, now)[other] == rows[other]
            &&& touched(rows, identity, now)[other] == rows[other]
            &&& rows.remove(identity)[other] == rows[other]
        },
{
}

/// A second insertion under the same key changes nothing: neither the binary nor the time of the
/// first one.
pub proof fn second_insert_does_not_override(
    rows: CacheRows,
    identity: CacheIdentity,
    first: Seq<u8>,
    second: Seq<u8>,
    earlier: i64,
    later: i64,
)
    ensures
        inserted(inserted(rows, identity, first, earlier), identity, second, later) == inserted(
            rows,
            identity,
            first,
            earlier,
        ),
{
}

/// A removed entry is gone, and its key is free again: the next insertion takes it.
pub proof fn removed_entry_frees_its_key(
    rows: CacheRows,
    identity: CacheIdentity,
    binary: Seq<u8>,
    now: i64,
)
    ensures
        found_in(rows.remove(identity), identity) is None,
        found_in(inserted(rows.remove(identity), identity, binary, now), identity) == Some(binary),
{
}

/// A change that a call makes to the entries of a private cache.
pub enum CacheChange {
    Insertion { identity: CacheIdentity, binary: Seq<u8>, now: i64 },
    Lookup { identity: CacheIdentity, now: i64 },
    Removal { identity: CacheIdentity },
}

/// The entries after one change.
pub open spec fn changed(rows: CacheRows, change: CacheChange) -> CacheRows {
    match change {
        CacheChange::Insertion { identity, binary, now } => inserted(rows, identity, binary, now),
        CacheChange::Lookup { identity, now } => touched(rows, identity, now),
        CacheChange::Removal { identity } => rows.remove(identity),
    }
}

/// By how many bytes one change makes the entries grow.
pub open spec fn growth(rows: CacheRows, change: CacheChange) -> int {
    match change {
        CacheChange::Insertion { identity, binary, now } => if rows.dom().contains(identity) {
            0
        } else {
            binary.len() as int
        },
        CacheChange::Lookup { identity, now } => 0,
        CacheChange::Removal { identity } => match found_in(rows, identity) {
            Some(binary) => -(binary.len() as int),
            None => 0,
        },
    }
}

/// The entries after a run of changes.
pub open spec fn changed_by(rows: CacheRows, changes: Seq<CacheChange>) -> CacheRows
    decreases changes.len(),
{
    if changes.len() == 0 {
        rows
    } else {
        changed(changed_by(rows, changes.drop_last()), changes.last())
    }
}

/// By how many bytes a run of changes makes the entries grow.
pub open spec fn growth_by(rows: CacheRows, changes: Seq<CacheChange>) -> int
    decreases changes.len(),
{
    if changes.len() == 0 {
        0
    } else {
        growth_by(rows, changes.drop_last()) + growth(
            changed_by(rows, changes.drop_last()),
            changes.last(),
        )
    }
}

/// The total size follows every run of insertions, lookups and removals.
pub proof fn total_size_follows_every_run(rows: CacheRows, changes: Seq<CacheChange>)
    requires
        rows.dom().finite(),
    ensures
        changed_by(rows, changes).dom().finite(),
        total_size(changed_by(rows, changes)) == total_size(rows) + growth_by(rows, changes),
    decreases changes.len(),
{
    if changes.len() > 0 {
        total_size_follows_every_run(rows, changes.drop_last());
        let before = changed_by(rows, changes.drop_last());
        match changes.last() {
            CacheChange::Insertion { identity, binary, now } => {
                inserting_adds_to_the_size(before, identity, binary, now);
            },
            CacheChange::Lookup { identity, now } => {
                touching_keeps_the_size(before, identity, now);
            },
            CacheChange::Removal { identity } => {
                removing_takes_off_the_size(before, identity);
            },
        }
    }
}

/// Where a text stands in another.
proof fn lemma_stands_in(text: Seq<char>, pattern: Seq<char>)
    ensures
        has_substring(text, pattern) <==> exists|before: Seq<char>, after: Seq<char>|
            text == #[trigger] (before + pattern + after),
{
    if has_substring(text, pattern) {
        let at = choose|at: int| #[trigger] text::matches_at(text, pattern, at);
        let before = text.take(at);
        let after = text.skip(at + pattern.len());
        assert(text =~= before + text.subrange(at, at + pattern.len()) + after);
        assert(text == before + pattern + after);
    }
    if exists|before: Seq<char>, after: Seq<char>| text == #[trigger] (before + pattern + after) {
        let (before, after) = choose|before: Seq<char>, after: Seq<char>|
            text == #[trigger] (before + pattern + after);
        let at = before.len() as int;
        assert(text.subrange(at, at + pattern.len()) =~= pattern);
        assert(text::matches_at(text, pattern, at));
    }
}

/// A failure is one of a busy database if the database reports it and it is a serialization failure or
/// `locked` or `busy` stands in the message; a row is there already if the database reports that, by
/// its kind or by `UNIQUE constraint failed` in the message. A failure outside the database is neither.
pub proof fn failures_are_told_apart(error: &StoreError, busy: bool, unique: bool)
    requires
        call_ensures(is_busy, (error,), busy),
        call_ensures(is_unique_violation, (error,), unique),
    ensures
        error.kind == StoreErrorKind::NotDatabase ==> !busy && !unique,
        error.kind == StoreErrorKind::SerializationFailure ==> busy,
        error.kind == StoreErrorKind::UniqueViolation ==> unique,
        error.kind == StoreErrorKind::OtherDatabase || error.kind
            == StoreErrorKind::UniqueViolation ==> (busy <==> (exists|a: Seq<char>, b: Seq<char>|
            error.message@ == #[trigger] (a + "locked"@ + b)) || (exists|a: Seq<char>, b: Seq<char>|
            error.message@ == #[trigger] (a + "busy"@ + b))),
        error.kind == StoreErrorKind::OtherDatabase || error.kind
            == StoreErrorKind::SerializationFailure ==> (unique <==> exists|
            a: Seq<char>,
            b: Seq<char>,
        |
            error.message@ == #[trigger] (a + "UNIQUE constraint failed"@ + b)),
{
    lemma_stands_in(error.message@, "locked"@);
    lemma_stands_in(error.message@, "busy"@);
    lemma_stands_in(error.message@, "UNIQUE constraint failed"@);
}

/// An attempt that succeeded, or found the row there, is the last; one that found the database busy is
/// followed by another after 1, 2, 4 and 8 milliseconds, but the fifth is the last; any other failure is
/// reported as it is.
pub proof fn attempts_are_spaced(
    attempt: u32,
    outcome: Result<(), StoreError>,
    step: InsertStep,
    busy: bool,
    unique: bool,
)
    requires
        call_ensures(after_attempt, (attempt, outcome), step),
        attempt < 5,
        outcome is Err ==> call_ensures(is_busy, (&outcome->Err_0,), busy),
        outcome is Err ==> call_ensures(is_unique_violation, (&outcome->Err_0,), unique),
    ensures
        outcome is Ok || unique && outcome is Err ==> step is Stored,
        outcome is Err && !unique && (!busy || attempt == 4) ==> step == InsertStep::Failed(
            outcome->Err_0,
        ),
        outcome is Err && !unique && busy && attempt == 0 ==> step == InsertStep::RetryAfter(1),
        outcome is Err && !unique && busy && attempt == 1 ==> step == InsertStep::RetryAfter(2),
        outcome is Err && !unique && busy && attempt == 2 ==> step == InsertStep::RetryAfter(4),
        outcome is Err && !unique && busy && attempt == 3 ==> step == InsertStep::RetryAfter(8),
{
    assert(1u64 << 0u64 == 1 && 1u64 << 1u64 == 2 && 1u64 << 2u64 == 4 && 1u64 << 3u64 == 8)
        by (bit_vector);
}

/// What was found is the binary, and nothing else is one.
pub proof fn found_binary_is_given(lookup: Lookup, binary: Option<Vec<u8>>)
    requires
        call_ensures(Lookup::binary, (lookup,), binary),
    ensures
        lookup matches Lookup::Found(found) ==> binary == Some(found),
        !(lookup is Found) ==> binary is None,
{
}

/// Looking up finds the entry of the key and no other, gives its binary and stamps it with the time of
/// the key; everything else in the cache stays. What is not there is not found, and a statement that
/// could not be run changes nothing.
pub proof fn lookup_finds_the_entry_of_the_key(
    cache: &mut ModuleCache,
    key: &ModuleKey,
    lookup: Lookup,
    other: CacheIdentity,
)
    requires
        call_ensures(ModuleCache::look_up, (cache, key), lookup),
        old(cache).private(),
    ensures
        final(cache).private(),
        final(cache).database() == old(cache).database(),
        lookup matches Lookup::Found(binary) ==> {
            &&& old(cache).rows().dom().contains(key.identity())
            &&& old(cache).rows()[key.identity()].binary == binary@
            &&& final(cache).rows().dom().contains(key.identity())
            &&& final(cache).rows()[key.identity()].binary == binary@
            &&& final(cache).rows()[key.identity()].last_access == key.last_access
        },
        lookup is Absent ==> !old(cache).rows().dom().contains(key.identity()),
        !(lookup is Found) ==> final(cache).rows() == old(cache).rows(),
        final(cache).rows().dom().contains(other) <==> old(cache).rows().dom().contains(other),
        other != key.identity() && old(cache).rows().dom().contains(other)
            ==> final(cache).rows()[other] == old(cache).rows()[other],
        !(lookup is Failed) ==> final(cache).patience() == 5000 || final(cache).patience() == 100,
{
}

/// A lookup that was run waited for other writers for a tenth of a second at most, in the same
/// database.
pub proof fn lookup_is_hasty(cache: &mut ModuleCache, key: &ModuleKey, lookup: Lookup)
    requires
        call_ensures(ModuleCache::look_up, (cache, key), lookup),
        !(lookup is Failed),
    ensures
        exists|hasty: SqliteConnection|
            {
                &&& busy_timeout(hasty) == 100
                &&& database_of(hasty) == old(cache).database()
                &&& #[trigger] touching_gave(hasty, key, lookup)
            },
{
}

/// Reading gives the binary of the entry of the key, stamps the entry, and leaves the rest; where it
/// gives none, everything stays.
pub proof fn reading_gives_the_entry_of_the_key(
    cache: &mut ModuleCache,
    key: &ModuleKey,
    binary: Option<Vec<u8>>,
    other: CacheIdentity,
)
    requires
        call_ensures(ModuleCache::get_module_binary, (cache, key), binary),
        old(cache).private(),
    ensures
        final(cache).private(),
        binary is Some ==> {
            &&& old(cache).rows().dom().contains(key.identity())
            &&& old(cache).rows()[key.identity()].binary == binary->Some_0@
            &&& final(cache).rows()[key.identity()].binary == binary->Some_0@
            &&& final(cache).rows()[key.identity()].last_access == key.last_access
        },
        binary is None ==> final(cache).rows() == old(cache).rows(),
        final(cache).rows().dom().contains(other) <==> old(cache).rows().dom().contains(other),
        other != key.identity() && old(cache).rows().dom().contains(other)
            ==> final(cache).rows()[other] == old(cache).rows()[other],
{
}

/// A write that succeeded leaves an entry under the key: the one that was there, untouched, or else the
/// binary with the time of the key. One that failed leaves nothing, and neither touches another entry.
pub proof fn writing_leaves_an_entry<O, P: Fn(O, u64) -> O>(
    cache: &mut ModuleCache,
    key: &ModuleKey,
    binary: &[u8],
    outside: O,
    pause: P,
    end: (O, Result<(), StoreError>),
    other: CacheIdentity,
)
    requires
        call_ensures(
            ModuleCache::insert_module::<O, P>,
            (cache, key, binary, outside, pause),
            end,
        ),
        old(cache).private(),
    ensures
        final(cache).private(),
        final(cache).database() == old(cache).database(),
        end.1 is Ok ==> final(cache).rows().dom().contains(key.identity()),
        end.1 is Ok && !old(cache).rows().dom().contains(key.identity()) ==> {
            &&& final(cache).rows()[key.identity()].binary == binary@
            &&& final(cache).rows()[key.identity()].last_access == key.last_access
        },
        old(cache).rows().dom().contains(key.identity()) ==> final(cache).rows()[key.identity()]
            == old(cache).rows()[key.identity()],
        end.1 is Err ==> final(cache).rows() == old(cache).rows(),
        other != key.identity() ==> (final(cache).rows().dom().contains(other) <==> old(
            cache,
        ).rows().dom().contains(other)),
        other != key.identity() && old(cache).rows().dom().contains(other)
            ==> final(cache).rows()[other] == old(cache).rows()[other],
{
}

/// Whether attempts to write were made so: one to five of them, one after the other with waits of 1, 2,
/// 4 and 8 milliseconds between them, all but the last of which found the database busy, and the last
/// decides. That the row is there already is a success, and a busy database is reported only after the
/// fifth attempt.
pub open spec fn tried_so<O, P: Fn(O, u64) -> O>(
    pause: P,
    from: O,
    end: (O, Result<(), StoreError>),
    outcomes: Seq<Result<(), StoreError>>,
    chain: Seq<O>,
) -> bool {
    &&& 1 <= outcomes.len() <= 5
    &&& chain.len() == outcomes.len()
    &&& chain[0] == from
    &&& chain.last() == end.0
    &&& outcomes.len() > 1 ==> pause.ensures((chain[0], 1), chain[1])
    &&& outcomes.len() > 2 ==> pause.ensures((chain[1], 2), chain[2])
    &&& outcomes.len() > 3 ==> pause.ensures((chain[2], 4), chain[3])
    &&& outcomes.len() > 4 ==> pause.ensures((chain[3], 8), chain[4])
    &&& forall|i: int|
        0 <= i < outcomes.len() - 1 ==> (#[trigger] outcomes[i]) is Err && outcomes[i]->Err_0.busy()
            && !outcomes[i]->Err_0.unique_violation()
    &&& end.1 is Ok ==> outcomes.last() is Ok || outcomes.last()->Err_0.unique_violation()
    &&& end.1 is Err ==> outcomes.last() == end.1 && !end.1->Err_0.unique_violation() && (
    end.1->Err_0.busy() ==> outcomes.len() == 5)
}

/// Writing tries so.
pub proof fn writing_tries_again<O, P: Fn(O, u64) -> O>(
    cache: &mut ModuleCache,
    key: &ModuleKey,
    binary: &[u8],
    outside: O,
    pause: P,
    end: (O, Result<(), StoreError>),
)
    requires
        call_ensures(
            ModuleCache::insert_module::<O, P>,
            (cache, key, binary, outside, pause),
            end,
        ),
    ensures
        exists|outcomes: Seq<Result<(), StoreError>>, chain: Seq<O>|
            {
                &&& #[trigger] tried_so(pause, outside, end, outcomes, chain)
                &&& forall|i: int|
                    0 <= i < outcomes.len() ==> insertion_ends_so(
                        old(cache).database(),
                        key,
                        binary,
                        #[trigger] outcomes[i],
                    )
            },
{
    let (outcomes, chain) = choose|outcomes: Seq<Result<(), StoreError>>, chain: Seq<O>|
        {
            &&& #[trigger] attempts_gave(old(cache).0, key, binary, outcomes)
            &&& chain.len() == outcomes.len()
            &&& chain[0] == outside
            &&& chain.last() == end.0
            &&& #[trigger] paused(pause, chain)
            &&& attempts_come_to(outcomes, end.1)
        };
    assert(1u64 << 0u64 == 1 && 1u64 << 1u64 == 2 && 1u64 << 2u64 == 4 && 1u64 << 3u64 == 8)
        by (bit_vector);
    assert(outcomes.len() > 1 ==> pause.ensures((chain[0], 1u64 << (0int as u64)), chain[1]));
    assert(outcomes.len() > 2 ==> pause.ensures((chain[1], 1u64 << (1int as u64)), chain[2]));
    assert(outcomes.len() > 3 ==> pause.ensures((chain[2], 1u64 << (2int as u64)), chain[3]));
    assert(outcomes.len() > 4 ==> pause.ensures((chain[3], 1u64 << (3int as u64)), chain[4]));
    assert forall|i: int| 0 <= i < outcomes.len() - 1 implies (#[trigger] outcomes[i]) is Err
        && outcomes[i]->Err_0.busy() && !outcomes[i]->Err_0.unique_violation() by {
        assert(is_tried_again(outcomes[i]));
    }
    assert(tried_so(pause, outside, end, outcomes, chain));
}

/// Throwing an entry away takes it out of the cache and no other; a statement that could not be run
/// takes nothing out.
pub proof fn only_the_entry_of_the_key_is_thrown_away(
    cache: &mut ModuleCache,
    key: &ModuleKey,
    done: bool,
    other: CacheIdentity,
)
    requires
        call_ensures(ModuleCache::remove_module, (cache, key), done),
        old(cache).private(),
    ensures
        final(cache).private(),
        final(cache).database() == old(cache).database(),
        final(cache).patience() == old(cache).patience(),
        done ==> !final(cache).rows().dom().contains(key.identity()),
        !done ==> final(cache).rows() == old(cache).rows(),
        other != key.identity() ==> (final(cache).rows().dom().contains(other) <==> old(
            cache,
        ).rows().dom().contains(other)),
        other != key.identity() && old(cache).rows().dom().contains(other)
            ==> final(cache).rows()[other] == old(cache).rows()[other],
{
}

/// An opened cache is in the file that was named and waits for other writers for five seconds; one in
/// memory is nobody else's and starts empty.
pub proof fn opened_cache_is_in_the_file(file_path: &str, cache: Option<ModuleCache>)
    requires
        call_ensures(ModuleCache::open, (file_path,), cache),
    ensures
        cache is Some ==> cache->Some_0.database() == file_path@,
        cache is Some ==> cache->Some_0.patience() == 5000,
        cache is Some && file_path@ == ":memory:"@ ==> cache->Some_0.private() && forall|
            identity: CacheIdentity,
        |
            !#[trigger] cache->Some_0.rows().dom().contains(identity),
{
}

/// A cache is behind the connection that it was made from, if the database was prepared.
pub proof fn prepared_connection_is_a_cache(
    connection: SqliteConnection,
    prepared: bool,
    cache: Option<ModuleCache>,
)
    requires
        call_ensures(ModuleCache::from_connection, (connection, prepared), cache),
    ensures
        cache is Some <==> prepared,
        prepared ==> cache->Some_0.0 == connection,
{
}

/// The cache is where the variable says, and otherwise in `zluda/ComputeCache` below the directory of
/// the user's caches.
pub proof fn cache_is_in_this_directory<T>(
    override_dir: Option<T>,
    user_cache_dir: Option<T>,
    place: Option<(T, Vec<&'static str>)>,
)
    requires
        call_ensures(cache_directory::<T>, (override_dir, user_cache_dir), place),
    ensures
        place is None <==> override_dir is None && user_cache_dir is None,
        override_dir is Some ==> place->Some_0.0 == override_dir->Some_0
            && place->Some_0.1@.len() == 0,
        override_dir is None && user_cache_dir is Some ==> {
            &&& place->Some_0.0 == user_cache_dir->Some_0
            &&& place->Some_0.1@.len() == 2
            &&& place->Some_0.1@[0]@ == "zluda"@
            &&& place->Some_0.1@[1]@ == "ComputeCache"@
        },
{
}

/// The directory is made, and the cache is in the file `zluda2.db` in it.
pub proof fn cache_is_in_this_file<
    T,
    C: FnOnce(T, Vec<&'static str>) -> Option<T>,
    P: FnOnce(T, &'static str) -> String,
>(
    override_dir: Option<T>,
    user_cache_dir: Option<T>,
    create: C,
    path_of: P,
    path: Option<String>,
)
    requires
        call_ensures(
            ModuleCache::create_cache_dir_and_get_path::<T, C, P>,
            (override_dir, user_cache_dir, create, path_of),
            path,
        ),
    ensures
        override_dir is None && user_cache_dir is None ==> path is None,
        path is Some ==> exists|start: T, below: Vec<&'static str>, dir: T, file: &'static str|
            {
                &&& override_dir is Some ==> start == override_dir->Some_0 && below@.len() == 0
                &&& override_dir is None ==> user_cache_dir == Some(start) && below@.len() == 2
                    && below@[0]@ == "zluda"@ && below@[1]@ == "ComputeCache"@
                &&& #[trigger] create.ensures((start, below), Some(dir))
                &&& file@ == "zluda2.db"@
                &&& #[trigger] path_of.ensures((dir, file), path->Some_0)
            },
        path is None && (override_dir is Some || user_cache_dir is Some) ==> exists|
            start: T,
            below: Vec<&'static str>,
        |
            #[trigger] create.ensures((start, below), None::<T>),
{
    if override_dir is Some || user_cache_dir is Some {
        let (start, below, made) = choose|start: T, below: Vec<&'static str>, made: Option<T>|
            {
                &&& is_cache_directory(override_dir, user_cache_dir, start, below@)
                &&& #[trigger] create.ensures((start, below), made)
                &&& match made {
                    Some(dir) => path matches Some(text) && path_of.ensures(
                        (dir, DATABASE_FILE),
                        text,
                    ),
                    None => path is None,
                }
            };
        if made is Some {
            assert(create.ensures((start, below), Some(made->Some_0)));
            assert(path_of.ensures((made->Some_0, DATABASE_FILE), path->Some_0));
        } else {
            assert(create.ensures((start, below), None::<T>));
        }
    }
}

} // verus!
