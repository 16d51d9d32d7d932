use diesel::connection::{Connection, SimpleConnection};
use diesel::sql_types::{BigInt, Binary, Text};
use diesel::RunQueryDsl;
use zluda::cache::{
    after_attempt, cache_directory, is_busy, is_unique_violation, InsertStep, Lookup, ModuleCache,
    StoreError, StoreErrorKind, DATABASE_FILE,
};
use zluda::cache_key::ModuleKey;

struct Module {
    id: i64,
    hash: String,
    binary: Vec<u8>,
    last_access: i64,
}

struct Global {
    key: String,
    value: i64,
}

fn all_modules(db: &mut ModuleCache) -> Vec<Module> {
    let rows: Vec<(i64, String, Vec<u8>, i64)> =
        diesel::dsl::sql::<(BigInt, Text, Binary, BigInt)>(
            "SELECT id, hash, binary, last_access FROM modules",
        )
        .load(&mut db.0)
        .unwrap();
    rows.into_iter()
        .map(|(id, hash, binary, last_access)| Module {
            id,
            hash,
            binary,
            last_access,
        })
        .collect()
}

fn all_globals(db: &mut ModuleCache) -> Vec<Global> {
    let rows: Vec<(String, i64)> =
        diesel::dsl::sql::<(Text, BigInt)>("SELECT key, value FROM globals")
            .load(&mut db.0)
            .unwrap();
    rows.into_iter()
        .map(|(key, value)| Global { key, value })
        .collect()
}

fn key(hash: &str, last_access: i64) -> ModuleKey<'static> {
    ModuleKey {
        hash: hash.to_string(),
        compiler_version: "1.0.0",
        zluda_version: "1.0.0",
        device: "test_device",
        backend_key: "{}".to_string(),
        last_access,
    }
}

fn no_pause((): (), _millis: u64) {}

#[test]
fn empty_db_returns_no_module() {
    let mut db = ModuleCache::open(":memory:").unwrap();
    let module_binary = db.get_module_binary(&key("test_hash", 123));
    assert!(module_binary.is_none());
    let modules = all_modules(&mut db);
    assert_eq!(modules.len(), 0);
    let globals = all_globals(&mut db);
    assert_eq!(globals[0].key, "total_size");
    assert_eq!(globals[0].value, 0);
}

#[test]
fn newly_inserted_module_increments_total_size() {
    let mut db = ModuleCache::open(":memory:").unwrap();
    db.insert_module(&key("test_hash1", 123), &[1, 2, 3, 4, 5], (), no_pause)
        .1
        .unwrap();
    db.insert_module(&key("test_hash2", 124), &[1, 2, 3], (), no_pause)
        .1
        .unwrap();
    let mut modules = all_modules(&mut db);
    modules.sort_by_key(|m: &Module| m.id);
    assert_eq!(modules.len(), 2);
    assert_eq!(modules[0].hash, "test_hash1");
    assert_eq!(modules[0].last_access, 123);
    assert_eq!(modules[0].binary, &[1, 2, 3, 4, 5]);
    assert_eq!(modules[1].hash, "test_hash2");
    assert_eq!(modules[1].last_access, 124);
    assert_eq!(modules[1].binary, &[1, 2, 3]);
    let globals = all_globals(&mut db);
    assert_eq!(globals[0].key, "total_size");
    assert_eq!(globals[0].value, 8);
}

#[test]
fn get_bumps_last_access() {
    let mut db = ModuleCache::open(":memory:").unwrap();
    db.insert_module(&key("test_hash", 123), &[1, 2, 3, 4, 5], (), no_pause)
        .1
        .unwrap();
    let module_binary = db.get_module_binary(&key("test_hash", 124)).unwrap();
    let modules = all_modules(&mut db);
    assert_eq!(modules.len(), 1);
    assert_eq!(modules[0].last_access, 124);
    assert_eq!(module_binary, &[1, 2, 3, 4, 5]);
    assert_eq!(modules[0].binary, &[1, 2, 3, 4, 5]);
    let globals = all_globals(&mut db);
    assert_eq!(globals[0].key, "total_size");
    assert_eq!(globals[0].value, 5);
}

#[test]
fn removed_module_is_gone_and_total_size_follows() {
    let mut db = ModuleCache::open(":memory:").unwrap();
    let entry = |access| key("test_hash", access);
    db.insert_module(&entry(123), &[1, 2, 3, 4, 5], (), no_pause)
        .1
        .unwrap();
    assert!(db.remove_module(&entry(124)));
    assert!(db.get_module_binary(&entry(125)).is_none());
    let modules = all_modules(&mut db);
    assert_eq!(modules.len(), 0);
    // The delete trigger has to have run too, or the cache would think it is holding bytes nobody
    // can reach.
    let globals = all_globals(&mut db);
    assert_eq!(globals[0].value, 0);
    // And the key is free again, so the next translation can take it.
    db.insert_module(&entry(126), &[9, 9], (), no_pause).1.unwrap();
    assert_eq!(db.get_module_binary(&entry(127)).unwrap(), &[9, 9]);
}

#[test]
fn double_insert_does_not_override() {
    let mut db = ModuleCache::open(":memory:").unwrap();
    db.insert_module(&key("test_hash", 123), &[1, 2, 3, 4, 5], (), no_pause)
        .1
        .unwrap();
    db.insert_module(&key("test_hash", 124), &[5, 4, 3, 2, 1], (), no_pause)
        .1
        .unwrap();
    let modules = all_modules(&mut db);
    assert_eq!(modules.len(), 1);
    assert_eq!(modules[0].last_access, 123);
    assert_eq!(modules[0].binary, &[1, 2, 3, 4, 5]);
    let globals = all_globals(&mut db);
    assert_eq!(globals[0].key, "total_size");
    assert_eq!(globals[0].value, 5);
}

/// Every one of the five texts of a key tells entries apart.
#[test]
fn each_part_of_the_key_counts() {
    let mut db = ModuleCache::open(":memory:").unwrap();
    db.insert_module(&key("h", 1), &[1], (), no_pause).1.unwrap();
    let mut other = key("h", 2);
    other.compiler_version = "2";
    assert!(matches!(db.look_up(&other), Lookup::Absent));
    let mut other = key("h", 2);
    other.zluda_version = "2";
    assert!(matches!(db.look_up(&other), Lookup::Absent));
    let mut other = key("h", 2);
    other.device = "2";
    assert!(matches!(db.look_up(&other), Lookup::Absent));
    let mut other = key("h", 2);
    other.backend_key = "2".to_string();
    assert!(matches!(db.look_up(&other), Lookup::Absent));
    assert!(matches!(db.look_up(&key("g", 2)), Lookup::Absent));
    assert!(db.remove_module(&other));
    assert!(matches!(db.look_up(&key("h", 3)), Lookup::Found(b) if b == [1]));
}

/// The waiting time is short for a lookup and long again afterwards.
#[test]
fn lookup_restores_the_waiting_time() {
    let mut db = ModuleCache::open(":memory:").unwrap();
    let timeout = |db: &mut ModuleCache| -> i64 {
        diesel::dsl::sql::<BigInt>("PRAGMA busy_timeout")
            .get_result(&mut db.0)
            .unwrap()
    };
    assert_eq!(timeout(&mut db), 5000);
    assert!(matches!(db.look_up(&key("h", 1)), Lookup::Absent));
    assert_eq!(timeout(&mut db), 5000);
}

/// A cache in a file is there again when it is opened a second time.
#[test]
fn entries_survive_in_a_file() {
    let dir = tempfile::tempdir().unwrap();
    let path = dir.path().join(DATABASE_FILE);
    let path = path.to_str().unwrap();
    {
        let mut db = ModuleCache::open(path).unwrap();
        db.insert_module(&key("h", 1), &[7, 8], (), no_pause).1.unwrap();
    }
    let mut db = ModuleCache::open(path).unwrap();
    assert_eq!(db.get_module_binary(&key("h", 2)).unwrap(), &[7, 8]);
    assert_eq!(all_globals(&mut db)[0].value, 2);
    assert!(ModuleCache::open("/nonexistent-directory/cache.db").is_none());
}

/// A writer that never lets go makes the insertion give up after five attempts, with a growing
/// pause between them.
#[test]
fn insertion_gives_up_on_a_locked_database() {
    let dir = tempfile::tempdir().unwrap();
    let path = dir.path().join("busy.db");
    let path = path.to_str().unwrap();
    let mut db = ModuleCache::open(path).unwrap();
    let mut other = ModuleCache::open(path).unwrap();
    other.0.batch_execute("BEGIN IMMEDIATE;").unwrap();
    db.0.batch_execute("PRAGMA busy_timeout = 1;").unwrap();
    let (pauses, r) = db.insert_module(&key("h", 1), &[1], vec![], |mut pauses: Vec<u64>, millis| {
        pauses.push(millis);
        pauses
    });
    assert!(is_busy(&r.unwrap_err()));
    assert_eq!(pauses, vec![1, 2, 4, 8]);
    other.0.batch_execute("ROLLBACK;").unwrap();
    db.insert_module(&key("h", 1), &[1], (), no_pause).1.unwrap();
}

/// A missing table is a failure that is not worth trying again, and it is reported.
#[test]
fn other_failures_are_reported_at_once() {
    let mut db = ModuleCache::open(":memory:").unwrap();
    db.0.batch_execute("DROP TABLE modules;").unwrap();
    let (pauses, r) = db.insert_module(&key("h", 1), &[1], 0, |pauses: u32, _| pauses + 1);
    let error = r.unwrap_err();
    assert!(error.message.contains("no such table"));
    assert_eq!(error.kind, StoreErrorKind::OtherDatabase);
    assert_eq!(pauses, 0);
    assert!(matches!(db.look_up(&key("h", 1)), Lookup::Failed));
    assert!(!db.remove_module(&key("h", 1)));
}

#[test]
fn attempts_and_failures() {
    let error = |kind, message: &str| StoreError {
        kind,
        message: message.to_string(),
    };
    assert!(is_busy(&error(StoreErrorKind::OtherDatabase, "database is locked")));
    assert!(is_busy(&error(StoreErrorKind::OtherDatabase, "it is busy")));
    assert!(is_busy(&error(StoreErrorKind::SerializationFailure, "")));
    assert!(!is_busy(&error(StoreErrorKind::NotDatabase, "locked")));
    assert!(!is_busy(&error(StoreErrorKind::OtherDatabase, "disk full")));
    assert!(is_unique_violation(&error(StoreErrorKind::UniqueViolation, "")));
    assert!(is_unique_violation(&error(
        StoreErrorKind::OtherDatabase,
        "UNIQUE constraint failed: modules.hash"
    )));
    assert!(!is_unique_violation(&error(
        StoreErrorKind::NotDatabase,
        "UNIQUE constraint failed"
    )));
    assert!(!is_unique_violation(&error(StoreErrorKind::OtherDatabase, "busy")));
    assert!(matches!(after_attempt(0, Ok(())), InsertStep::Stored));
    let busy = || Err(error(StoreErrorKind::OtherDatabase, "database is locked"));
    assert!(matches!(after_attempt(0, busy()), InsertStep::RetryAfter(1)));
    assert!(matches!(after_attempt(3, busy()), InsertStep::RetryAfter(8)));
    assert!(matches!(after_attempt(4, busy()), InsertStep::Failed(_)));
    assert!(matches!(
        after_attempt(4, Err(error(StoreErrorKind::UniqueViolation, ""))),
        InsertStep::Stored
    ));
    assert!(matches!(
        after_attempt(0, Err(error(StoreErrorKind::OtherDatabase, "disk full"))),
        InsertStep::Failed(_)
    ));
}

#[test]
fn cache_directories() {
    assert_eq!(
        cache_directory(Some("/elsewhere"), Some("/home/u/.cache")),
        Some(("/elsewhere", vec![]))
    );
    assert_eq!(
        cache_directory(None, Some("/home/u/.cache")),
        Some(("/home/u/.cache", vec!["zluda", "ComputeCache"]))
    );
    assert_eq!(cache_directory::<&str>(None, None), None);
    assert_eq!(DATABASE_FILE, "zluda2.db");
    assert!(ModuleCache::time_now() > 1_600_000_000_000);
}

#[test]
fn path_of_the_cache() {
    let path = |over: Option<&str>, user: Option<&str>, works: bool| {
        ModuleCache::create_cache_dir_and_get_path(
            over.map(String::from),
            user.map(String::from),
            |dir: String, below: Vec<&'static str>| {
                let all: Vec<&str> = std::iter::once(dir.as_str()).chain(below).collect();
                works.then_some(all.join("/"))
            },
            |dir: String, file: &'static str| format!("{dir}/{file}"),
        )
    };
    assert_eq!(path(Some("/o"), Some("/u"), true), Some("/o/zluda2.db".to_string()));
    assert_eq!(
        path(None, Some("/u"), true),
        Some("/u/zluda/ComputeCache/zluda2.db".to_string())
    );
    assert_eq!(path(None, Some("/u"), false), None);
    assert_eq!(path(None, None, true), None);
}

#[test]
fn cache_needs_a_prepared_database() {
    let connect = || diesel::sqlite::SqliteConnection::establish(":memory:").unwrap();
    assert!(ModuleCache::from_connection(connect(), true).is_some());
    assert!(ModuleCache::from_connection(connect(), false).is_none());
}
