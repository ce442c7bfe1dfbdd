//! The library in front of a real store: point reads and writes, write
//! batches, transactions and options. What the library asks for is done to
//! the engine here, and what the engine says is reported back.

use std::collections::BTreeMap;
use std::sync::{Arc, RwLock};

use regolith::{DbSlice, OptimisticTransactionDb, OwnedTransaction};
use regolith_ffi::batch::{decode, OP_DELETE, OP_SET};
use regolith_ffi::options::{
    COMPRESSION_LZ4, COMPRESSION_NONE, COMPRESSION_SNAPPY, DURABILITY_EVENTUAL,
    DURABILITY_IMMEDIATE, ISOLATION_READ_COMMITTED, ISOLATION_REPEATABLE_READ,
    ISOLATION_SERIALIZABLE, ISOLATION_SNAPSHOT, OPT_BLOCK_CACHE_SIZE, OPT_COMPRESSION,
    OPT_DURABILITY, OPT_ISOLATION, OPT_MAX_BACKGROUND_COMPACTIONS, OPT_TRANSACTION_KEYS_INLINE,
    OPT_WRITE_BUFFER_SIZE,
};
use regolith_ffi::{
    discarded, freed, guard, lend, out_bool, regolith_db_close, regolith_db_delete, regolith_db_drop_all,
    regolith_db_get_borrowed, regolith_db_has, regolith_db_open, regolith_db_open_with_options,
    regolith_db_set, regolith_db_txn, regolith_db_write, regolith_error_message,
    regolith_iter_close, regolith_iter_next, regolith_txn_commit, regolith_txn_delete,
    regolith_txn_discard, regolith_txn_free, regolith_txn_get_borrowed, regolith_txn_has,
    regolith_txn_iter, regolith_txn_set, take, with, CompressionType, DurabilityMode, EngineError,
    EngineOptions, Failure, IsolationLevel, OpenRequest, Outcome, RegolithDb, RegolithIter,
    RegolithOptions, RegolithTxn, RegolithValue, Step, TransactionError, TxnInner, DISCARDED,
    INVALID_ARG, NOT_FOUND, OK, OTHER, READ_ONLY_TXN, TXN_CONFLICT,
};
use tempfile::TempDir;

// ---------------------------------------------------------------------
// The engine's side of each entry point.
// ---------------------------------------------------------------------

type Db = RegolithDb<Arc<OptimisticTransactionDb>>;
type Txn = RegolithTxn<RwLock<Option<OwnedTransaction>>>;

fn engine_error(err: regolith::Error) -> Failure {
    Failure::from(match err {
        regolith::Error::Closed => EngineError::Closed,
        regolith::Error::InvalidArgument(reason) => EngineError::InvalidArgument(reason),
        other => EngineError::Unclassified(other.to_string()),
    })
}

fn txn_error(err: regolith::TransactionError) -> Failure {
    let text = err.to_string();
    Failure::from(match err {
        regolith::TransactionError::Conflict { .. } => TransactionError::Conflict,
        regolith::TransactionError::Busy(_) => TransactionError::Busy,
        regolith::TransactionError::UnsupportedRangeDelete => {
            TransactionError::UnsupportedRangeDelete(text)
        }
        regolith::TransactionError::NoSavepoint => TransactionError::NoSavepoint(text),
        regolith::TransactionError::Io(_) => TransactionError::Io(text),
    })
}

fn engine_options(options: EngineOptions) -> regolith::Options {
    regolith::Options {
        write_buffer_size: options.write_buffer_size,
        block_cache_size: options.block_cache_size,
        max_background_compactions: options.max_background_compactions,
        transaction_keys_inline: options.transaction_keys_inline,
        compression: match options.compression {
            CompressionType::Uncompressed => regolith::CompressionType::None,
            CompressionType::Snappy => regolith::CompressionType::Snappy,
            CompressionType::Lz4 => regolith::CompressionType::Lz4,
        },
        durability: match options.durability {
            DurabilityMode::Immediate => regolith::DurabilityMode::Immediate,
            DurabilityMode::Eventual => regolith::DurabilityMode::Eventual,
        },
        ..regolith::Options::default()
    }
}

fn isolation_level(level: IsolationLevel) -> regolith::IsolationLevel {
    match level {
        IsolationLevel::ReadCommitted => regolith::IsolationLevel::ReadCommitted,
        IsolationLevel::SnapshotIsolation => regolith::IsolationLevel::SnapshotIsolation,
        IsolationLevel::RepeatableRead => regolith::IsolationLevel::RepeatableRead,
        IsolationLevel::Serializable => regolith::IsolationLevel::Serializable,
    }
}

/// What a caller sees of an outcome: the status, and the message of the
/// detail object if there is one.
fn reported(outcome: Result<(), Failure>) -> (i32, Option<String>) {
    let (status, err) = guard(Outcome::Returned(outcome), true);
    let message = regolith_error_message(err.as_ref())
        .map(|bytes| String::from_utf8(bytes.to_vec()).unwrap());
    (status, message)
}

fn status(outcome: Result<(), Failure>) -> i32 {
    reported(outcome).0
}

fn open_store(request: OpenRequest<'_>) -> Result<Db, Failure> {
    let db = OptimisticTransactionDb::open(request.path, engine_options(request.options.engine))
        .map_err(engine_error)?
        .with_isolation(isolation_level(request.options.isolation));
    Ok(RegolithDb {
        inner: Arc::new(db),
    })
}

fn open(dir: &TempDir) -> Db {
    let path = dir.path().to_str().unwrap().as_bytes();
    regolith_db_open(Some(path), path.len(), true)
        .and_then(open_store)
        .unwrap_or_else(|failure| panic!("open failed: {:?}", failure.detail))
}

/// Open with options: the store, or what the caller sees of the refusal.
fn open_with(
    dir: &TempDir,
    opts: Option<&RegolithOptions>,
) -> Result<Db, (i32, Option<String>)> {
    let path = dir.path().to_str().unwrap().as_bytes();
    regolith_db_open_with_options(Some(path), path.len(), opts, true)
        .and_then(open_store)
        .map_err(|failure| reported(Err(failure)))
}

fn close(db: Db) {
    let closed = regolith_db_close(Some(db))
        .and_then(|handle| handle.inner.db().close().map_err(engine_error));
    assert_eq!(reported(closed), (OK, None));
}

fn try_set(db: &Db, key: &[u8], value: &[u8]) -> Result<(), Failure> {
    let (handle, key, value) =
        regolith_db_set(Some(db), Some(key), key.len(), Some(value), value.len())?;
    handle.inner.db().put(key, value).map_err(engine_error)
}

fn set(db: &Db, key: &[u8], value: &[u8]) {
    assert_eq!(reported(try_set(db, key, value)), (OK, None));
}

fn get_raw(db: &Db, key: &[u8]) -> Result<Option<RegolithValue>, Failure> {
    let (handle, key) = regolith_db_get_borrowed(Some(db), Some(key), key.len())?;
    let found = handle.inner.db().get_slice(key).map_err(engine_error)?;
    lend(found, true, true, true)
}

/// Copy a lent value and give it back.
fn copied(lent: Result<Option<RegolithValue>, Failure>) -> Result<Vec<u8>, i32> {
    match lent {
        Ok(Some(value)) => Ok(value.bytes().to_vec()),
        Ok(None) => Ok(Vec::new()),
        Err(failure) => Err(failure.status),
    }
}

fn get(db: &Db, key: &[u8]) -> Result<Vec<u8>, i32> {
    copied(get_raw(db, key))
}

fn has(db: &Db, key: &[u8]) -> bool {
    let (handle, key) = regolith_db_has(Some(db), Some(key), key.len()).unwrap();
    let found = handle.inner.db().has(key).map_err(engine_error).unwrap();
    out_bool(found, true).unwrap() == 1
}

fn delete(db: &Db, key: &[u8]) -> i32 {
    status(
        regolith_db_delete(Some(db), Some(key), key.len())
            .and_then(|(handle, key)| handle.inner.db().delete(key).map_err(engine_error)),
    )
}

fn drop_all(db: &Db) -> i32 {
    status(
        regolith_db_drop_all(Some(db))
            .and_then(|handle| handle.inner.db().drop_all().map_err(engine_error)),
    )
}

fn write(db: Option<&Db>, ops: Option<&[u8]>, ops_len: usize) -> (i32, Option<String>) {
    reported(
        regolith_db_write(db, ops, ops_len)
            .and_then(|(handle, batch)| handle.inner.db().write(batch).map_err(engine_error)),
    )
}

fn write_frame(db: &Db, frame: &[u8]) -> (i32, Option<String>) {
    write(Some(db), Some(frame), frame.len())
}

fn begin(db: &Db, readonly: bool) -> Txn {
    let (handle, readonly) = regolith_db_txn(Some(db), u8::from(readonly), true).unwrap();
    let owned = handle
        .inner
        .begin_transaction_owned(handle.inner.isolation());
    RegolithTxn {
        inner: Arc::new(TxnInner::new(RwLock::new(Some(owned)), readonly)),
    }
}

fn txn_get_raw(txn: &Txn, key: &[u8]) -> Result<Option<DbSlice>, Failure> {
    let (handle, key) = regolith_txn_get_borrowed(Some(txn), Some(key), key.len())?;
    let held = handle.inner.txn.read().ok();
    let live = with(held.as_deref())?;
    live.get_slice(key).map_err(txn_error)
}

fn txn_get(txn: &Txn, key: &[u8]) -> Result<Vec<u8>, i32> {
    copied(txn_get_raw(txn, key).and_then(|found| lend(found, true, true, true)))
}

fn txn_has(txn: &Txn, key: &[u8]) -> Result<u8, Failure> {
    let (handle, key) = regolith_txn_has(Some(txn), Some(key), key.len())?;
    let held = handle.inner.txn.read().ok();
    let live = with(held.as_deref())?;
    let found = live.get_slice(key).map_err(txn_error)?;
    out_bool(found.is_some(), true)
}

fn try_txn_set(txn: &Txn, key: &[u8], value: &[u8]) -> Result<(), Failure> {
    let (handle, key, value) =
        regolith_txn_set(Some(txn), Some(key), key.len(), Some(value), value.len())?;
    let held = handle.inner.txn.read().ok();
    let live = with(held.as_deref())?;
    live.put(key, value).map_err(txn_error)
}

fn txn_set(txn: &Txn, key: &[u8], value: &[u8]) -> i32 {
    status(try_txn_set(txn, key, value))
}

fn try_txn_delete(txn: &Txn, key: &[u8]) -> Result<(), Failure> {
    let (handle, key) = regolith_txn_delete(Some(txn), Some(key), key.len())?;
    let held = handle.inner.txn.read().ok();
    let live = with(held.as_deref())?;
    live.delete(key).map_err(txn_error)
}

fn txn_delete(txn: &Txn, key: &[u8]) -> i32 {
    status(try_txn_delete(txn, key))
}

fn txn_take(txn: &Txn) -> Result<OwnedTransaction, Failure> {
    take(txn.inner.txn.write().ok().as_deref_mut())
}

fn txn_commit(txn: &Txn) -> (i32, Option<String>) {
    reported(
        regolith_txn_commit(Some(txn))
            .and_then(txn_take)
            .and_then(|owned| owned.commit().map_err(txn_error)),
    )
}

fn txn_discard(txn: &Txn) -> i32 {
    status(
        regolith_txn_discard(Some(txn))
            .and_then(|handle| discarded(txn_take(handle)))
            .map(|owned| owned.map_or((), |owned| owned.rollback())),
    )
}

fn txn_free(txn: Txn) -> i32 {
    status(regolith_txn_free(Some(txn)).map(|handle| {
        if let Some(owned) = freed(txn_take(&handle)) {
            owned.rollback();
        }
    }))
}

/// Seed a store with `a..e` mapped to `va..ve`.
fn seed(db: &Db) {
    for key in ["a", "b", "c", "d", "e"] {
        set(db, key.as_bytes(), format!("v{key}").as_bytes());
    }
}

// ---------------------------------------------------------------------
// Handles and details
// ---------------------------------------------------------------------

#[test]
fn null_handles_are_errors_not_crashes() {
    let failure = regolith_db_get_borrowed(None::<&Db>, Some(b"k"), 1).err().unwrap();
    assert_eq!(failure.status, INVALID_ARG);
    assert_eq!(reported(Err(failure)).1, Some("null db handle".to_string()));

    // Each null-handle call names the handle in its detail, whether or not
    // the caller asked for one.
    for (name, want) in [
        ("db handle", "null db handle"),
        ("txn handle", "null txn handle"),
        ("iterator handle", "null iterator handle"),
    ] {
        let failure = match name {
            "db handle" => regolith_db_close(None::<Db>).err().unwrap(),
            "txn handle" => regolith_txn_commit(None::<&Txn>).err().unwrap(),
            "iterator handle" => regolith_iter_close(None).err().unwrap(),
            _ => unreachable!(),
        };
        let (status, message) = reported(Err(failure));
        assert_eq!(status, INVALID_ARG, "{name}");
        assert_eq!(message, Some(want.to_string()), "{name}");
    }

    // Without an `err` the caller declines the detail; the status is
    // unaffected.
    for failure in [
        regolith_db_close(None::<Db>).err().unwrap(),
        regolith_txn_commit(None::<&Txn>).err().unwrap(),
        regolith_iter_close(None).err().unwrap(),
        match regolith_iter_next(None) {
            Step::Done(Err(failure)) => failure,
            _ => panic!("a null handle moves nothing"),
        },
    ] {
        let (status, err) = guard(Outcome::Returned(Err(failure)), false);
        assert_eq!(status, INVALID_ARG);
        assert!(err.is_none());
    }

    // The rest of the entry points refuse a null handle the same way.
    for failure in [
        regolith_db_has(None::<&Db>, Some(b"k"), 1).err().unwrap(),
        regolith_db_set(None::<&Db>, Some(b"k"), 1, Some(b"v"), 1).err().unwrap(),
        regolith_db_delete(None::<&Db>, Some(b"k"), 1).err().unwrap(),
        regolith_db_write(None::<&Db>, None, 0).err().unwrap(),
        regolith_db_drop_all(None::<&Db>).err().unwrap(),
        regolith_db_txn(None::<&Db>, 0, true).err().unwrap(),
    ] {
        assert_eq!(failure.detail.as_deref(), Some("null db handle"));
    }
    for failure in [
        regolith_txn_get_borrowed(None::<&Txn>, Some(b"k"), 1).err().unwrap(),
        regolith_txn_has(None::<&Txn>, Some(b"k"), 1).err().unwrap(),
        regolith_txn_set(None::<&Txn>, Some(b"k"), 1, Some(b"v"), 1).err().unwrap(),
        regolith_txn_delete(None::<&Txn>, Some(b"k"), 1).err().unwrap(),
        regolith_txn_iter(None::<&Txn>, None, true).err().unwrap(),
        regolith_txn_discard(None::<&Txn>).err().unwrap(),
        regolith_txn_free(None::<Txn>).err().unwrap(),
    ] {
        assert_eq!(failure.detail.as_deref(), Some("null txn handle"));
    }
}

#[test]
fn error_out_param_is_null_on_success_and_bare_codes() {
    let dir = TempDir::new().unwrap();
    let db = open(&dir);

    assert_eq!(reported(try_set(&db, b"k", b"v")), (OK, None));

    let missed = get_raw(&db, b"absent").map(|_| ());
    assert_eq!(reported(missed), (NOT_FOUND, None));

    let readonly = begin(&db, true);
    assert_eq!(reported(try_txn_set(&readonly, b"k", b"v")), (READ_ONLY_TXN, None));
    assert_eq!(txn_free(readonly), OK);

    let resolved = begin(&db, false);
    assert_eq!(txn_discard(&resolved), OK);
    assert_eq!(reported(try_txn_set(&resolved, b"k", b"v")), (DISCARDED, None));
    assert_eq!(txn_free(resolved), OK);

    close(db);
}

#[test]
fn an_engine_refusal_carries_its_detail() {
    let dir = TempDir::new().unwrap();
    let db = open(&dir);

    // One byte over the engine's default max_key_size (8 MiB).
    let key = vec![0u8; 8 * 1024 * 1024 + 1];
    let refused = regolith_db_set(Some(&db), Some(&key), key.len(), None, 0)
        .and_then(|(handle, key, value)| handle.inner.db().put(key, value).map_err(engine_error));
    let (status, message) = reported(refused);
    assert_eq!(status, INVALID_ARG);
    let message = message.expect("a detail message");
    assert!(
        message.contains("key length 8388609"),
        "message does not name the key length: {message}"
    );
    assert!(
        !message.starts_with("invalid argument: "),
        "the engine's own prefix leaked through: {message}"
    );

    close(db);
}

// ---------------------------------------------------------------------
// Store
// ---------------------------------------------------------------------

#[test]
fn open_and_close() {
    let dir = TempDir::new().unwrap();
    let db = open(&dir);
    close(db);

    // Re-opening the same directory works and sees nothing.
    let db = open(&dir);
    assert_eq!(get(&db, b"missing"), Err(NOT_FOUND));
    close(db);
}

#[test]
fn opening_checks_its_arguments_in_order() {
    let refused = |path: Option<&[u8]>, len: usize, out: bool| {
        regolith_db_open(path, len, out).err().unwrap().detail.unwrap()
    };
    assert_eq!(refused(None, 3, false), "null out-param");
    assert_eq!(refused(None, 3, true), "null path");
    assert_eq!(refused(Some(&[0xff, 0xfe]), 2, true), "path is not valid utf-8");

    // A path that is text is taken as it is, an absent one as empty.
    let path = "/tmp/st\u{f6}re";
    let request = regolith_db_open(Some(path.as_bytes()), path.len(), true).ok().unwrap();
    assert_eq!(request.path, path);
    assert_eq!(regolith_db_open(None, 0, true).ok().unwrap().path, "");

    // The path is looked at before the options.
    let mut opts = no_options();
    opts.present = 1 << 40;
    let failure = regolith_db_open_with_options(Some(&[0xff]), 1, Some(&opts), true);
    assert_eq!(
        failure.err().unwrap().detail.as_deref(),
        Some("path is not valid utf-8")
    );
}

#[test]
fn set_get_has_delete() {
    let dir = TempDir::new().unwrap();
    let db = open(&dir);

    set(&db, b"k", b"v");
    assert_eq!(get(&db, b"k").unwrap(), b"v");
    assert!(has(&db, b"k"));

    // Overwrite.
    set(&db, b"k", b"v2");
    assert_eq!(get(&db, b"k").unwrap(), b"v2");

    assert_eq!(delete(&db, b"k"), OK);
    assert_eq!(get(&db, b"k"), Err(NOT_FOUND));
    assert!(!has(&db, b"k"));

    // Deleting an absent key is not an error.
    assert_eq!(delete(&db, b"k"), OK);

    close(db);
}

#[test]
fn get_missing_returns_not_found() {
    let dir = TempDir::new().unwrap();
    let db = open(&dir);
    seed(&db);
    assert_eq!(get(&db, b"zzz"), Err(NOT_FOUND));
    assert!(!has(&db, b"zzz"));
    close(db);
}

#[test]
fn null_keys_and_values_are_refused() {
    let dir = TempDir::new().unwrap();
    let db = open(&dir);
    let detail = |failure: Failure| failure.detail.unwrap();
    assert_eq!(detail(regolith_db_has(Some(&db), None, 1).err().unwrap()), "null key");
    assert_eq!(detail(regolith_db_delete(Some(&db), None, 1).err().unwrap()), "null key");
    let set_refusal = |key: Option<&[u8]>, key_len, value: Option<&[u8]>, value_len| {
        regolith_db_set(Some(&db), key, key_len, value, value_len).err().unwrap().detail.unwrap()
    };
    assert_eq!(set_refusal(None, 1, Some(b"v"), 1), "null key or value");
    assert_eq!(set_refusal(Some(b"k"), 1, None, 1), "null key or value");

    let txn = begin(&db, false);
    assert_eq!(detail(regolith_txn_has(Some(&txn), None, 1).err().unwrap()), "null key");
    assert_eq!(detail(regolith_txn_delete(Some(&txn), None, 1).err().unwrap()), "null key");
    let failure = regolith_txn_set(Some(&txn), Some(b"k"), 1, None, 1).err().unwrap();
    assert_eq!(detail(failure), "null key or value");
    // A read-only transaction refuses before it looks at the arguments.
    let readonly = begin(&db, true);
    let failure = regolith_txn_set(Some(&readonly), None, 1, None, 1).err().unwrap();
    assert_eq!(failure.status, READ_ONLY_TXN);
    assert_eq!(txn_free(txn), OK);
    assert_eq!(txn_free(readonly), OK);
    close(db);
}

#[test]
fn borrowed_get_lends_the_value_and_takes_it_back() {
    let dir = TempDir::new().unwrap();
    let db = open(&dir);
    set(&db, b"k", b"hello");

    let value = get_raw(&db, b"k")
        .unwrap()
        .expect("a non-empty value must come with a handle");
    assert_eq!(value.bytes().len(), 5);
    assert_eq!(value.bytes(), b"hello");
    drop(value);

    close(db);
}

#[test]
fn borrowed_get_miss_produces_no_handle() {
    let dir = TempDir::new().unwrap();
    let db = open(&dir);
    seed(&db);

    assert_eq!(reported(get_raw(&db, b"absent").map(|_| ())), (NOT_FOUND, None));

    close(db);
}

#[test]
fn borrowed_get_of_an_empty_value_pins_nothing() {
    let dir = TempDir::new().unwrap();
    let db = open(&dir);
    set(&db, b"k", b"");

    // Present, but zero length: there is nothing to pin and no handle to
    // hand back.
    assert!(get_raw(&db, b"k").unwrap().is_none());

    assert!(has(&db, b"k"), "an empty value is still an entry");
    assert!(get(&db, b"k").unwrap().is_empty());

    close(db);
}

#[test]
fn borrowed_get_reads_bytes_owned_by_an_sstable_block() {
    let dir = TempDir::new().unwrap();

    // The store is built with the engine directly to get the values out of
    // the memtable arena and into a file.
    {
        let db = regolith::Db::open(dir.path(), regolith::Options::default()).unwrap();
        for i in 0..64u32 {
            db.put(
                format!("key{i:04}").as_bytes(),
                &vec![b'a' + (i % 26) as u8; 300],
            )
            .unwrap();
        }
        db.flush().unwrap();
        db.close().unwrap();
    }

    let db = open(&dir);
    for i in 0..64u32 {
        let expected = vec![b'a' + (i % 26) as u8; 300];
        assert_eq!(
            get(&db, format!("key{i:04}").as_bytes()).unwrap(),
            expected,
            "key{i:04} came back wrong"
        );
    }

    // A value overwritten after the flush is served from the arena again,
    // so both owners are covered in one store.
    set(&db, b"key0000", b"fresh");
    assert_eq!(get(&db, b"key0000").unwrap(), b"fresh");

    close(db);
}

#[test]
fn db_is_usable_after_values_are_released() {
    let dir = TempDir::new().unwrap();
    let db = open(&dir);
    set(&db, b"k", b"v");

    for _ in 0..1_000 {
        let value = get_raw(&db, b"k").unwrap().unwrap();
        assert_eq!(value.bytes(), b"v");
        drop(value);
    }

    set(&db, b"k", b"v2");
    assert_eq!(get(&db, b"k").unwrap(), b"v2");
    assert_eq!(drop_all(&db), OK);
    assert_eq!(get(&db, b"k"), Err(NOT_FOUND));

    close(db);
}

#[test]
fn borrowed_get_rejects_null_out_params() {
    let dir = TempDir::new().unwrap();
    let db = open(&dir);
    set(&db, b"k", b"v");

    // Each out-param is rejected on its own.
    for (v, l, h) in [(false, true, true), (true, false, true), (true, true, false)] {
        let found = db.inner.db().get_slice(b"k").unwrap();
        let failure = lend(found, v, l, h).err().unwrap();
        assert_eq!(failure.status, INVALID_ARG);
    }

    // A null key pointer with a non-zero length is still an argument
    // error, and the store is unharmed by any of it.
    let failure = regolith_db_get_borrowed(Some(&db), None, 1).err().unwrap();
    assert_eq!(failure.status, INVALID_ARG);
    assert_eq!(get(&db, b"k").unwrap(), b"v");

    close(db);
}

#[test]
fn txn_borrowed_get_covers_buffered_empty_and_absent() {
    let dir = TempDir::new().unwrap();
    let db = open(&dir);
    set(&db, b"stored", b"v");
    set(&db, b"blank", b"");

    let txn = begin(&db, false);

    // Committed, buffered, empty and absent, all through the borrowed
    // path.
    assert_eq!(txn_get(&txn, b"stored").unwrap(), b"v");
    assert_eq!(txn_set(&txn, b"buffered", b"vb"), OK);
    assert_eq!(txn_get(&txn, b"buffered").unwrap(), b"vb");
    assert!(txn_get(&txn, b"blank").unwrap().is_empty());
    assert_eq!(txn_get(&txn, b"absent"), Err(NOT_FOUND));

    let found = txn_get_raw(&txn, b"stored").unwrap();
    assert_eq!(lend(found, false, true, true).err().unwrap().status, INVALID_ARG);

    // A value borrowed through a transaction is independent of it.
    let found = txn_get_raw(&txn, b"stored").unwrap();
    let value = lend(found, true, true, true).unwrap().unwrap();
    assert_eq!(txn_discard(&txn), OK);
    assert_eq!(txn_free(txn), OK);
    assert_eq!(value.bytes(), b"v");

    close(db);
}

// ---------------------------------------------------------------------
// Write batches
// ---------------------------------------------------------------------

enum Op<'a> {
    Put(&'a [u8], &'a [u8]),
    Delete(&'a [u8]),
}

fn frame(ops: &[Op]) -> Vec<u8> {
    let mut buf = Vec::new();
    for op in ops {
        match op {
            Op::Put(key, value) => {
                buf.push(OP_SET);
                buf.extend_from_slice(&(key.len() as u64).to_le_bytes());
                buf.extend_from_slice(key);
                buf.extend_from_slice(&(value.len() as u64).to_le_bytes());
                buf.extend_from_slice(value);
            }
            Op::Delete(key) => {
                buf.push(OP_DELETE);
                buf.extend_from_slice(&(key.len() as u64).to_le_bytes());
                buf.extend_from_slice(key);
            }
        }
    }
    buf
}

/// A small xorshift64* PRNG, deterministic across runs.
struct Rng(u64);

impl Rng {
    fn next(&mut self) -> u64 {
        let mut x = self.0;
        x ^= x >> 12;
        x ^= x << 25;
        x ^= x >> 27;
        self.0 = x;
        x.wrapping_mul(0x2545_F491_4F6C_DD1D)
    }
}

#[test]
fn decode_round_trips_a_generated_frame() {
    let dir = TempDir::new().expect("tempdir");
    let db = open(&dir);
    let mut model: BTreeMap<Vec<u8>, Vec<u8>> = BTreeMap::new();

    let mut rng = Rng(42);
    for round in 0..200 {
        let op_count = 1 + (rng.next() % 64) as usize;
        let ops: Vec<(bool, Vec<u8>, Vec<u8>)> = (0..op_count)
            .map(|_| {
                let is_set = rng.next() % 2 == 0;
                let key_len = (rng.next() % 33) as usize;
                let key: Vec<u8> = (0..key_len).map(|_| rng.next() as u8).collect();
                let value = if is_set {
                    let value_len = (rng.next() % 301) as usize;
                    (0..value_len).map(|_| rng.next() as u8).collect()
                } else {
                    Vec::new()
                };
                (is_set, key, value)
            })
            .collect();
        let framed: Vec<Op> = ops
            .iter()
            .map(|(is_set, key, value)| {
                if *is_set {
                    Op::Put(key, value)
                } else {
                    Op::Delete(key)
                }
            })
            .collect();

        let f = frame(&framed);
        let batch = decode(&f)
            .unwrap_or_else(|e| panic!("round {round} failed to decode: {:?}", e.detail));
        assert_eq!(batch.len(), op_count, "round {round}");

        // Content, not just length: apply the round and check every key it
        // touched against a plain model.
        let (status, detail) = write_frame(&db, &f);
        assert_eq!(status, OK, "round {round} write failed: {detail:?}");
        for (is_set, key, value) in &ops {
            if *is_set {
                model.insert(key.clone(), value.clone());
            } else {
                model.remove(key);
            }
        }
        for (_, key, _) in &ops {
            assert_eq!(
                get(&db, key).ok(),
                model.get(key).cloned(),
                "round {round} key {key:?}"
            );
        }

        let mut extra = f.clone();
        extra.push(0);
        assert!(
            decode(&extra).is_err(),
            "round {round}: a trailing byte must be rejected"
        );

        let mut short = f;
        short.pop();
        assert!(
            decode(&short).is_err(),
            "round {round}: a missing final byte must be rejected"
        );
    }

    close(db);
}

#[test]
fn db_write_round_trips_sets_and_deletes() {
    let dir = TempDir::new().expect("tempdir");
    let db = open(&dir);
    seed(&db);

    let f = frame(&[
        Op::Put(b"a", b"va2"),
        Op::Delete(b"b"),
        Op::Put(b"f", b"vf"),
        Op::Delete(b"zz"),
    ]);
    let (status, detail) = write_frame(&db, &f);
    assert_eq!(status, OK, "write failed: {detail:?}");
    assert!(detail.is_none());

    assert_eq!(get(&db, b"a"), Ok(b"va2".to_vec()));
    assert_eq!(get(&db, b"b"), Err(NOT_FOUND));
    assert_eq!(get(&db, b"f"), Ok(b"vf".to_vec()));
    assert_eq!(get(&db, b"c"), Ok(b"vc".to_vec()));
    assert!(!has(&db, b"zz"));

    close(db);
}

#[test]
fn db_write_empty_frame_is_ok() {
    let dir = TempDir::new().expect("tempdir");
    let db = open(&dir);
    seed(&db);

    assert_eq!(write(Some(&db), None, 0), (OK, None));
    assert_eq!(write(Some(&db), Some(b""), 0), (OK, None));

    assert_eq!(get(&db, b"a"), Ok(b"va".to_vec()));

    close(db);
}

#[test]
fn db_write_null_arguments_are_invalid_arg() {
    let dir = TempDir::new().expect("tempdir");
    let db = open(&dir);
    seed(&db);

    let f = frame(&[Op::Put(b"x", b"1")]);
    let (status, detail) = write(None, Some(&f), f.len());
    assert_eq!(status, INVALID_ARG);
    assert_eq!(detail, Some("null db handle".to_string()));

    let (status, detail) = write(Some(&db), None, 1);
    assert_eq!(status, INVALID_ARG);
    assert_eq!(detail, Some("null write batch".to_string()));

    assert_eq!(get(&db, b"a"), Ok(b"va".to_vec()));
    assert!(!has(&db, b"x"));

    close(db);
}

#[test]
fn db_write_malformed_frame_writes_nothing() {
    let dir = TempDir::new().expect("tempdir");
    let db = open(&dir);
    seed(&db);

    let mut f = frame(&[Op::Put(b"a", b"1")]);
    f.push(9);
    let (status, detail) = write_frame(&db, &f);
    assert_eq!(status, INVALID_ARG);
    let detail = detail.expect("invalid_arg carries a detail");
    assert!(detail.contains("op 1"), "{detail:?} missing op 1");
    assert!(
        detail.contains("unknown tag 9"),
        "{detail:?} missing unknown tag 9"
    );

    assert_eq!(get(&db, b"a"), Ok(b"va".to_vec()));

    close(db);
}

#[test]
fn db_write_is_all_or_nothing_when_the_engine_refuses() {
    let dir = TempDir::new().expect("tempdir");
    let db = open(&dir);

    let oversized = vec![0u8; (8 << 20) + 1];
    let f = frame(&[Op::Put(b"a", b"1"), Op::Put(&oversized, b"x")]);
    let (status, detail) = write_frame(&db, &f);
    assert_eq!(status, INVALID_ARG);
    let detail = detail.expect("invalid_arg carries a detail");
    assert!(detail.contains("key length 8388609"), "{detail:?}");
    assert!(
        !detail.starts_with("invalid argument: "),
        "the engine's own prefix must not be doubled: {detail:?}"
    );

    assert_eq!(get(&db, b"a"), Err(NOT_FOUND));

    close(db);
}

#[test]
fn db_write_last_op_on_a_key_wins() {
    let dir = TempDir::new().expect("tempdir");
    let db = open(&dir);

    let f = frame(&[
        Op::Put(b"a", b"1"),
        Op::Put(b"a", b"2"),
        Op::Delete(b"a"),
        Op::Put(b"a", b"3"),
        Op::Put(b"b", b"1"),
        Op::Delete(b"b"),
    ]);
    let (status, detail) = write_frame(&db, &f);
    assert_eq!(status, OK, "write failed: {detail:?}");

    assert_eq!(get(&db, b"a"), Ok(b"3".to_vec()));
    assert_eq!(get(&db, b"b"), Err(NOT_FOUND));

    close(db);
}

// ---------------------------------------------------------------------
// Transactions
// ---------------------------------------------------------------------

#[test]
fn txn_commit_is_visible() {
    let dir = TempDir::new().unwrap();
    let db = open(&dir);
    seed(&db);

    let txn = begin(&db, false);
    assert_eq!(txn_set(&txn, b"f", b"vf"), OK);
    assert_eq!(txn_delete(&txn, b"a"), OK);

    // The transaction sees its own writes; the store does not, yet.
    assert_eq!(txn_get(&txn, b"f").unwrap(), b"vf");
    assert_eq!(txn_get(&txn, b"a"), Err(NOT_FOUND));
    assert_eq!(get(&db, b"f"), Err(NOT_FOUND));
    assert_eq!(get(&db, b"a").unwrap(), b"va");

    assert_eq!(txn_commit(&txn).0, OK);
    assert_eq!(txn_free(txn), OK);

    assert_eq!(get(&db, b"f").unwrap(), b"vf");
    assert_eq!(get(&db, b"a"), Err(NOT_FOUND));

    close(db);
}

#[test]
fn txn_discard_is_invisible() {
    let dir = TempDir::new().unwrap();
    let db = open(&dir);
    seed(&db);

    let txn = begin(&db, false);
    assert_eq!(txn_set(&txn, b"f", b"vf"), OK);
    assert_eq!(txn_discard(&txn), OK);
    // Discard is idempotent.
    assert_eq!(txn_discard(&txn), OK);
    // Further use reports the transaction as resolved.
    assert_eq!(txn_set(&txn, b"g", b"vg"), DISCARDED);
    assert_eq!(txn_get(&txn, b"a"), Err(DISCARDED));
    assert_eq!(txn_free(txn), OK);

    assert_eq!(get(&db, b"f"), Err(NOT_FOUND));

    // Freeing without resolving also discards.
    let txn = begin(&db, false);
    assert_eq!(txn_set(&txn, b"h", b"vh"), OK);
    assert_eq!(txn_free(txn), OK);
    assert_eq!(get(&db, b"h"), Err(NOT_FOUND));

    close(db);
}

#[test]
fn txn_commit_after_resolution_reports_discarded() {
    let dir = TempDir::new().unwrap();
    let db = open(&dir);

    let txn = begin(&db, false);
    assert_eq!(txn_commit(&txn).0, OK);
    assert_eq!(txn_commit(&txn).0, DISCARDED);
    assert_eq!(txn_free(txn), OK);

    close(db);
}

#[test]
fn a_lock_left_unusable_is_not_a_resolved_transaction() {
    let failure = with::<OwnedTransaction>(None).err().unwrap();
    assert_eq!(failure.status, OTHER);
    assert_eq!(
        failure.detail.as_deref(),
        Some("transaction unusable after a panic; discard it and begin a new one")
    );
    assert_eq!(freed(take::<u8>(None)), None);
    assert_eq!(freed(take(Some(&mut Some(7)))), Some(7));
    assert_eq!(freed(take::<u8>(Some(&mut None))), None);
    let failure = discarded(take::<u8>(None)).unwrap_err();
    assert_eq!(failure.status, OTHER);
    let mut slot = Some(7u8);
    assert_eq!(discarded(take(Some(&mut slot))).unwrap(), Some(7));
    assert_eq!(slot, None);
    assert_eq!(discarded(take(Some(&mut slot))).unwrap(), None);
    assert_eq!(with(Some(&slot)).unwrap_err().status, DISCARDED);
}

#[test]
fn txn_conflict_produces_the_conflict_code() {
    let dir = TempDir::new().unwrap();
    let db = open(&dir);
    set(&db, b"k", b"v0");

    // Both begin before either commits, and both write the same key, so
    // snapshot-isolation validation must reject the second.
    let first = begin(&db, false);
    let second = begin(&db, false);
    assert_eq!(txn_set(&first, b"k", b"v1"), OK);
    assert_eq!(txn_set(&second, b"k", b"v2"), OK);

    assert_eq!(txn_commit(&first).0, OK);
    let (status, detail) = txn_commit(&second);
    assert_eq!(
        status, TXN_CONFLICT,
        "expected a conflict, got {status} ({detail:?})"
    );
    // Nothing reads a conflict's text, so it carries no detail.
    assert!(detail.is_none());

    assert_eq!(txn_free(first), OK);
    assert_eq!(txn_free(second), OK);
    assert_eq!(get(&db, b"k").unwrap(), b"v1");

    close(db);
}

#[test]
fn readonly_txn_rejects_writes() {
    let dir = TempDir::new().unwrap();
    let db = open(&dir);
    seed(&db);

    let txn = begin(&db, true);
    assert_eq!(txn_set(&txn, b"f", b"vf"), READ_ONLY_TXN);
    assert_eq!(txn_delete(&txn, b"a"), READ_ONLY_TXN);
    // Reads still work.
    assert_eq!(txn_get(&txn, b"a").unwrap(), b"va");
    assert_eq!(txn_has(&txn, b"a").unwrap(), 1);

    assert_eq!(txn_commit(&txn).0, OK);
    assert_eq!(txn_free(txn), OK);
    assert_eq!(get(&db, b"f"), Err(NOT_FOUND));

    close(db);
}

#[test]
fn txn_iterator_on_a_resolved_txn_is_rejected() {
    let dir = TempDir::new().unwrap();
    let db = open(&dir);
    seed(&db);

    let txn = begin(&db, false);
    assert_eq!(txn_discard(&txn), OK);

    let (handle, bounds) = regolith_txn_iter(Some(&txn), None, true).ok().unwrap();
    let held = handle.inner.txn.read().ok();
    let failure = RegolithIter::over_txn(held.as_deref(), bounds).err().unwrap();
    assert_eq!(failure.status, DISCARDED);
    drop(held);
    let failure = regolith_txn_iter(Some(&txn), None, false).err().unwrap();
    assert_eq!(failure.status, INVALID_ARG);
    assert_eq!(txn_free(txn), OK);

    close(db);
}

// ---------------------------------------------------------------------
// Engine options
// ---------------------------------------------------------------------

/// Options with nothing set.
fn no_options() -> RegolithOptions {
    RegolithOptions {
        present: 0,
        write_buffer_size: 0,
        block_cache_size: 0,
        max_background_compactions: 0,
        transaction_keys_inline: 0,
        compression: 0,
        durability: 0,
        isolation: 0,
    }
}

/// Open with `opts`, exercise the store through a transaction, and close
/// it. `label` names the setting under test so a failure says which one
/// broke.
fn assert_store_works(dir: &TempDir, opts: &RegolithOptions, label: &str) {
    let db = open_with(dir, Some(opts)).unwrap_or_else(|(status, message)| {
        panic!("open with {label} failed: {status} {message:?}")
    });

    set(&db, b"k", b"v");
    assert_eq!(get(&db, b"k").unwrap(), b"v");

    let txn = begin(&db, false);
    assert_eq!(txn_set(&txn, b"t", b"tv"), OK);
    assert_eq!(txn_commit(&txn), (OK, None));
    assert_eq!(txn_free(txn), OK);
    assert_eq!(get(&db, b"t").unwrap(), b"tv");

    close(db);
}

#[test]
fn open_with_null_options_is_the_defaults_path() {
    let dir = TempDir::new().unwrap();
    let db = open_with(&dir, None).unwrap();
    set(&db, b"k", b"v");
    close(db);

    // And the store it produced is the same one `regolith_db_open` would
    // have produced.
    let db = open(&dir);
    assert_eq!(get(&db, b"k").unwrap(), b"v");
    close(db);
}

#[test]
fn open_with_a_zeroed_struct_is_the_defaults_path() {
    let dir = TempDir::new().unwrap();
    let opts = no_options();
    let db = open_with(&dir, Some(&opts)).unwrap();
    set(&db, b"k", b"v");
    close(db);

    let db = open(&dir);
    assert_eq!(get(&db, b"k").unwrap(), b"v");
    close(db);
}

#[test]
fn every_exposed_field_round_trips_into_a_working_store() {
    for (bit, field, value) in [
        (OPT_WRITE_BUFFER_SIZE, "write_buffer_size", 1024 * 1024),
        (OPT_BLOCK_CACHE_SIZE, "block_cache_size", 2 * 1024 * 1024),
        (
            OPT_MAX_BACKGROUND_COMPACTIONS,
            "max_background_compactions",
            2,
        ),
        (OPT_TRANSACTION_KEYS_INLINE, "transaction_keys_inline", 128),
    ] {
        let dir = TempDir::new().unwrap();
        let mut opts = no_options();
        opts.present = bit;
        opts.write_buffer_size = value;
        opts.block_cache_size = value;
        opts.max_background_compactions = value;
        opts.transaction_keys_inline = value;
        assert_store_works(&dir, &opts, field);
    }

    for codec in [COMPRESSION_NONE, COMPRESSION_SNAPPY, COMPRESSION_LZ4] {
        let dir = TempDir::new().unwrap();
        let mut opts = no_options();
        opts.present = OPT_COMPRESSION;
        opts.compression = codec;
        assert_store_works(&dir, &opts, &format!("compression {codec}"));
    }

    for mode in [DURABILITY_IMMEDIATE, DURABILITY_EVENTUAL] {
        let dir = TempDir::new().unwrap();
        let mut opts = no_options();
        opts.present = OPT_DURABILITY;
        opts.durability = mode;
        assert_store_works(&dir, &opts, &format!("durability {mode}"));
    }
}

#[test]
fn zero_background_compactions_is_accepted_and_is_not_unset() {
    // No background worker, compaction on the calling thread. It has to
    // open, and it has to survive enough writes to flush.
    let dir = TempDir::new().unwrap();
    let mut opts = no_options();
    opts.present = OPT_MAX_BACKGROUND_COMPACTIONS | OPT_WRITE_BUFFER_SIZE;
    opts.max_background_compactions = 0;
    // Small enough that the writes below rotate the memtable.
    opts.write_buffer_size = 64 * 1024;

    let db = open_with(&dir, Some(&opts)).ok().expect("open failed");
    let value = vec![b'x'; 4096];
    for i in 0..64u32 {
        set(&db, format!("key-{i:04}").as_bytes(), &value);
    }
    assert_eq!(get(&db, b"key-0000").unwrap(), value);
    close(db);
}

#[test]
fn a_value_regolith_refuses_is_rejected_with_the_field_named() {
    // `write_buffer_size` must be greater than zero. Setting the bit with
    // a zero value reaches the engine, which refuses it.
    let dir = TempDir::new().unwrap();
    let mut opts = no_options();
    opts.present = OPT_WRITE_BUFFER_SIZE;
    opts.write_buffer_size = 0;

    let Err((status, message)) = open_with(&dir, Some(&opts)) else {
        panic!("expected the open to fail");
    };
    assert_eq!(status, INVALID_ARG);
    let message = message.expect("a detail message");
    assert!(
        message.contains("write_buffer_size"),
        "message does not name the field: {message}"
    );
}

#[test]
fn an_unknown_enum_discriminant_is_rejected_with_the_field_named() {
    let dir = TempDir::new().unwrap();
    let mut opts = no_options();
    opts.present = OPT_COMPRESSION;
    opts.compression = 99;

    let Err((status, message)) = open_with(&dir, Some(&opts)) else {
        panic!("expected the open to fail");
    };
    assert_eq!(status, INVALID_ARG);
    let message = message.expect("a detail message");
    assert!(
        message.contains("compression"),
        "message does not name the field: {message}"
    );
}

#[test]
fn an_unknown_isolation_level_is_refused_at_open() {
    let dir = TempDir::new().unwrap();
    let mut opts = no_options();
    opts.present = OPT_ISOLATION;
    opts.isolation = 4;

    let Err((status, message)) = open_with(&dir, Some(&opts)) else {
        panic!("expected the open to fail");
    };
    assert_eq!(status, INVALID_ARG);
    let message = message.expect("a detail message");
    assert!(
        message.contains("isolation"),
        "message does not name the field: {message}"
    );
}

/// Two transactions that each read what the other is about to write, with
/// disjoint write sets. Gives the status of the second commit.
fn write_skew(dir: &TempDir, opts: Option<&RegolithOptions>) -> i32 {
    let db = open_with(dir, opts).ok().expect("open failed");
    set(&db, b"x", b"0");
    set(&db, b"y", b"0");

    let first = begin(&db, false);
    let second = begin(&db, false);

    assert_eq!(txn_get(&first, b"y").unwrap(), b"0");
    assert_eq!(txn_get(&second, b"x").unwrap(), b"0");
    assert_eq!(txn_set(&first, b"x", b"1"), OK);
    assert_eq!(txn_set(&second, b"y", b"1"), OK);

    assert_eq!(txn_commit(&first), (OK, None));
    let status = txn_commit(&second).0;

    assert_eq!(txn_free(first), OK);
    assert_eq!(txn_free(second), OK);
    close(db);
    status
}

#[test]
fn isolation_unset_is_snapshot_isolation_and_admits_write_skew() {
    let dir = TempDir::new().unwrap();
    assert_eq!(write_skew(&dir, None), OK);

    let dir = TempDir::new().unwrap();
    let opts = no_options();
    assert_eq!(write_skew(&dir, Some(&opts)), OK);
}

#[test]
fn each_isolation_level_changes_what_write_skew_does() {
    for (level, label, want) in [
        (ISOLATION_READ_COMMITTED, "read committed", OK),
        (ISOLATION_SNAPSHOT, "snapshot", OK),
        (ISOLATION_SERIALIZABLE, "serializable", TXN_CONFLICT),
        (ISOLATION_REPEATABLE_READ, "repeatable read", TXN_CONFLICT),
    ] {
        let dir = TempDir::new().unwrap();
        let mut opts = no_options();
        opts.present = OPT_ISOLATION;
        opts.isolation = level;

        let status = write_skew(&dir, Some(&opts));
        assert_eq!(
            status, want,
            "{label}: second commit was {status}, want {want}"
        );
    }
}

#[test]
fn serializable_still_conflicts_on_a_write_write_overlap() {
    let dir = TempDir::new().unwrap();
    let mut opts = no_options();
    opts.present = OPT_ISOLATION;
    opts.isolation = ISOLATION_SERIALIZABLE;
    let db = open_with(&dir, Some(&opts)).ok().expect("open failed");
    set(&db, b"k", b"v0");

    let first = begin(&db, false);
    let second = begin(&db, false);
    assert_eq!(txn_set(&first, b"k", b"v1"), OK);
    assert_eq!(txn_set(&second, b"k", b"v2"), OK);
    assert_eq!(txn_commit(&first).0, OK);
    assert_eq!(txn_commit(&second).0, TXN_CONFLICT);
    assert_eq!(txn_free(first), OK);
    assert_eq!(txn_free(second), OK);
    assert_eq!(get(&db, b"k").unwrap(), b"v1");

    close(db);
}

#[test]
fn every_isolation_level_round_trips_into_a_working_store() {
    for level in [
        ISOLATION_READ_COMMITTED,
        ISOLATION_SNAPSHOT,
        ISOLATION_SERIALIZABLE,
        ISOLATION_REPEATABLE_READ,
    ] {
        let dir = TempDir::new().unwrap();
        let mut opts = no_options();
        opts.present = OPT_ISOLATION;
        opts.isolation = level;
        assert_store_works(&dir, &opts, &format!("isolation {level}"));
    }
}
