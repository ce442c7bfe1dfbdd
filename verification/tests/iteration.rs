//! Iterators over a real store: the moves they ask for are performed on the
//! engine's cursor or stream, and where those land is reported back.

use std::cell::RefCell;
use std::sync::Arc;

use regolith::{
    DbSlice, OptimisticTransactionDb, OwnedSnapshotIter, OwnedTransaction, TxnScanStream,
};
use regolith_ffi::iter::MAX_BATCH_VALUE_BYTES;
use regolith_ffi::{
    lend, only, out_bool, regolith_db_drop_all, regolith_db_get_borrowed, regolith_db_iter,
    regolith_iter_batch_value, regolith_iter_close, regolith_iter_key, regolith_iter_next,
    regolith_iter_next_batch, regolith_iter_reset, regolith_iter_seek, regolith_iter_value,
    regolith_txn_iter, with, BatchStep, Cut, EngineError, Entry, Failure, KeyBatch, Landing, Move,
    RegolithDb, RegolithIter, RegolithIterOptions, RegolithTxn, Scan, ScanDirection, Step, TxnInner,
    WriteLog, DISCARDED, INVALID_ARG, NOT_FOUND, OTHER,
};
use tempfile::TempDir;

// ---------------------------------------------------------------------
// The engine's side of iteration.
// ---------------------------------------------------------------------

type Db = RegolithDb<Arc<OptimisticTransactionDb>>;

fn engine_error(err: regolith::Error) -> Failure {
    Failure::from(match err {
        regolith::Error::Closed => EngineError::Closed,
        regolith::Error::InvalidArgument(reason) => EngineError::InvalidArgument(reason),
        other => EngineError::Unclassified(other.to_string()),
    })
}

/// What an iterator reads from.
trait Reader {
    /// Perform a move. Values are not read under `keys_only`.
    fn go(&mut self, ask: Move, keys_only: bool) -> Landing;
    /// Open a stream in place of the one before, cut where something was
    /// written since the iterator was created.
    fn open(&mut self, scan: Scan) -> Result<Option<Cut>, Failure>;
}

/// A cursor over a snapshot.
struct Cursor(OwnedSnapshotIter);

impl Reader for Cursor {
    fn go(&mut self, ask: Move, keys_only: bool) -> Landing {
        match ask {
            Move::First => self.0.seek_to_first(),
            Move::Last => self.0.seek_to_last(),
            Move::Seek(key) => self.0.seek(&key),
            Move::SeekForPrev(key) => self.0.seek_for_prev(&key),
            Move::Next => self.0.next(),
            Move::Prev => self.0.prev(),
            Move::Pull | Move::Kept(_) => unreachable!("a snapshot has no stream"),
        }
        match self.0.key() {
            Some(key) if self.0.valid() => Landing::On(Entry {
                key: key.to_vec(),
                value: if keys_only { None } else { self.0.value_slice() },
            }),
            _ => match self.0.status() {
                Ok(()) => Landing::Off,
                Err(err) => Landing::Failed(engine_error(err)),
            },
        }
    }

    fn open(&mut self, _: Scan) -> Result<Option<Cut>, Failure> {
        unreachable!("a snapshot has no stream")
    }
}

/// What stood at a key before it was written.
enum Kept<'t> {
    Unread(TxnScanStream<'t>),
    Read(Option<(Vec<u8>, DbSlice)>),
}

/// A transaction, and what is kept for the iterators over it.
struct Txn<'t> {
    slot: &'t Option<OwnedTransaction>,
    log: RefCell<WriteLog>,
    kept: RefCell<Vec<Kept<'t>>>,
}

impl<'t> Txn<'t> {
    fn new(slot: &'t Option<OwnedTransaction>) -> Self {
        Txn {
            slot,
            log: RefCell::new(WriteLog::new()),
            kept: RefCell::new(Vec::new()),
        }
    }

    fn stream(&self, scan: Scan) -> Result<TxnScanStream<'t>, Failure> {
        let direction = match scan.direction {
            ScanDirection::Forward => regolith::ScanDirection::Forward,
            ScanDirection::Reverse => regolith::ScanDirection::Reverse,
        };
        let (start, end) = (scan.start.as_deref(), scan.end.as_deref());
        Ok(with(Some(self.slot))?.scan_stream_in(start, end, direction))
    }

    fn keep(&self, key: &[u8]) {
        if self.log.borrow_mut().note(key) {
            let before = self.stream(only(key)).unwrap();
            self.kept.borrow_mut().push(Kept::Unread(before));
        }
    }

    fn set(&self, key: &[u8], value: &[u8]) {
        self.keep(key);
        with(Some(self.slot)).unwrap().put(key, value).unwrap();
    }

    fn delete(&self, key: &[u8]) {
        self.keep(key);
        with(Some(self.slot)).unwrap().delete(key).unwrap();
    }

    fn iter(&self, options: &RegolithIterOptions) -> Iter<Stream<'_, 't>> {
        let txn = RegolithTxn {
            inner: Arc::new(TxnInner::new((), false)),
        };
        let (_, bounds) = regolith_txn_iter(Some(&txn), Some(options), true)
            .unwrap_or_else(|failure| panic!("txn_iter failed: {:?}", failure.detail));
        Iter {
            handle: RegolithIter::over_txn(Some(self.slot), bounds).ok().unwrap(),
            reader: Stream {
                open: None,
                mark: self.log.borrow_mut().iterator_opened(),
                txn: self,
            },
        }
    }
}

/// A stream over a transaction.
struct Stream<'a, 't> {
    txn: &'a Txn<'t>,
    open: Option<TxnScanStream<'t>>,
    mark: usize,
}

impl Reader for Stream<'_, '_> {
    fn go(&mut self, ask: Move, _: bool) -> Landing {
        let (found, status) = match ask {
            Move::Pull => {
                let stream = self.open.as_mut().expect("a stream is open");
                (stream.next(), stream.status())
            }
            Move::Kept(index) => {
                let kept = &mut self.txn.kept.borrow_mut()[index];
                if let Kept::Unread(stream) = kept {
                    let found = stream.next();
                    *kept = Kept::Read(found);
                }
                match kept {
                    Kept::Read(found) => (found.clone(), Ok(())),
                    Kept::Unread(_) => unreachable!("it was read"),
                }
            }
            _ => unreachable!("a transaction has no cursor"),
        };
        match found {
            Some((key, value)) => Landing::On(Entry {
                key,
                value: Some(value),
            }),
            None => match status {
                Ok(()) => Landing::Off,
                Err(err) => Landing::Failed(engine_error(err)),
            },
        }
    }

    fn open(&mut self, scan: Scan) -> Result<Option<Cut>, Failure> {
        self.open = None;
        let (near, cut) = self.txn.log.borrow().cut(self.mark, scan);
        self.open = Some(self.txn.stream(near)?);
        Ok(cut)
    }
}

impl Drop for Stream<'_, '_> {
    fn drop(&mut self) {
        if self.txn.log.borrow_mut().iterator_closed(self.mark) {
            self.txn.kept.borrow_mut().clear();
        }
    }
}

/// An iterator and what it reads from.
struct Iter<R> {
    handle: RegolithIter,
    reader: R,
}

impl<R: Reader> Iter<R> {
    fn finish(&mut self, mut step: Step) -> Result<bool, Failure> {
        loop {
            step = match step {
                Step::Go(ask, settle) => {
                    let landing = self.reader.go(ask, self.handle.keys_only());
                    self.handle.landed(settle, landing)
                }
                Step::Open(scan) => {
                    let opened = self.reader.open(scan);
                    self.handle.rebuilt(opened)
                }
                Step::Done(outcome) => return outcome,
            }
        }
    }

    fn finish_batch(&mut self, mut step: BatchStep) -> Result<KeyBatch, Failure> {
        loop {
            step = match step {
                BatchStep::Go(ask, settle, batch) => {
                    let landing = self.reader.go(ask, self.handle.keys_only());
                    self.handle.batch_landed(settle, batch, landing)
                }
                BatchStep::Open(scan, batch) => {
                    let opened = self.reader.open(scan);
                    self.handle.batch_rebuilt(batch, opened)
                }
                BatchStep::Done(outcome) => return outcome,
            }
        }
    }

    fn next(&mut self) -> bool {
        let step = regolith_iter_next(Some(&mut self.handle));
        let moved = self.finish(step).expect("iter_next failed");
        out_bool(moved, true).unwrap() == 1
    }

    fn seek(&mut self, key: &[u8]) -> bool {
        let step = regolith_iter_seek(Some(&mut self.handle), Some(key), key.len());
        let moved = self.finish(step).expect("iter_seek failed");
        out_bool(moved, true).unwrap() == 1
    }

    fn reset(&mut self) {
        regolith_iter_reset(Some(&mut self.handle)).expect("iter_reset failed");
    }

    fn key(&self) -> Vec<u8> {
        regolith_iter_key(Some(&self.handle), true, true).expect("iter_key failed")
    }

    fn value(&self) -> Vec<u8> {
        regolith_iter_value(Some(&self.handle), true, true).expect("iter_value failed")
    }

    fn close(self) {
        assert!(regolith_iter_close(Some(self.handle)).is_ok());
    }

    /// Walk to exhaustion, collecting `(key, value)` as strings.
    fn drain(&mut self) -> Vec<(String, String)> {
        let mut out = Vec::new();
        while self.next() {
            let key = String::from_utf8(self.key()).unwrap();
            let value = String::from_utf8(self.value()).unwrap();
            out.push((key, value));
        }
        out
    }

    /// Take one batch and decode its `[u32 key_len][key bytes]` frame.
    fn next_batch(&mut self, max_entries: usize) -> Vec<String> {
        let step =
            regolith_iter_next_batch(Some(&mut self.handle), max_entries, true, true, true);
        let batch = self.finish_batch(step).expect("next_batch failed");
        assert!(batch.count <= max_entries, "a batch must not exceed max_entries");

        let mut keys = Vec::new();
        let mut at = 0usize;
        while at < batch.frame.len() {
            let key_len =
                u32::from_le_bytes(batch.frame[at..at + 4].try_into().unwrap()) as usize;
            at += 4;
            keys.push(String::from_utf8(batch.frame[at..at + key_len].to_vec()).unwrap());
            at += key_len;
        }
        assert_eq!(keys.len(), batch.count, "framed keys must match the count");
        keys
    }

    fn batch_value(&self, idx: usize) -> Result<Vec<u8>, i32> {
        match regolith_iter_batch_value(Some(&self.handle), idx, true, true) {
            Ok(value) => Ok(value.unwrap_or(&[]).to_vec()),
            Err(failure) => Err(failure.status),
        }
    }

    /// Walk to exhaustion in batches of `max_entries`, reading every value.
    fn drain_batched(&mut self, max_entries: usize) -> Vec<(String, String)> {
        let mut out = Vec::new();
        loop {
            let batch = self.next_batch(max_entries);
            // Exhaustion is an empty batch, never a short one.
            if batch.is_empty() {
                return out;
            }
            for (idx, key) in batch.iter().enumerate() {
                let value = String::from_utf8(self.batch_value(idx).unwrap()).unwrap();
                out.push((key.clone(), value));
            }
        }
    }
}

fn open(dir: &TempDir) -> Db {
    let db = OptimisticTransactionDb::open(dir.path(), regolith::Options::default()).unwrap();
    RegolithDb {
        inner: Arc::new(db),
    }
}

fn close(db: Db) {
    db.inner.db().close().unwrap();
}

fn set(db: &Db, key: &[u8], value: &[u8]) {
    db.inner.db().put(key, value).unwrap();
}

fn get(db: &Db, key: &[u8]) -> Result<Vec<u8>, i32> {
    let (handle, key) = regolith_db_get_borrowed(Some(db), Some(key), key.len()).ok().unwrap();
    let found = handle.inner.db().get_slice(key).unwrap();
    match lend(found, true, true, true) {
        Ok(value) => Ok(value.map_or(Vec::new(), |value| value.bytes().to_vec())),
        Err(failure) => Err(failure.status),
    }
}

/// Seed a store with `a..e` mapped to `va..ve`.
fn seed(db: &Db) {
    for key in ["a", "b", "c", "d", "e"] {
        set(db, key.as_bytes(), format!("v{key}").as_bytes());
    }
}

fn opts<'a>(
    prefix: Option<&'a [u8]>,
    start: Option<&'a [u8]>,
    end: Option<&'a [u8]>,
    reverse: bool,
    keys_only: bool,
) -> RegolithIterOptions<'a> {
    RegolithIterOptions {
        prefix,
        prefix_len: prefix.map_or(0, <[u8]>::len),
        start,
        start_len: start.map_or(0, <[u8]>::len),
        end,
        end_len: end.map_or(0, <[u8]>::len),
        reverse: u8::from(reverse),
        keys_only: u8::from(keys_only),
    }
}

fn db_iter(db: &Db, options: Option<&RegolithIterOptions>) -> Iter<Cursor> {
    let (handle, iter) = regolith_db_iter(Some(db), options, true)
        .unwrap_or_else(|failure| panic!("db_iter failed: {:?}", failure.detail));
    Iter {
        handle: iter,
        reader: Cursor(handle.inner.db().snapshot().into_owned_iter()),
    }
}

fn begin(db: &Db) -> Option<OwnedTransaction> {
    Some(db.inner.begin_transaction_owned(db.inner.isolation()))
}

fn keys(entries: &[(String, String)]) -> Vec<&str> {
    entries.iter().map(|(k, _)| k.as_str()).collect()
}

// ---------------------------------------------------------------------
// Iteration over the store
// ---------------------------------------------------------------------

#[test]
fn forward_scan() {
    let dir = TempDir::new().unwrap();
    let db = open(&dir);
    seed(&db);

    let options = opts(None, None, None, false, false);
    let mut it = db_iter(&db, Some(&options));
    let entries = it.drain();
    assert_eq!(keys(&entries), ["a", "b", "c", "d", "e"]);
    assert_eq!(entries[2].1, "vc");
    // Exhausted iterators stay exhausted.
    assert!(!it.next());
    it.close();

    close(db);
}

#[test]
fn reverse_scan() {
    let dir = TempDir::new().unwrap();
    let db = open(&dir);
    seed(&db);

    let options = opts(None, None, None, true, false);
    let mut it = db_iter(&db, Some(&options));
    let entries = it.drain();
    assert_eq!(keys(&entries), ["e", "d", "c", "b", "a"]);
    it.close();

    close(db);
}

#[test]
fn drop_all_empties_the_store() {
    let dir = TempDir::new().unwrap();
    let db = open(&dir);
    seed(&db);
    assert!(db.inner.db().has(b"c").unwrap());

    regolith_db_drop_all(Some(&db)).ok().unwrap().inner.db().drop_all().unwrap();

    for key in ["a", "b", "c", "d", "e"] {
        assert_eq!(get(&db, key.as_bytes()), Err(NOT_FOUND), "{key} survived");
    }
    let options = opts(None, None, None, false, false);
    let mut it = db_iter(&db, Some(&options));
    assert!(it.drain().is_empty());
    it.close();

    // Still usable afterwards.
    set(&db, b"fresh", b"v");
    assert_eq!(get(&db, b"fresh").unwrap(), b"v");
    close(db);
}

#[test]
fn prefix_scan_includes_the_bare_prefix_and_nothing_outside_it() {
    let dir = TempDir::new().unwrap();
    let db = open(&dir);
    for key in ["j9", "k", "k1", "k2", "l0"] {
        set(&db, key.as_bytes(), format!("v{key}").as_bytes());
    }

    let prefix: &[u8] = b"k";
    let options = opts(Some(prefix), None, None, false, false);
    let mut it = db_iter(&db, Some(&options));
    // The key equal to the prefix is yielded.
    assert_eq!(keys(&it.drain()), ["k", "k1", "k2"]);
    it.close();

    let options = opts(Some(prefix), None, None, true, false);
    let mut it = db_iter(&db, Some(&options));
    assert_eq!(keys(&it.drain()), ["k2", "k1", "k"]);
    it.close();

    // A prefix overrides start/end rather than intersecting with them.
    let options = opts(Some(prefix), Some(b"a"), Some(b"zzz"), false, false);
    let mut it = db_iter(&db, Some(&options));
    assert_eq!(keys(&it.drain()), ["k", "k1", "k2"]);
    it.close();

    close(db);
}

#[test]
fn start_and_end_bounds_with_end_exclusive() {
    let dir = TempDir::new().unwrap();
    let db = open(&dir);
    seed(&db);

    let (start, end): (&[u8], &[u8]) = (b"b", b"d");

    let options = opts(None, Some(start), Some(end), false, false);
    let mut it = db_iter(&db, Some(&options));
    // "d" is the exclusive end, so it must not appear.
    assert_eq!(keys(&it.drain()), ["b", "c"]);
    it.close();

    let options = opts(None, Some(start), Some(end), true, false);
    let mut it = db_iter(&db, Some(&options));
    assert_eq!(keys(&it.drain()), ["c", "b"]);
    it.close();

    // Start alone, and end alone.
    let options = opts(None, Some(b"c"), None, false, false);
    let mut it = db_iter(&db, Some(&options));
    assert_eq!(keys(&it.drain()), ["c", "d", "e"]);
    it.close();

    let options = opts(None, None, Some(b"c"), false, false);
    let mut it = db_iter(&db, Some(&options));
    assert_eq!(keys(&it.drain()), ["a", "b"]);
    it.close();

    // A range that ends before it starts holds nothing.
    for reverse in [false, true] {
        let options = opts(None, Some(b"d"), Some(b"b"), reverse, false);
        let mut it = db_iter(&db, Some(&options));
        assert!(it.drain().is_empty());
        it.close();
    }

    close(db);
}

#[test]
fn keys_only_suppresses_values() {
    let dir = TempDir::new().unwrap();
    let db = open(&dir);
    seed(&db);

    let options = opts(None, None, None, false, true);
    let mut it = db_iter(&db, Some(&options));
    assert!(it.next());
    assert_eq!(it.key(), b"a");
    assert!(it.value().is_empty());
    it.close();

    close(db);
}

#[test]
fn keys_and_values_are_copied_out_only_from_an_entry() {
    let dir = TempDir::new().unwrap();
    let db = open(&dir);
    seed(&db);

    let mut it = db_iter(&db, None);
    let status = |outcome: Result<Vec<u8>, Failure>| outcome.unwrap_err().status;
    // Not positioned yet.
    assert_eq!(status(regolith_iter_key(Some(&it.handle), true, true)), NOT_FOUND);
    assert_eq!(status(regolith_iter_value(Some(&it.handle), true, true)), NOT_FOUND);
    assert!(it.next());
    assert_eq!(it.value(), b"va");
    assert_eq!(status(regolith_iter_key(Some(&it.handle), false, true)), INVALID_ARG);
    assert_eq!(status(regolith_iter_key(Some(&it.handle), true, false)), INVALID_ARG);
    assert_eq!(status(regolith_iter_value(Some(&it.handle), false, true)), INVALID_ARG);
    assert_eq!(status(regolith_iter_key(None, true, true)), INVALID_ARG);
    assert_eq!(status(regolith_iter_value(None, true, true)), INVALID_ARG);
    it.drain();
    assert_eq!(status(regolith_iter_key(Some(&it.handle), true, true)), NOT_FOUND);

    // A null key or handle moves nothing.
    match regolith_iter_seek(Some(&mut it.handle), None, 1) {
        Step::Done(Err(failure)) => assert_eq!(failure.detail.as_deref(), Some("null key")),
        _ => panic!("a null key is refused"),
    }
    match regolith_iter_seek(None, Some(b"k"), 1) {
        Step::Done(Err(failure)) => {
            assert_eq!(failure.detail.as_deref(), Some("null iterator handle"))
        }
        _ => panic!("a null handle is refused"),
    }
    assert_eq!(regolith_iter_reset(None).unwrap_err().status, INVALID_ARG);
    let refused = regolith_db_iter(Some(&db), None, false);
    assert_eq!(refused.err().unwrap().detail.as_deref(), Some("null out-param"));
    it.close();
    close(db);
}

#[test]
fn seek_forward_and_reverse() {
    let dir = TempDir::new().unwrap();
    let db = open(&dir);
    seed(&db);

    let options = opts(None, None, None, false, false);
    let mut it = db_iter(&db, Some(&options));
    // Exact hit.
    assert!(it.seek(b"c"));
    assert_eq!(it.key(), b"c");
    // Miss lands on the next key forward.
    assert!(it.seek(b"bb"));
    assert_eq!(it.key(), b"c");
    // Seek then continue.
    assert!(it.next());
    assert_eq!(it.key(), b"d");
    // Past the end.
    assert!(!it.seek(b"zzz"));
    it.close();

    let options = opts(None, None, None, true, false);
    let mut it = db_iter(&db, Some(&options));
    // Reverse seek lands on the greatest key <= the target.
    assert!(it.seek(b"cc"));
    assert_eq!(it.key(), b"c");
    assert!(it.next());
    assert_eq!(it.key(), b"b");
    // Before the beginning.
    assert!(!it.seek(b"0"));
    it.close();

    close(db);
}

#[test]
fn seek_is_clamped_to_the_configured_range() {
    let dir = TempDir::new().unwrap();
    let db = open(&dir);
    seed(&db);

    let (start, end): (&[u8], &[u8]) = (b"b", b"d");

    let options = opts(None, Some(start), Some(end), false, false);
    let mut it = db_iter(&db, Some(&options));
    // Below `start` clamps up to `start`, it does not yield "a".
    assert!(it.seek(b"a"));
    assert_eq!(it.key(), b"b");
    // At or above the exclusive `end` is out of range.
    assert!(!it.seek(b"d"));
    it.close();

    let options = opts(None, Some(start), Some(end), true, false);
    let mut it = db_iter(&db, Some(&options));
    // At or above `end` clamps down to the top of the range, not to "d".
    assert!(it.seek(b"zzz"));
    assert_eq!(it.key(), b"c");
    // Below `start` is out of range.
    assert!(!it.seek(b"a"));
    it.close();

    close(db);
}

#[test]
fn reset_allows_re_iteration() {
    let dir = TempDir::new().unwrap();
    let db = open(&dir);
    seed(&db);

    let options = opts(None, Some(b"b"), Some(b"e"), false, false);
    let mut it = db_iter(&db, Some(&options));
    assert_eq!(keys(&it.drain()), ["b", "c", "d"]);

    it.reset();
    assert_eq!(keys(&it.drain()), ["b", "c", "d"]);

    // Reset mid-walk, and after a seek.
    it.reset();
    assert!(it.next());
    assert_eq!(it.key(), b"b");
    assert!(it.seek(b"d"));
    assert_eq!(it.key(), b"d");
    it.reset();
    assert!(it.next());
    assert_eq!(it.key(), b"b");
    it.close();

    // And in reverse.
    let options = opts(None, Some(b"b"), Some(b"e"), true, false);
    let mut it = db_iter(&db, Some(&options));
    assert_eq!(keys(&it.drain()), ["d", "c", "b"]);
    it.reset();
    assert_eq!(keys(&it.drain()), ["d", "c", "b"]);
    it.close();

    close(db);
}

#[test]
fn store_iterator_sees_a_snapshot_from_its_creation() {
    let dir = TempDir::new().unwrap();
    let db = open(&dir);
    seed(&db);

    let options = opts(None, None, None, false, false);
    let mut it = db_iter(&db, Some(&options));
    set(&db, b"bb", b"vbb");
    assert_eq!(keys(&it.drain()), ["a", "b", "c", "d", "e"]);
    it.close();

    let mut it = db_iter(&db, Some(&options));
    assert_eq!(keys(&it.drain()), ["a", "b", "bb", "c", "d", "e"]);
    it.close();

    close(db);
}

#[test]
fn null_iter_options_means_full_forward_iteration() {
    let dir = TempDir::new().unwrap();
    let db = open(&dir);
    seed(&db);

    let mut it = db_iter(&db, None);
    assert_eq!(keys(&it.drain()), ["a", "b", "c", "d", "e"]);
    it.close();

    close(db);
}

// ---------------------------------------------------------------------
// Iteration over a transaction
// ---------------------------------------------------------------------

#[test]
fn txn_iterator_merges_buffered_writes() {
    let dir = TempDir::new().unwrap();
    let db = open(&dir);
    seed(&db);

    let slot = begin(&db);
    let txn = Txn::new(&slot);
    // An insert, an overwrite and a delete, all uncommitted.
    txn.set(b"bb", b"vbb");
    txn.set(b"c", b"vc2");
    txn.delete(b"d");

    let options = opts(None, None, None, false, false);
    let mut it = txn.iter(&options);
    let entries = it.drain();
    assert_eq!(keys(&entries), ["a", "b", "bb", "c", "e"]);
    assert_eq!(entries[3].1, "vc2");

    // Reset re-walks the same merged view.
    it.reset();
    assert_eq!(keys(&it.drain()), ["a", "b", "bb", "c", "e"]);
    it.close();

    // Reverse.
    let options = opts(None, None, None, true, false);
    let mut it = txn.iter(&options);
    assert_eq!(keys(&it.drain()), ["e", "c", "bb", "b", "a"]);
    it.close();

    // Bounds, with `end` exclusive.
    let options = opts(None, Some(b"b"), Some(b"c"), false, false);
    let mut it = txn.iter(&options);
    assert_eq!(keys(&it.drain()), ["b", "bb"]);
    it.close();

    // Prefix.
    let options = opts(Some(b"b"), None, None, false, false);
    let mut it = txn.iter(&options);
    assert_eq!(keys(&it.drain()), ["b", "bb"]);
    it.close();

    // Seek, forward and reverse, including the range clamp.
    let options = opts(None, Some(b"b"), Some(b"e"), false, false);
    let mut it = txn.iter(&options);
    assert!(it.seek(b"ba"));
    assert_eq!(it.key(), b"bb");
    assert!(it.next());
    assert_eq!(it.key(), b"c");
    assert!(it.seek(b"a"));
    assert_eq!(it.key(), b"b", "seek below start must clamp to start");
    assert!(!it.seek(b"e"));
    it.close();

    let options = opts(None, Some(b"b"), Some(b"e"), true, false);
    let mut it = txn.iter(&options);
    assert!(it.seek(b"bb"));
    assert_eq!(it.key(), b"bb", "reverse seek must include the target");
    assert!(it.next());
    assert_eq!(it.key(), b"b");
    assert!(it.seek(b"zzz"));
    assert_eq!(it.key(), b"c", "seek above end must clamp to the range");
    assert!(!it.seek(b"a"));
    it.close();

    drop(txn);
    slot.unwrap().rollback();
    close(db);
}

#[test]
fn txn_iterator_captures_the_buffered_writes_when_it_is_created() {
    let dir = TempDir::new().unwrap();
    let db = open(&dir);
    seed(&db);

    let slot = begin(&db);
    let txn = Txn::new(&slot);
    txn.set(b"bb", b"vbb");
    let options = opts(None, None, None, false, false);
    let mut it = txn.iter(&options);
    txn.set(b"cc", b"vcc");
    assert_eq!(keys(&it.drain()), ["a", "b", "bb", "c", "d", "e"]);

    // Nor does a reset show them, ...
    txn.delete(b"a");
    txn.set(b"b", b"vb2");
    it.reset();
    let again = it.drain();
    assert_eq!(keys(&again), ["a", "b", "bb", "c", "d", "e"]);
    assert_eq!(again[1].1, "vb");

    // ... nor a seek, back or forth.
    assert!(it.seek(b"cb"));
    assert_eq!(it.key(), b"d");
    assert!(it.seek(b""));
    assert_eq!(it.key(), b"a");
    assert!(it.next());
    assert_eq!((it.key(), it.value()), (b"b".to_vec(), b"vb".to_vec()));
    it.reset();
    assert_eq!(it.next_batch(4), ["a", "b", "bb", "c"]);
    assert_eq!(it.batch_value(1), Ok(b"vb".to_vec()));
    it.close();

    let mut it = txn.iter(&options);
    assert_eq!(keys(&it.drain()), ["b", "bb", "c", "cc", "d", "e"]);
    it.close();

    // A write in the middle of a walk, ahead of it and behind it, in
    // reverse.
    let options = opts(None, None, None, true, false);
    let mut it = txn.iter(&options);
    assert!(it.next());
    assert!(it.next());
    assert_eq!(it.key(), b"d");
    txn.set(b"ca", b"vca");
    txn.set(b"z", b"vz");
    assert_eq!(keys(&it.drain()), ["cc", "c", "bb", "b"]);
    assert!(it.seek(b"zz"));
    assert_eq!(it.key(), b"e");
    assert!(it.seek(b"cb"));
    assert_eq!(it.key(), b"c");
    it.reset();
    assert_eq!(keys(&it.drain()), ["e", "d", "cc", "c", "bb", "b"]);
    it.close();

    drop(txn);
    slot.unwrap().rollback();
    close(db);
}

#[test]
fn a_far_seek_in_a_txn_can_be_undone() {
    let dir = TempDir::new().unwrap();
    let db = open(&dir);
    seed(&db);

    let slot = begin(&db);
    let txn = Txn::new(&slot);
    let options = opts(None, Some(b"b"), None, false, true);
    let mut it = txn.iter(&options);
    // Past what was handed out so far, with a value left out.
    assert!(it.seek(b"d"));
    assert_eq!((it.key(), it.value()), (b"d".to_vec(), Vec::new()));
    // Back to what the seek passed over.
    assert!(it.seek(b"bx"));
    assert_eq!(it.key(), b"c");
    // And on across what was handed out.
    assert_eq!(keys(&it.drain()), ["d", "e"]);
    assert!(!it.seek(b"f"));
    assert!(!it.next());
    it.reset();
    assert_eq!(keys(&it.drain()), ["b", "c", "d", "e"]);
    it.close();

    drop(txn);
    slot.unwrap().rollback();
    close(db);
}

#[test]
fn a_seek_in_a_txn_reads_nothing_that_it_passes_over() {
    let dir = TempDir::new().unwrap();
    let db = open(&dir);
    seed(&db);
    let serializable = regolith::IsolationLevel::Serializable;

    // Sought past, and written by another: no conflict.
    let slot = Some(db.inner.begin_transaction_owned(serializable));
    let txn = Txn::new(&slot);
    let options = opts(None, None, None, false, false);
    let mut it = txn.iter(&options);
    assert!(it.seek(b"d"));
    txn.set(b"f", b"vf");
    assert!(it.seek(b"e"));
    set(&db, b"a", b"other");
    set(&db, b"b", b"other");
    it.close();
    drop(txn);
    slot.unwrap().commit().unwrap();

    // Handed out, and written by another: a conflict.
    let slot = Some(db.inner.begin_transaction_owned(serializable));
    let txn = Txn::new(&slot);
    let mut it = txn.iter(&options);
    assert!(it.next());
    assert_eq!(it.value(), b"other");
    txn.set(b"g", b"vg");
    set(&db, b"a", b"again");
    it.close();
    drop(txn);
    assert!(slot.unwrap().commit().is_err());

    close(db);
}

#[test]
fn an_iterator_hides_writes_of_each_kind_around_where_it_stands() {
    let dir = TempDir::new().unwrap();
    let db = open(&dir);
    seed(&db);

    let slot = begin(&db);
    let txn = Txn::new(&slot);
    txn.set(b"bb", b"vbb");
    txn.delete(b"d");
    for reverse in [false, true] {
        let options = opts(None, None, None, reverse, false);
        let mut want: Vec<(String, String)> = vec![
            ("a".to_string(), "va".to_string()),
            ("b".to_string(), "vb".to_string()),
            ("bb".to_string(), "vbb".to_string()),
            ("c".to_string(), "vc".to_string()),
            ("e".to_string(), "ve".to_string()),
        ];
        if reverse {
            want.reverse();
        }
        // Every write before the walk, and the iterator never stepped.
        let mut before = txn.iter(&options);
        let mut during = txn.iter(&options);
        assert!(during.next());
        let first = (during.key(), during.value());
        assert_eq!(first.0, want[0].0.as_bytes());

        txn.set(b"aa", b"new");
        txn.set(b"bb", b"newer");
        txn.set(b"bb", b"newest");
        txn.delete(b"c");
        txn.set(b"d", b"back");
        txn.delete(b"aa");
        txn.set(b"e", b"new");
        txn.delete(b"e");

        assert_eq!(before.drain(), want);
        assert_eq!(during.drain(), want[1..]);
        for size in 1..=6 {
            before.reset();
            assert_eq!(before.drain_batched(size), want);
        }
        // What was written is seen by an iterator that is created now.
        let mut after = txn.iter(&options);
        let mut keys_now = vec!["a", "b", "bb", "d"];
        if reverse {
            keys_now.reverse();
        }
        assert_eq!(keys(&after.drain()), keys_now);
        // Iterators that were created at different times do not disturb
        // each other.
        txn.set(b"b", b"changed");
        after.reset();
        assert_eq!(keys(&after.drain()), keys_now);
        assert!(after.seek(b"b"));
        assert_eq!(after.value(), b"vb");
        assert!(before.seek(b"bb"));
        assert_eq!(before.value(), b"vbb");
        after.close();
        assert!(before.seek(b"c"));
        assert_eq!(before.value(), b"vc");
        before.close();
        during.close();

        // Back to where it was.
        txn.set(b"bb", b"vbb");
        txn.set(b"b", b"vb");
        txn.set(b"c", b"vc");
        txn.set(b"e", b"ve");
        txn.delete(b"d");
    }

    drop(txn);
    slot.unwrap().rollback();
    close(db);
}

#[test]
fn keys_are_noted_only_for_iterators_that_need_them() {
    let mut log = WriteLog::new();
    // No iterator is open.
    assert!(!log.note(b"k"));

    let first = log.iterator_opened();
    assert!(log.note(b"k"));
    assert!(!log.note(b"k"), "what stood there was kept already");
    assert!(log.note(b"m"));
    let second = log.iterator_opened();
    assert_eq!((first, second), (0, 2));
    assert!(log.note(b"k"), "the second iterator is to see the first write");
    assert!(!log.note(b"k"));

    let whole = |direction| Scan {
        start: None,
        end: None,
        direction,
    };
    // The key that comes first in the direction, and its first note.
    let (near, cut) = log.cut(first, whole(ScanDirection::Forward));
    assert_eq!(near.end.as_deref(), Some(&b"k"[..]));
    let cut = cut.unwrap();
    assert_eq!(cut.index(), 0);
    assert_eq!(cut.rest().start.as_deref(), Some(&b"k\0"[..]));
    let (near, cut) = log.cut(first, whole(ScanDirection::Reverse));
    assert_eq!(near.start.as_deref(), Some(&b"m\0"[..]));
    let cut = cut.unwrap();
    assert_eq!(cut.index(), 1);
    assert_eq!(cut.rest().end.as_deref(), Some(&b"m"[..]));
    assert_eq!(log.cut(second, whole(ScanDirection::Forward)).1.unwrap().index(), 2);
    // Nothing noted lies in the scan.
    let (near, cut) = log.cut(first, only(b"l"));
    assert!(cut.is_none());
    assert_eq!(near.start.as_deref(), Some(&b"l"[..]));
    assert!(near.contains(b"l") && !near.contains(b"k") && !near.contains(b"l\0"));

    assert!(!log.iterator_closed(second));
    assert!(!log.iterator_closed(second), "it was closed already");
    assert!(log.iterator_closed(first));
    assert!(!log.note(b"k"));
    assert!(log.cut(0, whole(ScanDirection::Forward)).1.is_none());
}

/// A stream whose first read fails.
struct Brittle {
    opened: Vec<(Option<Vec<u8>>, Option<Vec<u8>>)>,
    left: Vec<Vec<u8>>,
}

impl Reader for Brittle {
    fn go(&mut self, _: Move, _: bool) -> Landing {
        if self.opened.len() == 1 {
            return Landing::Failed(Failure::other("bad block"));
        }
        match self.left.pop() {
            Some(key) => Landing::On(Entry { key, value: None }),
            None => Landing::Off,
        }
    }

    fn open(&mut self, scan: Scan) -> Result<Option<Cut>, Failure> {
        self.opened.push((scan.start, scan.end));
        self.left = vec![b"e".to_vec()];
        Ok(None)
    }
}

#[test]
fn a_reset_or_a_seek_opens_a_stream_over_what_is_left() {
    for reverse in [false, true] {
        let options = opts(None, Some(b"b"), Some(b"f"), reverse, false);
        let bounds = regolith_ffi::bounds_from(Some(&options));
        let mut it = Iter {
            handle: RegolithIter::over_txn(Some(&Some(())), bounds).ok().unwrap(),
            reader: Brittle {
                opened: Vec::new(),
                left: Vec::new(),
            },
        };
        let step = regolith_iter_next(Some(&mut it.handle));
        assert_eq!(it.finish(step).unwrap_err().status, OTHER);
        // The failure does not outlast the stream.
        it.reset();
        assert!(it.next());
        assert!(!it.next());
        for target in ["c", "a", "z"] {
            assert!(it.seek(target.as_bytes()));
        }
        let scans: Vec<(&[u8], &[u8])> = it
            .reader
            .opened
            .iter()
            .map(|(start, end)| (start.as_deref().unwrap(), end.as_deref().unwrap()))
            .collect();
        let want: [(&[u8], &[u8]); 5] = if reverse {
            [(b"b", b"f"), (b"b", b"f"), (b"b", b"c\0"), (b"b", b"a\0"), (b"b", b"f")]
        } else {
            [(b"b", b"f"), (b"b", b"f"), (b"c", b"f"), (b"b", b"f"), (b"z", b"f")]
        };
        assert_eq!(scans, want);
        it.close();
    }
}

/// A stream over a transaction that is resolved at some point.
struct Resolving {
    left: Vec<Vec<u8>>,
    live: bool,
}

impl Reader for Resolving {
    fn go(&mut self, ask: Move, _: bool) -> Landing {
        assert!(matches!(ask, Move::Pull), "a transaction has no cursor");
        assert!(self.live, "a resolved transaction is not read");
        if self.left.is_empty() {
            return Landing::Off;
        }
        Landing::On(Entry {
            key: self.left.remove(0),
            value: None,
        })
    }

    fn open(&mut self, scan: Scan) -> Result<Option<Cut>, Failure> {
        assert!(scan.end.is_none() && scan.direction == ScanDirection::Forward);
        if !self.live {
            return Err(Failure::code(DISCARDED));
        }
        self.left = vec![b"a".to_vec(), b"b".to_vec()];
        Ok(None)
    }
}

fn resolving(live: bool) -> Iter<Resolving> {
    let bounds = regolith_ffi::bounds_from(None);
    Iter {
        handle: RegolithIter::over_txn(Some(&Some(())), bounds).ok().unwrap(),
        reader: Resolving {
            left: Vec::new(),
            live,
        },
    }
}

#[test]
fn a_walk_ends_when_the_transaction_is_resolved() {
    let mut it = resolving(true);
    assert!(it.next());
    it.reader.live = false;

    // A reset is free; the walk that follows it opens a stream.
    it.reset();
    let step = regolith_iter_next(Some(&mut it.handle));
    assert_eq!(it.finish(step).unwrap_err().status, DISCARDED);
    assert_eq!(
        regolith_iter_key(Some(&it.handle), true, true).err().unwrap().status,
        NOT_FOUND
    );
    assert!(!it.next());

    let step = regolith_iter_seek(Some(&mut it.handle), Some(b"a"), 1);
    assert_eq!(it.finish(step).unwrap_err().status, DISCARDED);
    assert!(!it.next());
    assert!(it.next_batch(2).is_empty());

    it.reset();
    let step = regolith_iter_next_batch(Some(&mut it.handle), 2, true, true, true);
    assert_eq!(it.finish_batch(step).err().unwrap().status, DISCARDED);
}

#[test]
fn an_iterator_whose_txn_was_resolved_before_its_first_step() {
    let mut it = resolving(false);
    let step = regolith_iter_next(Some(&mut it.handle));
    assert_eq!(it.finish(step).unwrap_err().status, DISCARDED);
}

// ---------------------------------------------------------------------
// Batched iteration
// ---------------------------------------------------------------------

#[test]
fn batch_smaller_than_the_range() {
    let dir = TempDir::new().unwrap();
    let db = open(&dir);
    seed(&db);

    let options = opts(None, None, None, false, false);
    let mut it = db_iter(&db, Some(&options));

    // First batch positions rather than advancing, so `a` is included.
    assert_eq!(it.next_batch(2), ["a", "b"]);
    assert_eq!(it.batch_value(0).unwrap(), b"va");
    assert_eq!(it.batch_value(1).unwrap(), b"vb");
    assert_eq!(it.next_batch(2), ["c", "d"]);
    assert_eq!(it.batch_value(0).unwrap(), b"vc");
    assert_eq!(it.next_batch(2), ["e"]);
    assert_eq!(it.batch_value(0).unwrap(), b"ve");
    assert!(it.next_batch(2).is_empty());
    assert!(it.next_batch(2).is_empty());

    it.close();
    close(db);
}

#[test]
fn batch_on_an_exact_multiple_of_the_range() {
    let dir = TempDir::new().unwrap();
    let db = open(&dir);
    seed(&db);

    let options = opts(None, None, None, false, false);

    // A batch exactly the size of the range fills, and the next one is
    // the empty batch that reports exhaustion.
    let mut it = db_iter(&db, Some(&options));
    assert_eq!(it.next_batch(5), ["a", "b", "c", "d", "e"]);
    assert_eq!(it.batch_value(4).unwrap(), b"ve");
    assert!(it.next_batch(5).is_empty());
    it.close();

    // And so does a range that is an exact multiple of a smaller batch.
    let options = opts(None, Some(b"a"), Some(b"e"), false, false);
    let mut it = db_iter(&db, Some(&options));
    assert_eq!(it.next_batch(2), ["a", "b"]);
    assert_eq!(it.next_batch(2), ["c", "d"]);
    assert!(it.next_batch(2).is_empty());
    it.close();

    close(db);
}

#[test]
fn batch_on_an_empty_range_is_exhausted_immediately() {
    let dir = TempDir::new().unwrap();
    let db = open(&dir);
    seed(&db);

    let options = opts(None, Some(b"x"), Some(b"z"), false, false);
    let mut it = db_iter(&db, Some(&options));
    assert!(it.next_batch(8).is_empty());
    // Nothing was retained, so every index is out of range.
    assert_eq!(it.batch_value(0), Err(INVALID_ARG));
    it.close();

    close(db);
}

#[test]
fn batch_matches_single_stepping_for_reverse_and_prefix() {
    let dir = TempDir::new().unwrap();
    let db = open(&dir);
    seed(&db);
    set(&db, b"pre:1", b"v1");
    set(&db, b"pre:2", b"v2");

    for max_entries in [1usize, 2, 256] {
        let options = opts(None, None, None, true, false);
        let mut it = db_iter(&db, Some(&options));
        assert_eq!(
            it.drain_batched(max_entries),
            vec![
                ("pre:2".to_string(), "v2".to_string()),
                ("pre:1".to_string(), "v1".to_string()),
                ("e".to_string(), "ve".to_string()),
                ("d".to_string(), "vd".to_string()),
                ("c".to_string(), "vc".to_string()),
                ("b".to_string(), "vb".to_string()),
                ("a".to_string(), "va".to_string()),
            ],
            "reverse batch of {max_entries}"
        );
        it.close();

        let options = opts(Some(b"pre:"), None, None, false, false);
        let mut it = db_iter(&db, Some(&options));
        let entries = it.drain_batched(max_entries);
        assert_eq!(
            keys(&entries),
            ["pre:1", "pre:2"],
            "prefix batch of {max_entries}"
        );
        it.close();

        // Reverse and prefix together, which is where the clamping and
        // the batch's first-iteration rule interact.
        let options = opts(Some(b"pre:"), None, None, true, false);
        let mut it = db_iter(&db, Some(&options));
        let entries = it.drain_batched(max_entries);
        assert_eq!(
            keys(&entries),
            ["pre:2", "pre:1"],
            "reverse prefix of {max_entries}"
        );
        it.close();
    }

    close(db);
}

#[test]
fn batches_of_any_size_drain_what_single_steps_drain() {
    let dir = TempDir::new().unwrap();
    let db = open(&dir);
    seed(&db);
    let slot = begin(&db);
    let txn = Txn::new(&slot);
    txn.set(b"bb", b"vbb");
    txn.delete(b"d");

    for (reverse, keys_only) in [(false, false), (true, false), (false, true), (true, true)] {
        let options = opts(None, Some(b"b"), None, reverse, keys_only);
        let of_store = db_iter(&db, Some(&options)).drain();
        let of_txn = txn.iter(&options).drain();
        assert_eq!(of_store.len(), 4);
        assert_eq!(of_txn.len(), 4);
        assert!(of_txn.iter().all(|(_, value)| value.is_empty() == keys_only));
        for size in 1..=6 {
            assert_eq!(db_iter(&db, Some(&options)).drain_batched(size), of_store);
            let mut it = txn.iter(&options);
            assert_eq!(it.drain_batched(size), of_txn);
            // And once more, from what is remembered.
            it.reset();
            assert_eq!(it.drain_batched(size), of_txn);
        }
    }

    drop(txn);
    slot.unwrap().rollback();
    close(db);
}

#[test]
fn batch_under_keys_only_retains_no_values() {
    let dir = TempDir::new().unwrap();
    let db = open(&dir);
    seed(&db);

    let options = opts(None, None, None, false, true);
    let mut it = db_iter(&db, Some(&options));

    assert_eq!(it.next_batch(3), ["a", "b", "c"]);
    // In-range indices read back empty rather than failing.
    for idx in 0..3 {
        assert_eq!(it.batch_value(idx), Ok(Vec::new()));
    }
    // Past the batch is still an error, so a caller bug is not hidden by
    // the empty-value rule.
    assert_eq!(it.batch_value(3), Err(INVALID_ARG));

    assert_eq!(it.next_batch(3), ["d", "e"]);
    assert_eq!(it.batch_value(1), Ok(Vec::new()));
    assert_eq!(it.batch_value(2), Err(INVALID_ARG));

    it.close();
    close(db);
}

#[test]
fn batch_after_a_seek_includes_the_sought_entry() {
    let dir = TempDir::new().unwrap();
    let db = open(&dir);
    seed(&db);

    let options = opts(None, None, None, false, false);
    let mut it = db_iter(&db, Some(&options));

    // Exact match.
    assert!(it.seek(b"c"));
    assert_eq!(it.next_batch(2), ["c", "d"]);
    assert_eq!(it.batch_value(0).unwrap(), b"vc");
    // Inexact, landing on the next key up.
    assert!(it.seek(b"bb"));
    assert_eq!(it.next_batch(8), ["c", "d", "e"]);
    // A seek past the end yields an empty batch, not the range again.
    assert!(!it.seek(b"z"));
    assert!(it.next_batch(8).is_empty());
    // Single stepping keeps its own contract: it advances past the seek.
    assert!(it.seek(b"c"));
    assert!(it.next());
    assert_eq!(it.key(), b"d");
    // And a batch taken after that stepping continues from there.
    assert_eq!(it.next_batch(8), ["e"]);
    it.close();

    // In reverse a seek lands on the greatest key <= the target, and the
    // batch starts there and walks down.
    let options = opts(None, None, None, true, false);
    let mut it = db_iter(&db, Some(&options));
    assert!(it.seek(b"bb"));
    assert_eq!(it.next_batch(8), ["b", "a"]);
    assert_eq!(it.batch_value(0).unwrap(), b"vb");
    it.close();

    close(db);
}

#[test]
fn reset_re_batches_from_the_start_of_the_range() {
    let dir = TempDir::new().unwrap();
    let db = open(&dir);
    seed(&db);

    let options = opts(None, Some(b"b"), Some(b"e"), false, false);
    let mut it = db_iter(&db, Some(&options));

    assert_eq!(keys(&it.drain_batched(2)), ["b", "c", "d"]);
    assert!(it.next_batch(2).is_empty());

    it.reset();
    assert_eq!(keys(&it.drain_batched(2)), ["b", "c", "d"]);

    // A reset mid-batch, and a reset after a seek, both return to the
    // start of the range.
    it.reset();
    assert_eq!(it.next_batch(2), ["b", "c"]);
    it.reset();
    assert_eq!(it.next_batch(2), ["b", "c"]);
    assert!(it.seek(b"d"));
    it.reset();
    assert_eq!(it.next_batch(2), ["b", "c"]);
    // The reset dropped the previous batch's values with it.
    assert_eq!(it.batch_value(2), Err(INVALID_ARG));

    it.close();
    close(db);
}

#[test]
fn batch_values_are_addressable_by_index_and_bounded() {
    let dir = TempDir::new().unwrap();
    let db = open(&dir);
    // Values distinct in length as well as content, so a wrong index
    // cannot pass.
    for (i, key) in ["k1", "k2", "k3"].iter().enumerate() {
        set(&db, key.as_bytes(), "x".repeat(i + 1).as_bytes());
    }
    set(&db, b"k4", b"");

    let options = opts(None, None, None, false, false);
    let mut it = db_iter(&db, Some(&options));

    assert_eq!(it.next_batch(4), ["k1", "k2", "k3", "k4"]);
    assert_eq!(it.batch_value(0).unwrap(), b"x");
    assert_eq!(it.batch_value(1).unwrap(), b"xx");
    assert_eq!(it.batch_value(2).unwrap(), b"xxx");
    // An empty value is a zero-length read, not a failure.
    assert_eq!(it.batch_value(3), Ok(Vec::new()));
    // Out of range, including absurdly so.
    assert_eq!(it.batch_value(4), Err(INVALID_ARG));
    assert_eq!(it.batch_value(usize::MAX), Err(INVALID_ARG));

    // Reading out of order, and twice, is fine.
    assert_eq!(it.batch_value(2).unwrap(), b"xxx");
    assert_eq!(it.batch_value(0).unwrap(), b"x");

    // Null out-params and a zero batch size are argument errors.
    let refused = regolith_iter_batch_value(Some(&it.handle), 0, false, true);
    assert_eq!(refused.unwrap_err().status, INVALID_ARG);
    let refusal = |step: BatchStep| match step {
        BatchStep::Done(Err(failure)) => (failure.status, failure.detail.unwrap()),
        _ => panic!("expected a refusal"),
    };
    assert_eq!(
        refusal(regolith_iter_next_batch(Some(&mut it.handle), 0, true, true, true)),
        (INVALID_ARG, "max_entries must be at least 1".to_string())
    );
    assert_eq!(
        refusal(regolith_iter_next_batch(None, 8, true, true, true)),
        (INVALID_ARG, "null iterator handle".to_string())
    );
    assert_eq!(
        refusal(regolith_iter_next_batch(Some(&mut it.handle), 8, true, true, false)),
        (INVALID_ARG, "null out-param".to_string())
    );
    // A refused call leaves the batch as it was.
    assert_eq!(it.batch_value(1).unwrap(), b"xx");

    it.close();
    close(db);
}

#[test]
fn batch_over_a_txn_merges_buffered_writes() {
    let dir = TempDir::new().unwrap();
    let db = open(&dir);
    seed(&db);

    let slot = begin(&db);
    let txn = Txn::new(&slot);
    txn.set(b"bb", b"vbb");
    txn.set(b"c", b"updated");

    let options = opts(None, None, None, false, false);
    let mut it = txn.iter(&options);
    assert_eq!(
        it.drain_batched(2),
        vec![
            ("a".to_string(), "va".to_string()),
            ("b".to_string(), "vb".to_string()),
            ("bb".to_string(), "vbb".to_string()),
            ("c".to_string(), "updated".to_string()),
            ("d".to_string(), "vd".to_string()),
            ("e".to_string(), "ve".to_string()),
        ]
    );

    // A seek rebuilds the stream; the batch after it still starts on the
    // entry sought.
    assert!(it.seek(b"bb"));
    assert_eq!(it.next_batch(2), ["bb", "c"]);
    assert_eq!(it.batch_value(1).unwrap(), b"updated");

    it.close();
    drop(txn);
    slot.unwrap().rollback();
    close(db);
}

#[test]
fn a_batch_stops_at_the_retained_value_cap() {
    let dir = TempDir::new().unwrap();
    let db = open(&dir);
    let half = vec![1u8; MAX_BATCH_VALUE_BYTES / 2];
    for key in ["a", "b", "c", "d", "e"] {
        set(&db, key.as_bytes(), &half);
    }
    let mut it = db_iter(&db, None);
    // The entry that reaches the cap is the last one in.
    assert_eq!(it.next_batch(8), ["a", "b"]);
    assert_eq!(it.batch_value(1).unwrap(), half);
    assert_eq!(it.next_batch(8), ["c", "d"]);
    assert_eq!(it.next_batch(8), ["e"]);
    assert!(it.next_batch(8).is_empty());
    it.close();

    // Keys alone do not count towards it.
    let options = opts(None, None, None, false, true);
    let mut it = db_iter(&db, Some(&options));
    assert_eq!(it.next_batch(8), ["a", "b", "c", "d", "e"]);
    it.close();
    close(db);
}

// ---------------------------------------------------------------------
// Reads that fail
// ---------------------------------------------------------------------

/// Entries `a`, `b`, ... handed out in order, with one read that fails.
struct Flaky {
    at: usize,
    len: usize,
    fails_at: usize,
}

impl Reader for Flaky {
    fn go(&mut self, ask: Move, _: bool) -> Landing {
        match ask {
            Move::First => self.at = 0,
            Move::Next => self.at += 1,
            _ => unreachable!("a forward walk over everything"),
        }
        if self.at == self.fails_at {
            self.fails_at = usize::MAX;
            Landing::Failed(Failure::other("bad block"))
        } else if self.at < self.len {
            Landing::On(Entry {
                key: vec![b'a' + self.at as u8],
                value: None,
            })
        } else {
            Landing::Off
        }
    }

    fn open(&mut self, _: Scan) -> Result<Option<Cut>, Failure> {
        unreachable!("there is no stream")
    }
}

fn flaky(len: usize, fails_at: usize) -> Iter<Flaky> {
    Iter {
        handle: RegolithIter::over_snapshot(regolith_ffi::bounds_from(None)),
        reader: Flaky { at: 0, len, fails_at },
    }
}

#[test]
fn a_read_error_in_a_batch_is_held_back_once() {
    let mut it = flaky(5, 2);
    // What was gathered before the failure is handed out.
    assert_eq!(it.next_batch(8), ["a", "b"]);
    // Then the failure, and only once.
    let step = regolith_iter_next_batch(Some(&mut it.handle), 8, true, true, true);
    let failure = it.finish_batch(step).err().unwrap();
    assert_eq!(failure.status, OTHER);
    assert_eq!(failure.detail.as_deref(), Some("bad block"));
    assert!(it.next_batch(8).is_empty());

    // With nothing gathered the failure is reported at once.
    let mut it = flaky(5, 0);
    let step = regolith_iter_next_batch(Some(&mut it.handle), 8, true, true, true);
    assert_eq!(it.finish_batch(step).err().unwrap().status, OTHER);

    // A reset drops a failure that was held back.
    let mut it = flaky(5, 2);
    assert_eq!(it.next_batch(8), ["a", "b"]);
    it.reset();
    assert_eq!(it.next_batch(8), ["a", "b", "c", "d", "e"]);

    // Single steps report it where it happens.
    let mut it = flaky(5, 1);
    assert!(it.next());
    let step = regolith_iter_next(Some(&mut it.handle));
    assert_eq!(it.finish(step).unwrap_err().status, OTHER);
    assert!(!it.next());
}
