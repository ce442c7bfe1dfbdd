//! The store: open and close, point reads, point and batch writes, and the
//! two handle factories.
//!
//! Each entry point checks what it was called with, in a fixed order, and
//! answers with what is to be done to the store, or with the failure. The
//! caller does it and maps what the engine says.

use regolith::{DbSlice, WriteBatch};
use vstd::prelude::*;
use vstd::utf8::*;

use crate::batch;
use crate::batch::{decode, BATCH_COUNT_LEN};
use crate::batch_laws;
use crate::boundary;
use crate::boundary::{in_bytes, out_borrowed, RegolithValue};
use crate::bounds;
use crate::bounds::{bounds_from, RegolithIterOptions};
use crate::engine;
use crate::failure;
use crate::failure::{Failure, NOT_FOUND};
use crate::iter;
use crate::iter::RegolithIter;
use crate::options;
use crate::options::{options_from, RegolithOptions, ResolvedOptions};

verus! {

/// Store handle, over the engine's database `E`.
pub struct RegolithDb<E> {
    pub inner: E,
}

/// A store to open or create.
pub struct OpenRequest<'a> {
    pub path: &'a str,
    pub options: ResolvedOptions,
}

/// The refusal of a null store handle.
pub open spec fn null_db() -> failure::FailureView {
    failure::invalid("null db handle"@)
}

/// Resolve a handle that may be null.
fn db_ref<E>(db: Option<&RegolithDb<E>>) -> (outcome: Result<&RegolithDb<E>, Failure>)
    ensures
        failure::said(outcome) == match db {
            Some(handle) => Ok::<&RegolithDb<E>, failure::FailureView>(handle),
            None => Err(null_db()),
        },
{
    match db {
        Some(handle) => Ok(handle),
        None => Err(Failure::invalid_arg("null db handle")),
    }
}

/// `std::str::from_utf8` gives the text that the bytes encode, and fails
/// exactly on bytes that are not UTF-8.
#[verifier::external_body]
fn text_of(bytes: &[u8]) -> (text: Option<&str>)
    ensures
        text is Some <==> valid_utf8(bytes@),
        text is Some ==> text->Some_0@ == decode_utf8(bytes@),
{
    std::str::from_utf8(bytes).ok()
}

/// Open (or create) a store at `path` with the engine's default options.
pub fn regolith_db_open<'a>(path: Option<&'a [u8]>, path_len: usize, out: bool) -> (outcome: Result<
    OpenRequest<'a>,
    Failure,
>)
    requires
        path is Some ==> path->Some_0@.len() == path_len,
    ensures
        open_outcome(path, path_len, None, out, outcome),
{
    regolith_db_open_with_options(path, path_len, None, out)
}

/// What a request to open a store is refused for before its options are
/// looked at, or the path.
pub open spec fn path_request(path: Option<&[u8]>, path_len: usize, out: bool) -> Result<
    Seq<char>,
    failure::FailureView,
> {
    if !out {
        Err(boundary::null_out())
    } else {
        match boundary::given_bytes(path, path_len) {
            None => Err(failure::invalid("null path"@)),
            Some(bytes) => if valid_utf8(bytes) {
                Ok(decode_utf8(bytes))
            } else {
                Err(failure::invalid("path is not valid utf-8"@))
            },
        }
    }
}

/// `opts` resolved onto the engine's defaults.
pub open spec fn resolved_onto_defaults(
    compactions: usize,
    opts: Option<&RegolithOptions>,
) -> Result<ResolvedOptions, failure::FailureView> {
    match opts {
        None => Ok(options::defaults(compactions)),
        Some(given) => options::resolved(options::defaults(compactions), *given),
    }
}

/// Is `outcome` what a request to open a store comes to, if the engine runs
/// `compactions` background compaction threads by default?
pub open spec fn opened_with(
    compactions: usize,
    path: Option<&[u8]>,
    path_len: usize,
    opts: Option<&RegolithOptions>,
    out: bool,
    outcome: Result<OpenRequest, Failure>,
) -> bool {
    match path_request(path, path_len, out) {
        Err(failure) => outcome is Err && outcome->Err_0@ == failure,
        Ok(text) => match resolved_onto_defaults(compactions, opts) {
            Err(failure) => outcome is Err && outcome->Err_0@ == failure,
            Ok(resolved) => {
                &&& outcome is Ok
                &&& outcome->Ok_0.path@ == text
                &&& outcome->Ok_0.options == resolved
            },
        },
    }
}

/// Is `outcome` what a request to open a store comes to? The engine runs
/// one background compaction thread by default, or none.
pub open spec fn open_outcome(
    path: Option<&[u8]>,
    path_len: usize,
    opts: Option<&RegolithOptions>,
    out: bool,
    outcome: Result<OpenRequest, Failure>,
) -> bool {
    opened_with(0, path, path_len, opts, out, outcome) || opened_with(
        1,
        path,
        path_len,
        opts,
        out,
        outcome,
    )
}

/// Open (or create) a store at `path` with the engine options in `opts`.
///
/// No `opts`, or `opts` with nothing present, is the defaults path. Invalid
/// values are rejected rather than clamped.
pub fn regolith_db_open_with_options<'a>(
    path: Option<&'a [u8]>,
    path_len: usize,
    opts: Option<&RegolithOptions>,
    out: bool,
) -> (outcome: Result<OpenRequest<'a>, Failure>)
    requires
        path is Some ==> path->Some_0@.len() == path_len,
    ensures
        open_outcome(path, path_len, opts, out, outcome),
{
    if !out {
        return Err(Failure::invalid_arg("null out-param"));
    }
    let bytes = match in_bytes(path, path_len) {
        None => return Err(Failure::invalid_arg("null path")),
        Some(bytes) => bytes,
    };
    let path = match text_of(bytes) {
        None => return Err(Failure::invalid_arg("path is not valid utf-8")),
        Some(path) => path,
    };
    match options_from(opts) {
        Err(failure) => Err(failure),
        Ok(options) => Ok(OpenRequest { path, options }),
    }
}

/// Close the store: the handle to close and free.
pub fn regolith_db_close<E>(db: Option<RegolithDb<E>>) -> (outcome: Result<RegolithDb<E>, Failure>)
    ensures
        failure::said(outcome) == match db {
            Some(handle) => Ok::<RegolithDb<E>, failure::FailureView>(handle),
            None => Err(null_db()),
        },
{
    match db {
        Some(handle) => Ok(handle),
        None => Err(Failure::invalid_arg("null db handle")),
    }
}

/// What a call on one key is refused for before the store is looked at, or
/// the key.
pub open spec fn key_request<E>(
    db: Option<&RegolithDb<E>>,
    key: Option<&[u8]>,
    key_len: usize,
) -> Result<Seq<u8>, failure::FailureView> {
    if db is None {
        Err(null_db())
    } else {
        match boundary::given_bytes(key, key_len) {
            None => Err(failure::invalid("null key"@)),
            Some(bytes) => Ok(bytes),
        }
    }
}

/// Check a call on one key.
fn on_key<'a, E>(db: Option<&'a RegolithDb<E>>, key: Option<&'a [u8]>, key_len: usize) -> (outcome:
    Result<(&'a RegolithDb<E>, &'a [u8]), Failure>)
    requires
        key is Some ==> key->Some_0@.len() == key_len,
    ensures
        match key_request(db, key, key_len) {
            Ok(bytes) => outcome is Ok && Some(outcome->Ok_0.0) == db && outcome->Ok_0.1@ == bytes,
            Err(failure) => outcome is Err && outcome->Err_0@ == failure,
        },
{
    let handle = match db_ref(db) {
        Ok(handle) => handle,
        Err(failure) => return Err(failure),
    };
    match in_bytes(key, key_len) {
        None => Err(Failure::invalid_arg("null key")),
        Some(bytes) => Ok((handle, bytes)),
    }
}

/// Read `key`: the store and the key to read. What was found is passed to
/// [`lend`].
pub fn regolith_db_get_borrowed<'a, E>(
    db: Option<&'a RegolithDb<E>>,
    key: Option<&'a [u8]>,
    key_len: usize,
) -> (outcome: Result<(&'a RegolithDb<E>, &'a [u8]), Failure>)
    requires
        key is Some ==> key->Some_0@.len() == key_len,
    ensures
        match key_request(db, key, key_len) {
            Ok(bytes) => outcome is Ok && Some(outcome->Ok_0.0) == db && outcome->Ok_0.1@ == bytes,
            Err(failure) => outcome is Err && outcome->Err_0@ == failure,
        },
{
    on_key(db, key, key_len)
}

/// Lend the caller what a read found. [`NOT_FOUND`], with no handle
/// produced, when it found nothing.
pub fn lend(found: Option<DbSlice>, val: bool, val_len: bool, value_handle: bool) -> (outcome:
    Result<Option<RegolithValue>, Failure>)
    ensures
        match engine::value_bytes(found) {
            None => outcome is Err && outcome->Err_0@ == failure::bare(NOT_FOUND),
            Some(bytes) => if !val || !val_len || !value_handle {
                outcome is Err && outcome->Err_0@ == boundary::null_out()
            } else if bytes.len() == 0 {
                outcome == Ok::<Option<RegolithValue>, Failure>(None)
            } else {
                &&& outcome is Ok
                &&& outcome->Ok_0 is Some
                &&& outcome->Ok_0->Some_0@ == bytes
            },
        },
{
    match found {
        None => Err(Failure::code(NOT_FOUND)),
        Some(slice) => out_borrowed(slice, val, val_len, value_handle),
    }
}

/// Test for the presence of `key`: the store and the key to look for.
pub fn regolith_db_has<'a, E>(
    db: Option<&'a RegolithDb<E>>,
    key: Option<&'a [u8]>,
    key_len: usize,
) -> (outcome: Result<(&'a RegolithDb<E>, &'a [u8]), Failure>)
    requires
        key is Some ==> key->Some_0@.len() == key_len,
    ensures
        match key_request(db, key, key_len) {
            Ok(bytes) => outcome is Ok && Some(outcome->Ok_0.0) == db && outcome->Ok_0.1@ == bytes,
            Err(failure) => outcome is Err && outcome->Err_0@ == failure,
        },
{
    on_key(db, key, key_len)
}

/// Write `value` at `key`, overwriting any existing entry: the store, the
/// key and the value to write.
pub fn regolith_db_set<'a, E>(
    db: Option<&'a RegolithDb<E>>,
    key: Option<&'a [u8]>,
    key_len: usize,
    value: Option<&'a [u8]>,
    value_len: usize,
) -> (outcome: Result<(&'a RegolithDb<E>, &'a [u8], &'a [u8]), Failure>)
    requires
        key is Some ==> key->Some_0@.len() == key_len,
        value is Some ==> value->Some_0@.len() == value_len,
    ensures
        match db {
            None => outcome is Err && outcome->Err_0@ == null_db(),
            Some(handle) => match (
                boundary::given_bytes(key, key_len),
                boundary::given_bytes(value, value_len),
            ) {
                (Some(k), Some(v)) => {
                    &&& outcome is Ok
                    &&& outcome->Ok_0.0 == handle
                    &&& outcome->Ok_0.1@ == k
                    &&& outcome->Ok_0.2@ == v
                },
                _ => outcome is Err && outcome->Err_0@ == failure::invalid("null key or value"@),
            },
        },
{
    let handle = match db_ref(db) {
        Ok(handle) => handle,
        Err(failure) => return Err(failure),
    };
    match (in_bytes(key, key_len), in_bytes(value, value_len)) {
        (Some(key), Some(value)) => Ok((handle, key, value)),
        _ => Err(Failure::invalid_arg("null key or value")),
    }
}

/// Delete `key`: the store and the key to delete. Deleting an absent key
/// is not an error.
pub fn regolith_db_delete<'a, E>(
    db: Option<&'a RegolithDb<E>>,
    key: Option<&'a [u8]>,
    key_len: usize,
) -> (outcome: Result<(&'a RegolithDb<E>, &'a [u8]), Failure>)
    requires
        key is Some ==> key->Some_0@.len() == key_len,
    ensures
        match key_request(db, key, key_len) {
            Ok(bytes) => outcome is Ok && Some(outcome->Ok_0.0) == db && outcome->Ok_0.1@ == bytes,
            Err(failure) => outcome is Err && outcome->Err_0@ == failure,
        },
{
    on_key(db, key, key_len)
}

/// Apply a batch of sets and deletes atomically: the store and the batch
/// to write.
///
/// `ops` is a frame, decoded by [`crate::batch`]. A zero-length frame is an
/// empty batch. A frame that does not decode is refused with a detail
/// naming the op, so nothing of it is written.
pub fn regolith_db_write<'a, E>(
    db: Option<&'a RegolithDb<E>>,
    ops: Option<&[u8]>,
    ops_len: usize,
) -> (outcome: Result<(&'a RegolithDb<E>, WriteBatch), Failure>)
    requires
        ops is Some ==> ops->Some_0@.len() == ops_len,
    ensures
        match db {
            None => outcome is Err && outcome->Err_0@ == null_db(),
            Some(handle) => match boundary::given_bytes(ops, ops_len) {
                None => outcome is Err && outcome->Err_0@ == failure::invalid("null write batch"@),
                Some(frame) => match batch::decoded(frame, 0, BATCH_COUNT_LEN as nat) {
                    Err(failure) => outcome is Err && outcome->Err_0@ == failure,
                    Ok(writes) => {
                        &&& outcome is Ok
                        &&& outcome->Ok_0.0 == handle
                        &&& engine::batch_ops(outcome->Ok_0.1) == writes
                    },
                },
            },
        },
{
    let handle = match db_ref(db) {
        Ok(handle) => handle,
        Err(failure) => return Err(failure),
    };
    let frame = match in_bytes(ops, ops_len) {
        None => return Err(Failure::invalid_arg("null write batch")),
        Some(frame) => frame,
    };
    match decode(frame) {
        Ok(writes) => Ok((handle, writes)),
        Err(failure) => Err(failure),
    }
}

/// Delete every entry in the store: the store to empty.
pub fn regolith_db_drop_all<E>(db: Option<&RegolithDb<E>>) -> (outcome: Result<
    &RegolithDb<E>,
    Failure,
>)
    ensures
        failure::said(outcome) == match db {
            Some(handle) => Ok::<&RegolithDb<E>, failure::FailureView>(handle),
            None => Err(null_db()),
        },
{
    db_ref(db)
}

/// Create an iterator over a snapshot of the store: the store to take the
/// snapshot of, and the iterator.
pub fn regolith_db_iter<'a, E>(
    db: Option<&'a RegolithDb<E>>,
    opts: Option<&RegolithIterOptions>,
    out: bool,
) -> (outcome: Result<(&'a RegolithDb<E>, RegolithIter), Failure>)
    requires
        opts is Some ==> opts->Some_0.lengths_match(),
    ensures
        match db {
            None => outcome is Err && outcome->Err_0@ == null_db(),
            Some(handle) => if !out {
                outcome is Err && outcome->Err_0@ == boundary::null_out()
            } else {
                &&& outcome is Ok
                &&& outcome->Ok_0.0 == handle
                &&& outcome->Ok_0.1@ == iter::fresh(
                    iter::SourceView::Snapshot,
                    bounds::bounds_of(opts),
                )
            },
        },
{
    let handle = match db_ref(db) {
        Ok(handle) => handle,
        Err(failure) => return Err(failure),
    };
    if !out {
        return Err(Failure::invalid_arg("null out-param"));
    }
    Ok((handle, RegolithIter::over_snapshot(bounds_from(opts))))
}

/// Begin a transaction at the store's configured isolation level: the store
/// to begin it on, and whether it is read-only.
pub fn regolith_db_txn<E>(db: Option<&RegolithDb<E>>, readonly: u8, out: bool) -> (outcome: Result<
    (&RegolithDb<E>, bool),
    Failure,
>)
    ensures
        failure::said(outcome) == match db {
            None => Err::<(&RegolithDb<E>, bool), failure::FailureView>(null_db()),
            Some(handle) => if !out {
                Err(boundary::null_out())
            } else {
                Ok((handle, readonly != 0))
            },
        },
{
    let handle = match db_ref(db) {
        Ok(handle) => handle,
        Err(failure) => return Err(failure),
    };
    if !out {
        return Err(Failure::invalid_arg("null out-param"));
    }
    Ok((handle, readonly != 0))
}

// ---------------------------------------------------------------------
// Laws.
// ---------------------------------------------------------------------

/// On a live handle a call on a key is of exactly the bytes it was given,
/// however many. So reading, looking for and deleting a key with the
/// arguments that it was set with is of the key that was set.
pub proof fn law_a_key_is_taken_as_given<E>(db: &RegolithDb<E>, key: &[u8], key_len: usize)
    requires
        key@.len() == key_len,
    ensures
        key_request(Some(db), Some(key), key_len) == Ok::<Seq<u8>, failure::FailureView>(key@),
        boundary::given_bytes(Some(key), key_len) == Some(key@),
        key_request(Some(db), None, 0) == Ok::<Seq<u8>, failure::FailureView>(Seq::empty()),
{
    boundary::law_input_bytes_are_taken_whole(key, key_len);
}

/// A call on a key is refused for a null handle first and for a null key
/// that is not empty otherwise, each with its own message, and for nothing
/// else.
pub proof fn law_null_handles_and_keys_are_refused<E>(
    db: Option<&RegolithDb<E>>,
    key: Option<&[u8]>,
    key_len: usize,
)
    requires
        key is Some ==> key->Some_0@.len() == key_len,
    ensures
        key_request(db, key, key_len) is Ok <==> db is Some && (key is Some || key_len == 0),
        db is None ==> key_request(db, key, key_len) == Err::<Seq<u8>, failure::FailureView>(
            failure::invalid("null db handle"@),
        ),
        db is Some && key is None && key_len > 0 ==> key_request(db, key, key_len) == Err::<
            Seq<u8>,
            failure::FailureView,
        >(failure::invalid("null key"@)),
        null_db().status == 6,
        null_db().detail == Some("null db handle"@),
{
    if key is Some {
        boundary::law_input_bytes_are_taken_whole(key->Some_0, key_len);
    }
}

/// The path to open is the text whose UTF-8 is exactly the bytes given; it
/// is refused for a null out-param, then for a null pointer, then for bytes
/// that are not UTF-8, and for nothing else.
pub proof fn law_path_is_taken_as_given(path: Option<&[u8]>, path_len: usize, out: bool)
    requires
        path is Some ==> path->Some_0@.len() == path_len,
    ensures
        !out ==> path_request(path, path_len, out) == Err::<Seq<char>, failure::FailureView>(
            failure::invalid("null out-param"@),
        ),
        out && path is None && path_len > 0 ==> path_request(path, path_len, out) == Err::<
            Seq<char>,
            failure::FailureView,
        >(failure::invalid("null path"@)),
        out && path is None && path_len == 0 ==> path_request(path, path_len, out) == Ok::<
            Seq<char>,
            failure::FailureView,
        >(Seq::empty()),
        out && path is Some && valid_utf8(path->Some_0@) ==> {
            &&& path_request(path, path_len, out) is Ok
            &&& encode_utf8(path_request(path, path_len, out)->Ok_0) == path->Some_0@
        },
        out && path is Some && !valid_utf8(path->Some_0@) ==> path_request(path, path_len, out)
            == Err::<Seq<char>, failure::FailureView>(
            failure::invalid("path is not valid utf-8"@),
        ),
{
    if path is Some {
        boundary::law_input_bytes_are_taken_whole(path->Some_0, path_len);
        if valid_utf8(path->Some_0@) {
            decode_utf8_encode_utf8(path->Some_0@);
        }
    } else if path_len == 0 {
        let none = Seq::<u8>::empty();
        assert(valid_utf8(none));
        assert(decode_utf8(none) =~= Seq::<char>::empty());
    }
}

/// A store is opened exactly when there is an out-param, the path is given
/// and is UTF-8, and nothing is wrong with the options; then at that path,
/// and with the defaults where there are no options.
pub proof fn law_open_succeeds_on_what_is_in_order(
    path: Option<&[u8]>,
    path_len: usize,
    opts: Option<&RegolithOptions>,
    out: bool,
    outcome: Result<OpenRequest, Failure>,
)
    requires
        path is Some ==> path->Some_0@.len() == path_len,
        open_outcome(path, path_len, opts, out, outcome),
    ensures
        outcome is Ok <==> {
            &&& out
            &&& path is Some || path_len == 0
            &&& path is Some ==> valid_utf8(path->Some_0@)
            &&& opts is Some ==> options::in_order(*opts->Some_0)
        },
        outcome is Err ==> outcome->Err_0.status == 6 && outcome->Err_0.detail is Some,
        path_request(path, path_len, out) is Err ==> outcome is Err && outcome->Err_0@
            == path_request(path, path_len, out)->Err_0,
        path_request(path, path_len, out) is Ok && outcome is Err ==> opts is Some && {
            ||| options::resolved(options::defaults(0), *opts->Some_0) == Err::<
                ResolvedOptions,
                failure::FailureView,
            >(outcome->Err_0@)
            ||| options::resolved(options::defaults(1), *opts->Some_0) == Err::<
                ResolvedOptions,
                failure::FailureView,
            >(outcome->Err_0@)
        },
        outcome is Ok && path is Some ==> encode_utf8(outcome->Ok_0.path@) == path->Some_0@,
        outcome is Ok && opts is None ==> {
            let engine = outcome->Ok_0.options.engine;
            &&& engine.write_buffer_size == 64 * 1024 * 1024
            &&& engine.block_cache_size == 512 * 1024 * 1024
            &&& engine.max_background_compactions <= 1
            &&& engine.transaction_keys_inline == 32
            &&& engine.compression is Lz4
            &&& engine.durability is Eventual
            &&& outcome->Ok_0.options.isolation is SnapshotIsolation
        },
        outcome is Ok && opts is Some ==> {
            ||| options::resolved(options::defaults(0), *opts->Some_0) == Ok::<
                ResolvedOptions,
                failure::FailureView,
            >(outcome->Ok_0.options)
            ||| options::resolved(options::defaults(1), *opts->Some_0) == Ok::<
                ResolvedOptions,
                failure::FailureView,
            >(outcome->Ok_0.options)
        },
{
    law_path_is_taken_as_given(path, path_len, out);
    if let Some(given) = opts {
        options::law_accepted_exactly_when_in_order(options::defaults(0), *given);
        options::law_accepted_exactly_when_in_order(options::defaults(1), *given);
        if options::resolved(options::defaults(0), *given) is Err {
            options::law_refusal_names_the_field(options::defaults(0), *given);
        }
        if options::resolved(options::defaults(1), *given) is Err {
            options::law_refusal_names_the_field(options::defaults(1), *given);
        }
    }
}

/// Writing the frame of some ops hands on exactly those ops, in their
/// order, as long as their record stays within the engine's limit.
pub proof fn law_a_frame_hands_on_its_ops(frame: &[u8], len: usize, ops: Seq<engine::Op>)
    requires
        frame@.len() == len,
        frame@ == batch_laws::framed(ops),
        batch_laws::record_len(ops) <= 1024 * 1024 * 1024,
    ensures
        boundary::given_bytes(Some(frame), len) is Some,
        batch::decoded(
            boundary::given_bytes(Some(frame), len)->Some_0,
            0,
            BATCH_COUNT_LEN as nat,
        ) == Ok::<Seq<engine::Op>, failure::FailureView>(ops),
{
    boundary::law_input_bytes_are_taken_whole(frame, len);
    batch_laws::law_frame_round_trips(frame@, ops);
}

} // verus!
