//! Transactions.
//!
//! Committing and rolling back consume a transaction that the caller holds
//! through a handle it does not own, so the transaction lives in an
//! `Option` that the resolving call takes. The engine has no read-only
//! transaction mode, so `readonly` is carried here and writes are refused
//! with [`READ_ONLY_TXN`].
//!
//! A transaction handle is shared, so what it holds stands behind a lock of
//! the caller's: `L` is that lock. Having taken it, the caller passes on
//! what it guards, or `None` for a lock that a panic left unusable.

use std::sync::Arc;

use vstd::prelude::*;

use crate::boundary;
use crate::boundary::in_bytes;
use crate::bounds;
use crate::bounds::{bounds_from, Bounds, RegolithIterOptions};
use crate::failure;
use crate::failure::{Failure, DISCARDED, READ_ONLY_TXN};

verus! {

/// The shared body of a transaction handle.
pub struct TxnInner<L> {
    /// Guards the transaction, which is `None` once committed or
    /// discarded.
    pub txn: L,
    pub readonly: bool,
}

/// Transaction handle.
pub struct RegolithTxn<L> {
    pub inner: Arc<TxnInner<L>>,
}

impl<L> TxnInner<L> {
    pub fn new(txn: L, readonly: bool) -> (inner: TxnInner<L>)
        ensures
            inner.txn == txn,
            inner.readonly == readonly,
    {
        TxnInner { txn, readonly }
    }
}

/// The refusal of a transaction whose lock a panic left unusable.
pub open spec fn unusable() -> failure::FailureView {
    failure::unclassified("transaction unusable after a panic; discard it and begin a new one"@)
}

/// The live transaction behind a lock, or why there is none: the lock is
/// unusable, or the transaction has been resolved.
pub open spec fn live<T>(lock: Option<Option<T>>) -> Result<T, failure::FailureView> {
    match lock {
        None => Err(unusable()),
        Some(None) => Err(failure::bare(DISCARDED)),
        Some(Some(txn)) => Ok(txn),
    }
}

/// The live transaction, or [`DISCARDED`] if it has already been resolved.
pub fn with<T>(lock: Option<&Option<T>>) -> (outcome: Result<&T, Failure>)
    ensures
        match live(
            match lock {
                Some(held) => Some(*held),
                None => None,
            },
        ) {
            Ok(txn) => outcome is Ok && *outcome->Ok_0 == txn,
            Err(failure) => outcome is Err && outcome->Err_0@ == failure,
        },
{
    match lock {
        None => Err(
            Failure::other("transaction unusable after a panic; discard it and begin a new one"),
        ),
        Some(held) => match held {
            Some(txn) => Ok(txn),
            None => Err(Failure::code(DISCARDED)),
        },
    }
}

/// Take the live transaction out to resolve it. None is left behind.
pub fn take<T>(lock: Option<&mut Option<T>>) -> (outcome: Result<T, Failure>)
    ensures
        match lock {
            None => failure::said(outcome) == live::<T>(None),
            Some(held) => failure::said(outcome) == live(Some(*held)) && *final(held) is None,
        },
{
    match lock {
        None => Err(
            Failure::other("transaction unusable after a panic; discard it and begin a new one"),
        ),
        Some(held) => match held.take() {
            Some(txn) => Ok(txn),
            None => Err(Failure::code(DISCARDED)),
        },
    }
}

/// The refusal of a null transaction handle.
pub open spec fn null_txn() -> failure::FailureView {
    failure::invalid("null txn handle"@)
}

/// Resolve a handle that may be null.
fn txn_ref<L>(txn: Option<&RegolithTxn<L>>) -> (outcome: Result<&RegolithTxn<L>, Failure>)
    ensures
        failure::said(outcome) == match txn {
            Some(handle) => Ok::<&RegolithTxn<L>, failure::FailureView>(handle),
            None => Err(null_txn()),
        },
{
    match txn {
        Some(handle) => Ok(handle),
        None => Err(Failure::invalid_arg("null txn handle")),
    }
}

/// What a read through a transaction is refused for before the transaction
/// is looked at, or the key to read.
pub open spec fn read_request<L>(
    txn: Option<&RegolithTxn<L>>,
    key: Option<&[u8]>,
    key_len: usize,
) -> Result<Seq<u8>, failure::FailureView> {
    if txn is None {
        Err(null_txn())
    } else {
        match boundary::given_bytes(key, key_len) {
            None => Err(failure::invalid("null key"@)),
            Some(bytes) => Ok(bytes),
        }
    }
}

/// Read `key` through the transaction, seeing its own uncommitted writes:
/// the handle and the key to read through it. What was found is lent with
/// [`crate::db::lend`].
pub fn regolith_txn_get_borrowed<'a, L>(
    txn: Option<&'a RegolithTxn<L>>,
    key: Option<&'a [u8]>,
    key_len: usize,
) -> (outcome: Result<(&'a RegolithTxn<L>, &'a [u8]), Failure>)
    requires
        key is Some ==> key->Some_0@.len() == key_len,
    ensures
        match read_request(txn, key, key_len) {
            Ok(bytes) => outcome is Ok && Some(outcome->Ok_0.0) == txn && outcome->Ok_0.1@ == bytes,
            Err(failure) => outcome is Err && outcome->Err_0@ == failure,
        },
{
    let handle = match txn_ref(txn) {
        Ok(handle) => handle,
        Err(failure) => return Err(failure),
    };
    match in_bytes(key, key_len) {
        None => Err(Failure::invalid_arg("null key")),
        Some(bytes) => Ok((handle, bytes)),
    }
}

/// Test for the presence of `key` through the transaction: the handle and
/// the key to look for.
pub fn regolith_txn_has<'a, L>(
    txn: Option<&'a RegolithTxn<L>>,
    key: Option<&'a [u8]>,
    key_len: usize,
) -> (outcome: Result<(&'a RegolithTxn<L>, &'a [u8]), Failure>)
    requires
        key is Some ==> key->Some_0@.len() == key_len,
    ensures
        match read_request(txn, key, key_len) {
            Ok(bytes) => outcome is Ok && Some(outcome->Ok_0.0) == txn && outcome->Ok_0.1@ == bytes,
            Err(failure) => outcome is Err && outcome->Err_0@ == failure,
        },
{
    // The engine's transaction has no `has`, so this is a read.
    regolith_txn_get_borrowed(txn, key, key_len)
}

/// Buffer a write in the transaction: the handle, and the key and value to
/// write through it. A read-only transaction refuses before it looks at
/// either. The key is noted in the transaction's [`crate::written::WriteLog`]
/// before it is written.
pub fn regolith_txn_set<'a, L>(
    txn: Option<&'a RegolithTxn<L>>,
    key: Option<&'a [u8]>,
    key_len: usize,
    value: Option<&'a [u8]>,
    value_len: usize,
) -> (outcome: Result<(&'a RegolithTxn<L>, &'a [u8], &'a [u8]), Failure>)
    requires
        key is Some ==> key->Some_0@.len() == key_len,
        value is Some ==> value->Some_0@.len() == value_len,
    ensures
        match txn {
            None => outcome is Err && outcome->Err_0@ == null_txn(),
            Some(handle) => if handle.inner.readonly {
                outcome is Err && outcome->Err_0@ == failure::bare(READ_ONLY_TXN)
            } else {
                match (
                    boundary::given_bytes(key, key_len),
                    boundary::given_bytes(value, value_len),
                ) {
                    (Some(k), Some(v)) => {
                        &&& outcome is Ok
                        &&& outcome->Ok_0.0 == handle
                        &&& outcome->Ok_0.1@ == k
                        &&& outcome->Ok_0.2@ == v
                    },
                    _ => outcome is Err && outcome->Err_0@ == failure::invalid(
                        "null key or value"@,
                    ),
                }
            },
        },
{
    let handle = match txn_ref(txn) {
        Ok(handle) => handle,
        Err(failure) => return Err(failure),
    };
    if handle.inner.readonly {
        return Err(Failure::code(READ_ONLY_TXN));
    }
    match (in_bytes(key, key_len), in_bytes(value, value_len)) {
        (Some(key), Some(value)) => Ok((handle, key, value)),
        _ => Err(Failure::invalid_arg("null key or value")),
    }
}

/// Buffer a delete in the transaction: the handle, and the key to delete
/// through it. A read-only transaction refuses before it looks at the key.
/// The key is noted in the transaction's [`crate::written::WriteLog`] before
/// it is deleted.
pub fn regolith_txn_delete<'a, L>(
    txn: Option<&'a RegolithTxn<L>>,
    key: Option<&'a [u8]>,
    key_len: usize,
) -> (outcome: Result<(&'a RegolithTxn<L>, &'a [u8]), Failure>)
    requires
        key is Some ==> key->Some_0@.len() == key_len,
    ensures
        match txn {
            None => outcome is Err && outcome->Err_0@ == null_txn(),
            Some(handle) => if handle.inner.readonly {
                outcome is Err && outcome->Err_0@ == failure::bare(READ_ONLY_TXN)
            } else {
                match boundary::given_bytes(key, key_len) {
                    Some(k) => outcome is Ok && outcome->Ok_0.0 == handle && outcome->Ok_0.1@ == k,
                    None => outcome is Err && outcome->Err_0@ == failure::invalid("null key"@),
                }
            },
        },
{
    let handle = match txn_ref(txn) {
        Ok(handle) => handle,
        Err(failure) => return Err(failure),
    };
    if handle.inner.readonly {
        return Err(Failure::code(READ_ONLY_TXN));
    }
    match in_bytes(key, key_len) {
        None => Err(Failure::invalid_arg("null key")),
        Some(bytes) => Ok((handle, bytes)),
    }
}

/// Create an iterator over the transaction, over its buffered writes merged
/// over the snapshot it began at: the handle, and the range for
/// [`crate::iter::RegolithIter::over_txn`].
///
/// The set of buffered writes is captured when the iterator is created, so
/// writes made afterwards are not visible to it. Close the iterator before
/// committing or discarding the transaction.
pub fn regolith_txn_iter<'a, L>(
    txn: Option<&'a RegolithTxn<L>>,
    opts: Option<&RegolithIterOptions>,
    out: bool,
) -> (outcome: Result<(&'a RegolithTxn<L>, Bounds), Failure>)
    requires
        opts is Some ==> opts->Some_0.lengths_match(),
    ensures
        match txn {
            None => outcome is Err && outcome->Err_0@ == null_txn(),
            Some(handle) => if !out {
                outcome is Err && outcome->Err_0@ == boundary::null_out()
            } else {
                &&& outcome is Ok
                &&& outcome->Ok_0.0 == handle
                &&& outcome->Ok_0.1@ == bounds::bounds_of(opts)
            },
        },
{
    let handle = match txn_ref(txn) {
        Ok(handle) => handle,
        Err(failure) => return Err(failure),
    };
    if !out {
        return Err(Failure::invalid_arg("null out-param"));
    }
    Ok((handle, bounds_from(opts)))
}

/// Validate and apply the transaction: the handle whose transaction to
/// [`take`] and commit. The handle stays allocated afterwards.
pub fn regolith_txn_commit<L>(txn: Option<&RegolithTxn<L>>) -> (outcome: Result<
    &RegolithTxn<L>,
    Failure,
>)
    ensures
        failure::said(outcome) == match txn {
            Some(handle) => Ok::<&RegolithTxn<L>, failure::FailureView>(handle),
            None => Err(null_txn()),
        },
{
    txn_ref(txn)
}

/// Discard the transaction, dropping its buffered writes: the handle whose
/// transaction to [`take`]. What that gave is passed to [`discarded`].
pub fn regolith_txn_discard<L>(txn: Option<&RegolithTxn<L>>) -> (outcome: Result<
    &RegolithTxn<L>,
    Failure,
>)
    ensures
        failure::said(outcome) == match txn {
            Some(handle) => Ok::<&RegolithTxn<L>, failure::FailureView>(handle),
            None => Err(null_txn()),
        },
{
    txn_ref(txn)
}

/// What discarding comes to once the transaction was taken: one to roll
/// back, or nothing to do if it had already been resolved.
pub open spec fn discard_outcome<T>(taken: Result<T, failure::FailureView>) -> Result<
    Option<T>,
    failure::FailureView,
> {
    match taken {
        Ok(txn) => Ok(Some(txn)),
        Err(failure) => if failure.status == DISCARDED {
            Ok(None)
        } else {
            Err(failure)
        },
    }
}

/// Discard what was taken: the transaction to roll back, if there is one.
/// Discarding an already resolved transaction is no failure.
pub fn discarded<T>(taken: Result<T, Failure>) -> (outcome: Result<Option<T>, Failure>)
    ensures
        failure::said(outcome) == discard_outcome(failure::said(taken)),
{
    match taken {
        Ok(txn) => Ok(Some(txn)),
        Err(failure) => if failure.status == DISCARDED {
            // Already committed or discarded: nothing to do.
            Ok(None)
        } else {
            Err(failure)
        },
    }
}

/// What is left to do of what was taken to free the handle: the transaction
/// to roll back, if there is one. Freeing does not fail for want of one.
pub fn freed<T>(taken: Result<T, Failure>) -> (txn: Option<T>)
    ensures
        txn == match taken {
            Ok(live) => Some(live),
            Err(_) => None,
        },
{
    match taken {
        Ok(live) => Some(live),
        Err(_) => None,
    }
}

/// Free the transaction handle: the handle whose transaction to [`take`].
/// What that gave is passed to [`freed`].
pub fn regolith_txn_free<L>(txn: Option<RegolithTxn<L>>) -> (outcome: Result<
    RegolithTxn<L>,
    Failure,
>)
    ensures
        failure::said(outcome) == match txn {
            Some(handle) => Ok::<RegolithTxn<L>, failure::FailureView>(handle),
            None => Err(null_txn()),
        },
{
    match txn {
        Some(handle) => Ok(handle),
        None => Err(Failure::invalid_arg("null txn handle")),
    }
}

// ---------------------------------------------------------------------
// Laws.
// ---------------------------------------------------------------------

/// Once a transaction was taken, whatever comes next finds it discarded;
/// and discarding it again succeeds and has nothing to roll back.
pub proof fn law_resolved_is_discarded<T>(held: Option<T>)
    ensures
        live::<T>(Some(None)) == Err::<T, failure::FailureView>(failure::bare(DISCARDED)),
        discard_outcome(live::<T>(Some(None))) == Ok::<Option<T>, failure::FailureView>(None),
        discard_outcome(live(Some(held))) == Ok::<Option<T>, failure::FailureView>(held),
{
}

/// A transaction whose lock a panic left unusable fails every call, and is
/// not mistaken for a resolved one.
pub proof fn law_unusable_is_not_discarded<T>()
    ensures
        live::<T>(None) == Err::<T, failure::FailureView>(unusable()),
        discard_outcome(live::<T>(None)) == Err::<Option<T>, failure::FailureView>(unusable()),
{
}

/// A transaction that is there is the one that is found and taken, and a
/// failure to take it is passed on by discarding unless it says that the
/// transaction is resolved.
pub proof fn law_a_live_transaction_is_found<T>(txn: T, failure: failure::FailureView)
    ensures
        live(Some(Some(txn))) == Ok::<T, failure::FailureView>(txn),
        discard_outcome(Ok::<T, failure::FailureView>(txn)) == Ok::<
            Option<T>,
            failure::FailureView,
        >(Some(txn)),
        failure.status == 5 ==> discard_outcome(Err::<T, failure::FailureView>(failure)) == Ok::<
            Option<T>,
            failure::FailureView,
        >(None),
        failure.status != 5 ==> discard_outcome(Err::<T, failure::FailureView>(failure)) == Err::<
            Option<T>,
            failure::FailureView,
        >(failure),
        unusable().status == 8,
        unusable().detail == Some(
            "transaction unusable after a panic; discard it and begin a new one"@,
        ),
{
}

/// A read through a transaction is of exactly the bytes it was given,
/// however many; it is refused for a null handle first and for a null key
/// that is not empty otherwise, and for nothing else.
pub proof fn law_a_read_is_of_the_key_given<L>(
    txn: Option<&RegolithTxn<L>>,
    key: Option<&[u8]>,
    key_len: usize,
)
    requires
        key is Some ==> key->Some_0@.len() == key_len,
    ensures
        txn is Some && key is Some ==> read_request(txn, key, key_len) == Ok::<
            Seq<u8>,
            failure::FailureView,
        >(key->Some_0@),
        txn is Some && key is None && key_len == 0 ==> read_request(txn, key, key_len) == Ok::<
            Seq<u8>,
            failure::FailureView,
        >(Seq::empty()),
        txn is Some && key is None && key_len > 0 ==> read_request(txn, key, key_len) == Err::<
            Seq<u8>,
            failure::FailureView,
        >(failure::invalid("null key"@)),
        txn is None ==> read_request(txn, key, key_len) == Err::<Seq<u8>, failure::FailureView>(
            failure::invalid("null txn handle"@),
        ),
        null_txn().status == 6,
        null_txn().detail == Some("null txn handle"@),
{
    if key is Some {
        boundary::law_input_bytes_are_taken_whole(key->Some_0, key_len);
    }
}

} // verus!
