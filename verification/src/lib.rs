//! The logic of a flat C ABI over the `regolith` embedded key-value engine.
//!
//! The contract, in one place:
//!
//! * Every entry point answers with an `i32` status. `0` is OK; see the
//!   status codes in [`failure`] for the rest.
//! * Every entry point catches panics and reports [`PANIC`] rather than
//!   unwinding into the caller's frame; see [`guard`].
//! * A null handle is an error, never a dereference.
//! * Input bytes are not retained past the call.
//! * A batch of writes crosses as one packed frame, decoded and validated
//!   in full before it reaches the engine; see [`batch`].
//! * On failure the caller is handed a detail object when the code alone
//!   does not say what went wrong ([`INVALID_ARG`], [`PANIC`], [`OTHER`]),
//!   and none otherwise.
//! * Point reads hand back a borrowed view of memory the engine already
//!   owns, plus a [`RegolithValue`] that keeps it there.
//!
//! The library decides; it does not reach into a store. An entry point here
//! takes what the call was made with, checks it, and answers with what is
//! to be done to the store. Whoever exports the C functions turns pointers
//! into references, does it, and reports back.

pub mod batch;
pub mod batch_laws;
pub mod batching_laws;
pub mod boundary;
pub mod bounds;
pub mod db;
pub mod engine;
pub mod entry_laws;
pub mod failure;
pub mod iter;
pub mod iter_laws;
pub mod options;
pub mod order;
pub mod seqs;
pub mod text;
pub mod txn;
pub mod walk;
pub mod written;

pub use boundary::{
    guard, in_bytes, in_opt_bytes, out_bool, out_borrowed, out_bytes, panic_detail,
    regolith_error_message, Outcome, PanicPayload, RegolithError, RegolithValue,
};
pub use bounds::{bounds_from, prefix_end, Bounds, RegolithIterOptions, ScanDirection};
pub use db::{
    lend, regolith_db_close, regolith_db_delete, regolith_db_drop_all, regolith_db_get_borrowed,
    regolith_db_has, regolith_db_iter, regolith_db_open, regolith_db_open_with_options,
    regolith_db_set, regolith_db_txn, regolith_db_write, OpenRequest, RegolithDb,
};
pub use failure::{
    EngineError, Failure, TransactionError, DB_CLOSED, DISCARDED, INVALID_ARG, NOT_FOUND, OK,
    OTHER, PANIC, READ_ONLY_TXN, TXN_CONFLICT,
};
pub use iter::{
    regolith_iter_batch_value, regolith_iter_close, regolith_iter_key, regolith_iter_next,
    regolith_iter_next_batch, regolith_iter_reset, regolith_iter_seek, regolith_iter_value, Batch,
    BatchStep, Entry, KeyBatch, Landing, Move, RegolithIter, Scan, Settle, Step,
};
pub use options::{
    options_from, CompressionType, DurabilityMode, EngineOptions, IsolationLevel, RegolithOptions,
    ResolvedOptions, COMPRESSION_LZ4, COMPRESSION_NONE, COMPRESSION_SNAPPY, DURABILITY_EVENTUAL,
    DURABILITY_IMMEDIATE, ISOLATION_READ_COMMITTED, ISOLATION_REPEATABLE_READ,
    ISOLATION_SERIALIZABLE, ISOLATION_SNAPSHOT, OPT_BLOCK_CACHE_SIZE, OPT_COMPRESSION,
    OPT_DURABILITY, OPT_ISOLATION, OPT_MAX_BACKGROUND_COMPACTIONS, OPT_TRANSACTION_KEYS_INLINE,
    OPT_WRITE_BUFFER_SIZE,
};
pub use txn::{
    discarded, freed, regolith_txn_commit, regolith_txn_delete, regolith_txn_discard,
    regolith_txn_free, regolith_txn_get_borrowed, regolith_txn_has, regolith_txn_iter,
    regolith_txn_set, take, with, RegolithTxn, TxnInner,
};
pub use written::{only, Cut, WriteLog};
