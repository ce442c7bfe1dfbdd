//! What a call comes to, said of what goes into it and what comes out: each
//! law here speaks of any outcome that a function may give.

use regolith::{DbSlice, WriteBatch};
use vstd::bytes::*;
use vstd::prelude::*;
use vstd::utf8::*;

use crate::batch;
use crate::batch::RecordLen;
use crate::batch_laws;
use crate::boundary;
use crate::boundary::{Outcome, PanicPayload, RegolithError, RegolithValue};
use crate::bounds;
use crate::bounds::{Bounds, RegolithIterOptions, ScanDirection};
use crate::db;
use crate::db::{OpenRequest, RegolithDb};
use crate::engine;
use crate::failure;
use crate::failure::Failure;
use crate::iter;
use crate::iter::{BatchStep, Landing, RegolithIter, Scan, Settle, Step};
use crate::options;
use crate::options::{RegolithOptions, ResolvedOptions};
use crate::order;
use crate::text;
use crate::txn;
use crate::txn::{RegolithTxn, TxnInner};
use crate::written;
use crate::written::{Cut, WriteLog};

verus! {

/// Is this a refusal with INVALID_ARG for this reason?
pub open spec fn refused_for(bad: Failure, reason: Seq<char>) -> bool {
    bad.status == 6 && bad.detail is Some && bad.detail->Some_0@ == reason
}

// ---------------------------------------------------------------------
// The boundary.
// ---------------------------------------------------------------------

/// Input bytes are used whole, whatever their number; no bytes need no
/// pointer, and a null pointer to some is unusable.
pub proof fn law_in_bytes(ptr: Option<&[u8]>, len: usize, bytes: Option<&[u8]>)
    requires
        ptr is Some ==> ptr->Some_0@.len() == len,
        call_ensures(boundary::in_bytes, (ptr, len), bytes),
    ensures
        bytes is Some <==> ptr is Some || len == 0,
        bytes is Some ==> bytes->Some_0@.len() == len,
        bytes is Some && ptr is Some ==> bytes->Some_0@ == ptr->Some_0@,
{
    if ptr is Some {
        boundary::law_input_bytes_are_taken_whole(ptr->Some_0, len);
    }
}

/// Optional input bytes are used whole, and none stands for not provided.
pub proof fn law_in_opt_bytes(ptr: Option<&[u8]>, len: usize, bytes: Option<&[u8]>)
    requires
        ptr is Some ==> ptr->Some_0@.len() == len,
        call_ensures(boundary::in_opt_bytes, (ptr, len), bytes),
    ensures
        bytes is Some <==> ptr is Some && len > 0,
        bytes is Some ==> bytes->Some_0@ == ptr->Some_0@,
{
}

/// Bytes are handed out whole, where there are out-params for them.
pub proof fn law_out_bytes(
    bytes: Vec<u8>,
    out_ptr: bool,
    out_len: bool,
    outcome: Result<Vec<u8>, Failure>,
)
    requires
        call_ensures(boundary::out_bytes, (bytes, out_ptr, out_len), outcome),
    ensures
        outcome is Ok <==> out_ptr && out_len,
        outcome is Ok ==> outcome->Ok_0@ == bytes@,
        outcome is Err ==> refused_for(outcome->Err_0, "null out-param"@),
{
}

/// A boolean goes out as 0 or 1.
pub proof fn law_out_bool(value: bool, out: bool, outcome: Result<u8, Failure>)
    requires
        call_ensures(boundary::out_bool, (value, out), outcome),
    ensures
        outcome is Ok <==> out,
        outcome is Ok ==> (outcome->Ok_0 == 1 <==> value) && outcome->Ok_0 <= 1,
        outcome is Err ==> refused_for(outcome->Err_0, "null out-param"@),
{
}

/// A value that was found is lent whole, without a handle if it is empty;
/// one that was not found is NOT_FOUND, whatever the out-params.
pub proof fn law_lend(
    found: Option<DbSlice>,
    val: bool,
    val_len: bool,
    value_handle: bool,
    outcome: Result<Option<RegolithValue>, Failure>,
)
    requires
        call_ensures(db::lend, (found, val, val_len, value_handle), outcome),
    ensures
        outcome is Ok <==> found is Some && val && val_len && value_handle,
        found is None ==> outcome->Err_0.status == 1 && outcome->Err_0.detail is None,
        found is Some && outcome is Err ==> refused_for(outcome->Err_0, "null out-param"@),
        outcome is Ok ==> {
            let bytes = engine::slice_bytes(found->Some_0);
            &&& outcome->Ok_0 is None <==> bytes.len() == 0
            &&& outcome->Ok_0 is Some ==> outcome->Ok_0->Some_0@ == bytes
        },
{
}

/// As [`law_lend`], for a value that is there.
pub proof fn law_out_borrowed(
    slice: DbSlice,
    out_ptr: bool,
    out_len: bool,
    out_handle: bool,
    outcome: Result<Option<RegolithValue>, Failure>,
)
    requires
        call_ensures(boundary::out_borrowed, (slice, out_ptr, out_len, out_handle), outcome),
    ensures
        outcome is Ok <==> out_ptr && out_len && out_handle,
        outcome is Err ==> refused_for(outcome->Err_0, "null out-param"@),
        outcome is Ok ==> {
            let bytes = engine::slice_bytes(slice);
            &&& outcome->Ok_0 is None <==> bytes.len() == 0
            &&& outcome->Ok_0 is Some ==> outcome->Ok_0->Some_0@ == bytes
        },
{
}

/// A value's handle gives the bytes it keeps alive.
pub proof fn law_value_bytes(value: &RegolithValue, bytes: &[u8])
    requires
        call_ensures(RegolithValue::bytes, (value,), bytes),
    ensures
        bytes@ == value@,
{
}

/// A call that returned is 0 without a detail; a failure is its status with
/// its detail; a panic is 7 with its text. The detail is handed over where
/// it can be, as UTF-8 and without nul characters.
pub proof fn law_guard(outcome: Outcome, err: bool, reply: (i32, Option<RegolithError>))
    requires
        call_ensures(boundary::guard, (outcome, err), reply),
    ensures
        !err ==> reply.1 is None,
        outcome matches Outcome::Returned(Ok(())) ==> reply.0 == 0 && reply.1 is None,
        outcome matches Outcome::Returned(Err(bad)) ==> {
            &&& reply.0 == bad.status
            &&& err ==> (reply.1 is Some <==> bad.detail is Some)
            &&& reply.1 is Some ==> reply.1->Some_0@ == encode_utf8(
                boundary::without_nuls(bad.detail->Some_0@),
            )
        },
        outcome matches Outcome::Panicked(payload) ==> {
            &&& reply.0 == 7
            &&& err ==> reply.1 is Some
            &&& reply.1 is Some ==> reply.1->Some_0@ == encode_utf8(
                boundary::without_nuls(payload@),
            )
        },
{
}

/// A detail without nul characters is handed over byte for byte.
pub proof fn law_error_new(detail: &str, err: RegolithError)
    requires
        call_ensures(RegolithError::new, (detail,), err),
    ensures
        !detail@.contains('\0') ==> err@ == encode_utf8(detail@),
        err@ == encode_utf8(boundary::without_nuls(detail@)),
{
    if !detail@.contains('\0') {
        boundary::law_message_without_nuls_is_unchanged(detail@);
    }
}

/// A detail's message is all of it, and holds no nul byte.
pub proof fn law_error_message(err: Option<&RegolithError>, message: Option<&[u8]>)
    requires
        call_ensures(boundary::regolith_error_message, (err,), message),
    ensures
        message is Some <==> err is Some,
        message is Some ==> message->Some_0@ == err->Some_0@ && !message->Some_0@.contains(0),
{
}

/// The text of a panic is what it carried.
pub proof fn law_panic_detail(payload: PanicPayload, detail: String)
    requires
        call_ensures(boundary::panic_detail, (payload,), detail),
    ensures
        payload matches PanicPayload::Literal(text) ==> detail@ == text@,
        payload matches PanicPayload::Formatted(text) ==> detail@ == text@,
        payload is Opaque ==> detail@ == "unknown panic"@,
{
}

/// A failure is made with the status and the detail it is given.
pub proof fn law_failures(
    status: i32,
    detail: &str,
    bare: Failure,
    invalid: Failure,
    other: Failure,
)
    requires
        call_ensures(Failure::code, (status,), bare),
        call_ensures(Failure::invalid_arg, (detail,), invalid),
        call_ensures(Failure::other, (detail,), other),
    ensures
        bare.status == status,
        bare.detail is None,
        refused_for(invalid, detail@),
        other.status == 8,
        other.detail is Some,
        other.detail->Some_0@ == detail@,
{
}

// ---------------------------------------------------------------------
// Bytes, numbers and ranges.
// ---------------------------------------------------------------------

/// Byte strings compare by the first byte in which they differ, and a byte
/// string comes after what it continues.
pub proof fn law_comparisons(
    a: &[u8],
    b: &[u8],
    n: int,
    earlier: bool,
    same: bool,
)
    requires
        call_ensures(order::comes_before, (a, b), earlier),
        call_ensures(order::same_bytes, (a, b), same),
        0 <= n <= a@.len(),
        n <= b@.len(),
        a@.take(n) == b@.take(n),
    ensures
        n < a@.len() && n < b@.len() && a@[n] != b@[n] ==> (earlier <==> a@[n] < b@[n]) && !same,
        n == a@.len() ==> (earlier <==> n < b@.len()) && (same <==> n == b@.len()),
        n == b@.len() ==> !earlier,
{
    order::law_first_difference_decides(a@, b@, n);
    if n == a@.len() {
        assert(a@.take(n) =~= a@);
        if n == b@.len() {
            assert(b@.take(n) =~= b@);
        }
    }
}

/// A number that is written out reads back as that number.
pub proof fn law_number_texts(n: u64, dec: String, hex: String)
    requires
        call_ensures(text::decimal_text, (n,), dec),
        call_ensures(text::hex_text, (n,), hex),
    ensures
        text::number(dec@, 10) == n,
        dec@.len() > 1 ==> dec@[0] != '0',
        hex@.len() > 2,
        hex@[0] == '0',
        hex@[1] == 'x',
        text::number(hex@.skip(2), 16) == n,
{
    text::law_numbers_read_back(n as nat, n as nat);
    text::law_digits_read_back(n as nat, 10);
}

/// The bounds of an iterator hold exactly the keys that were asked for: with
/// a prefix those that begin with it, otherwise those from `start` on and
/// before `end`. They are walked and kept as was asked for.
pub proof fn law_bounds_from(opts: Option<&RegolithIterOptions>, range: Bounds, key: Seq<u8>)
    requires
        opts is Some ==> opts->Some_0.lengths_match(),
        call_ensures(bounds::bounds_from, (opts,), range),
    ensures
        match opts {
            None => range@.contains(key) && !range.reverse && !range.keys_only,
            Some(given) => {
                &&& range.reverse <==> given.reverse != 0
                &&& range.keys_only <==> given.keys_only != 0
                &&& range@.contains(key) <==> if given.prefix is Some && given.prefix_len > 0 {
                    given.prefix->Some_0@.is_prefix_of(key)
                } else {
                    &&& given.start is Some && given.start_len > 0 ==> !order::before(
                        key,
                        given.start->Some_0@,
                    )
                    &&& given.end is Some && given.end_len > 0 ==> order::before(
                        key,
                        given.end->Some_0@,
                    )
                }
            },
        },
{
    if let Some(given) = opts {
        bounds::law_range_is_what_was_asked_for(given, key);
        bounds::law_manner_is_what_was_asked_for(given);
    }
    bounds::law_bounds_are_what_they_hold(range, range@, key);
}

/// Bounds hold a key that is not before their start and is before their
/// end, and are walked in reverse where they say so.
pub proof fn law_bounds(range: &Bounds, key: &[u8], inside: bool, direction: ScanDirection)
    requires
        call_ensures(Bounds::contains, (range, key), inside),
        call_ensures(Bounds::direction, (range,), direction),
    ensures
        inside <==> {
            &&& range.start is Some ==> !order::before(key@, range.start->Some_0@)
            &&& range.end is Some ==> order::before(key@, range.end->Some_0@)
        },
        direction is Reverse <==> range.reverse,
{
    bounds::law_bounds_are_what_they_hold(*range, range@, key@);
}

/// The end of a prefix is behind every key that begins with it, and only
/// those lie between the two. A prefix without an end is one of `0xff`
/// bytes alone.
pub proof fn law_prefix_end(prefix: &[u8], end: Option<Vec<u8>>, key: Seq<u8>)
    requires
        call_ensures(bounds::prefix_end, (prefix,), end),
    ensures
        end is None <==> forall|i: int| 0 <= i < prefix@.len() ==> prefix@[i] == 0xff,
        prefix@.is_prefix_of(key) <==> !order::before(key, prefix@) && (end is Some
            ==> order::before(key, end->Some_0@)),
{
    order::law_prefix_range_is_the_prefix(prefix@, key);
    order::law_no_successor_means_all_ones(prefix@);
}

/// A copy of bytes holds the same.
pub proof fn law_copy_opt(bytes: &Option<Vec<u8>>, copy: Option<Vec<u8>>)
    requires
        call_ensures(bounds::copy_opt, (bytes,), copy),
    ensures
        copy is Some <==> bytes is Some,
        copy is Some ==> copy->Some_0@ == bytes->Some_0@,
{
}

// ---------------------------------------------------------------------
// Write batches.
// ---------------------------------------------------------------------

/// A frame decodes into some ops exactly when it is the frame of those ops
/// and their record stays within 1 GiB. Any other is refused.
pub proof fn law_decode(
    frame: &[u8],
    outcome: Result<WriteBatch, Failure>,
    ops: Seq<engine::Op>,
)
    requires
        call_ensures(batch::decode, (frame,), outcome),
    ensures
        outcome is Ok && engine::batch_ops(outcome->Ok_0) == ops <==> frame@ == batch_laws::framed(
            ops,
        ) && batch_laws::record_len(ops) <= 1024 * 1024 * 1024,
        outcome is Err ==> outcome->Err_0.status == 6 && outcome->Err_0.detail is Some,
{
    batch_laws::law_frame_round_trips(frame@, ops);
    if outcome is Err {
        let _ = batch_laws::law_first_bad_op_is_named(frame@);
    }
}

/// Writing the frame of some ops on a live handle hands on that handle and
/// exactly those ops; no frame at all is no ops. A null handle and a null
/// frame are refused, and so is a frame that does not decode.
pub proof fn law_db_write<E>(
    db: Option<&RegolithDb<E>>,
    ops: Option<&[u8]>,
    ops_len: usize,
    outcome: Result<(&RegolithDb<E>, WriteBatch), Failure>,
    list: Seq<engine::Op>,
)
    requires
        ops is Some ==> ops->Some_0@.len() == ops_len,
        call_ensures(db::regolith_db_write::<E>, (db, ops, ops_len), outcome),
    ensures
        db is None ==> outcome is Err && refused_for(outcome->Err_0, "null db handle"@),
        db is Some && ops is None && ops_len > 0 ==> outcome is Err && refused_for(
            outcome->Err_0,
            "null write batch"@,
        ),
        db is Some && ops_len == 0 ==> outcome is Ok && engine::batch_ops(outcome->Ok_0.1)
            == Seq::<engine::Op>::empty(),
        db is Some && ops is Some ==> (outcome is Ok && engine::batch_ops(outcome->Ok_0.1) == list
            <==> ops->Some_0@ == batch_laws::framed(list) && batch_laws::record_len(list) <= 1024
            * 1024 * 1024),
        outcome is Ok ==> Some(outcome->Ok_0.0) == db,
        outcome is Err ==> outcome->Err_0.status == 6 && outcome->Err_0.detail is Some,
{
    if ops is Some {
        let frame = ops->Some_0;
        boundary::law_input_bytes_are_taken_whole(frame, ops_len);
        batch_laws::law_frame_round_trips(frame@, list);
        if db is Some && outcome is Err {
            let _ = batch_laws::law_first_bad_op_is_named(frame@);
        }
    }
    if db is Some && ops_len == 0 {
        let none = Seq::<engine::Op>::empty();
        batch_laws::law_frame_round_trips(batch_laws::framed(none), none);
        assert(boundary::given_bytes(ops, ops_len) == Some(batch_laws::framed(none)));
    }
}

/// What an op costs the record: its bytes and a fixed number more, or the
/// largest number there is.
pub proof fn law_record_lens(key_len: u64, value_len: u64, set: u64, delete: u64)
    requires
        call_ensures(batch::set_record_len, (key_len, value_len), set),
        call_ensures(batch::delete_record_len, (key_len,), delete),
    ensures
        set == if 25 + key_len + value_len <= u64::MAX {
            25 + key_len + value_len
        } else {
            u64::MAX as int
        },
        delete == if 21 + key_len <= u64::MAX {
            21 + key_len
        } else {
            u64::MAX as int
        },
{
}

/// A running total begins at 4, adds up what is charged, and refuses what
/// would take it past 1 GiB.
pub proof fn law_record_totals(
    fresh: RecordLen,
    record: &mut RecordLen,
    add: u64,
    index: usize,
    outcome: Result<(), Failure>,
    held: &RecordLen,
    total: u64,
)
    requires
        call_ensures(RecordLen::new, (), fresh),
        call_ensures(RecordLen::charge, (record, add, index), outcome),
        call_ensures(RecordLen::get, (held,), total),
    ensures
        fresh@ == 4,
        outcome is Ok <==> old(record)@ + add <= 1024 * 1024 * 1024,
        outcome is Ok ==> final(record)@ == old(record)@ + add,
        outcome is Err ==> final(record)@ == old(record)@ && refused_for(
            outcome->Err_0,
            "write batch op "@ + text::decimal(index as nat)
                + " would push this write batch past its 1073741824-byte limit; split it into smaller batches"@,
        ),
        total == held@,
{
}

/// A field that was framed is read off whole, and what follows is left.
pub proof fn law_field(
    rest: &mut &[u8],
    index: usize,
    what: &str,
    outcome: Result<&[u8], Failure>,
    bytes: Seq<u8>,
    tail: Seq<u8>,
)
    requires
        call_ensures(batch::field, (rest, index, what), outcome),
    ensures
        bytes.len() <= u32::MAX && old(rest)@ == spec_u64_to_le_bytes(bytes.len() as u64) + bytes + tail
            ==> outcome is Ok && outcome->Ok_0@ == bytes && final(rest)@ == tail,
        outcome is Err ==> final(rest)@ == old(rest)@ && outcome->Err_0.status == 6,
        old(rest)@.len() < 8 ==> outcome is Err,
{
    let all = rest@;
    if bytes.len() <= u32::MAX && all == spec_u64_to_le_bytes(bytes.len() as u64) + bytes + tail {
        assert(all =~= batch_laws::framed_field(bytes) + tail);
        batch_laws::lemma_framed_field_is_read_back(bytes, tail, index as nat, what@);
    }
    batch_laws::law_a_field_is_its_length_and_its_bytes(all, index as nat, what@);
}

/// Walking the frame of some ops hands each of them to the sink, in order.
pub proof fn law_walk<S: batch::OpSink>(
    frame: &[u8],
    sink: &mut S,
    outcome: Result<(), Failure>,
    ops: Seq<engine::Op>,
)
    requires
        call_ensures(batch::walk::<S>, (frame, sink), outcome),
        frame@ == batch_laws::framed(ops),
        forall|i: int|
            0 <= i < ops.len() ==> batch::op_record_len(#[trigger] ops[i]) <= 1024 * 1024 * 1024,
    ensures
        (final(sink).state(), failure::said(outcome)) == batch_laws::taken_all::<S>(
            ops,
            0,
            old(sink).state(),
        ),
{
    batch_laws::law_a_walk_hands_over_every_op::<S>(ops, 0, sink.state());
}

// ---------------------------------------------------------------------
// Options, and opening a store.
// ---------------------------------------------------------------------

/// A number that fits is taken as it is, and any other is refused.
pub proof fn law_as_usize(name: &str, value: u64, outcome: Result<usize, Failure>)
    requires
        call_ensures(options::as_usize, (name, value), outcome),
    ensures
        outcome is Ok <==> value <= usize::MAX,
        outcome is Ok ==> outcome->Ok_0 == value,
        outcome is Err ==> refused_for(
            outcome->Err_0,
            "invalid option `"@ + name@ + "`: "@ + text::decimal(value as nat)
                + " does not fit in a usize on this platform"@,
        ),
{
}

/// Is this what options make of a base: each field that is present as it
/// was given, every other as it was?
pub open spec fn made_of(
    base: ResolvedOptions,
    opts: RegolithOptions,
    result: ResolvedOptions,
) -> bool {
    let engine = result.engine;
    &&& engine.write_buffer_size == if opts.present & 0x01 != 0 {
        opts.write_buffer_size as int
    } else {
        base.engine.write_buffer_size as int
    }
    &&& engine.block_cache_size == if opts.present & 0x02 != 0 {
        opts.block_cache_size as int
    } else {
        base.engine.block_cache_size as int
    }
    &&& engine.max_background_compactions == if opts.present & 0x04 != 0 {
        opts.max_background_compactions as int
    } else {
        base.engine.max_background_compactions as int
    }
    &&& engine.transaction_keys_inline == if opts.present & 0x08 != 0 {
        opts.transaction_keys_inline as int
    } else {
        base.engine.transaction_keys_inline as int
    }
    &&& opts.present & 0x10 == 0 ==> engine.compression == base.engine.compression
    &&& opts.present & 0x10 != 0 ==> {
        &&& engine.compression is Uncompressed <==> opts.compression == 0
        &&& engine.compression is Snappy <==> opts.compression == 1
        &&& engine.compression is Lz4 <==> opts.compression == 2
    }
    &&& opts.present & 0x20 == 0 ==> engine.durability == base.engine.durability
    &&& opts.present & 0x20 != 0 ==> {
        &&& engine.durability is Immediate <==> opts.durability == 0
        &&& engine.durability is Eventual <==> opts.durability == 1
    }
    &&& opts.present & 0x40 == 0 ==> result.isolation == base.isolation
    &&& opts.present & 0x40 != 0 ==> {
        &&& result.isolation is ReadCommitted <==> opts.isolation == 0
        &&& result.isolation is SnapshotIsolation <==> opts.isolation == 1
        &&& result.isolation is Serializable <==> opts.isolation == 2
        &&& result.isolation is RepeatableRead <==> opts.isolation == 3
    }
}

/// Are these the engine's defaults?
pub open spec fn is_default(result: ResolvedOptions) -> bool {
    &&& result.engine.write_buffer_size == 64 * 1024 * 1024
    &&& result.engine.block_cache_size == 512 * 1024 * 1024
    &&& result.engine.max_background_compactions <= 1
    &&& result.engine.transaction_keys_inline == 32
    &&& result.engine.compression is Lz4
    &&& result.engine.durability is Eventual
    &&& result.isolation is SnapshotIsolation
}

/// Options are accepted exactly when nothing is wrong with them, and then
/// each field comes to what it says. What is wrong is refused with a detail.
pub proof fn law_resolve(
    base: ResolvedOptions,
    opts: &RegolithOptions,
    outcome: Result<ResolvedOptions, Failure>,
)
    requires
        call_ensures(options::resolve, (base, opts), outcome),
    ensures
        outcome is Ok <==> options::in_order(*opts),
        outcome is Ok ==> made_of(base, *opts, outcome->Ok_0),
        outcome is Err ==> outcome->Err_0.status == 6 && outcome->Err_0.detail is Some,
{
    options::law_accepted_exactly_when_in_order(base, *opts);
    if options::in_order(*opts) {
        options::law_each_field_comes_to_what_it_says(base, *opts);
    } else {
        options::law_refusal_names_the_field(base, *opts);
    }
}

/// As [`law_resolve`], onto the engine's defaults; no options are those.
pub proof fn law_options_from(
    opts: Option<&RegolithOptions>,
    outcome: Result<ResolvedOptions, Failure>,
)
    requires
        call_ensures(options::options_from, (opts,), outcome),
    ensures
        outcome is Ok <==> (opts is Some ==> options::in_order(*opts->Some_0)),
        opts is None ==> is_default(outcome->Ok_0),
        opts is Some && outcome is Ok ==> exists|base: ResolvedOptions| #[trigger]
            made_of(base, *opts->Some_0, outcome->Ok_0) && is_default(base),
        outcome is Err ==> outcome->Err_0.status == 6 && outcome->Err_0.detail is Some,
{
    if let Some(given) = opts {
        lemma_onto_defaults(*given, 0);
        lemma_onto_defaults(*given, 1);
    }
}

/// What options make of the engine's defaults.
proof fn lemma_onto_defaults(opts: RegolithOptions, compactions: usize)
    requires
        compactions <= 1,
    ensures
        is_default(options::defaults(compactions)),
        options::resolved(options::defaults(compactions), opts) is Ok <==> options::in_order(opts),
        options::in_order(opts) ==> made_of(
            options::defaults(compactions),
            opts,
            options::resolved(options::defaults(compactions), opts)->Ok_0,
        ),
        !options::in_order(opts) ==> {
            let bad = options::resolved(options::defaults(compactions), opts)->Err_0;
            bad.status == 6 && bad.detail is Some
        },
{
    let base = options::defaults(compactions);
    options::law_accepted_exactly_when_in_order(base, opts);
    if options::in_order(opts) {
        options::law_each_field_comes_to_what_it_says(base, opts);
    } else {
        options::law_refusal_names_the_field(base, opts);
    }
}

/// A store is opened exactly when there is an out-param, a path in UTF-8,
/// and nothing wrong with the options: at that path, byte for byte, and
/// with what the options make of the defaults.
pub proof fn law_open_with_options(
    path: Option<&[u8]>,
    path_len: usize,
    opts: Option<&RegolithOptions>,
    out: bool,
    outcome: Result<OpenRequest, Failure>,
)
    requires
        path is Some ==> path->Some_0@.len() == path_len,
        call_ensures(db::regolith_db_open_with_options, (path, path_len, opts, out), outcome),
    ensures
        outcome is Ok <==> {
            &&& out
            &&& path is Some || path_len == 0
            &&& path is Some ==> valid_utf8(path->Some_0@)
            &&& opts is Some ==> options::in_order(*opts->Some_0)
        },
        !out ==> refused_for(outcome->Err_0, "null out-param"@),
        out && path is None && path_len > 0 ==> refused_for(outcome->Err_0, "null path"@),
        out && path is Some && !valid_utf8(path->Some_0@) ==> refused_for(
            outcome->Err_0,
            "path is not valid utf-8"@,
        ),
        outcome is Err ==> outcome->Err_0.status == 6 && outcome->Err_0.detail is Some,
        outcome is Ok && path is Some ==> encode_utf8(outcome->Ok_0.path@) == path->Some_0@,
        outcome is Ok && opts is None ==> is_default(outcome->Ok_0.options),
        outcome is Ok && opts is Some ==> exists|base: ResolvedOptions| #[trigger]
            made_of(base, *opts->Some_0, outcome->Ok_0.options) && is_default(base),
{
    db::law_path_is_taken_as_given(path, path_len, out);
    if let Some(given) = opts {
        lemma_onto_defaults(*given, 0);
        lemma_onto_defaults(*given, 1);
    }
    if path is None && path_len == 0 && out {
        assert(db::path_request(path, path_len, out) is Ok);
    }
}

/// As [`law_open_with_options`], without options.
pub proof fn law_open(
    path: Option<&[u8]>,
    path_len: usize,
    out: bool,
    outcome: Result<OpenRequest, Failure>,
)
    requires
        path is Some ==> path->Some_0@.len() == path_len,
        call_ensures(db::regolith_db_open, (path, path_len, out), outcome),
    ensures
        outcome is Ok <==> {
            &&& out
            &&& path is Some || path_len == 0
            &&& path is Some ==> valid_utf8(path->Some_0@)
        },
        !out ==> refused_for(outcome->Err_0, "null out-param"@),
        out && path is None && path_len > 0 ==> refused_for(outcome->Err_0, "null path"@),
        out && path is Some && !valid_utf8(path->Some_0@) ==> refused_for(
            outcome->Err_0,
            "path is not valid utf-8"@,
        ),
        outcome is Ok && path is Some ==> encode_utf8(outcome->Ok_0.path@) == path->Some_0@,
        outcome is Ok ==> is_default(outcome->Ok_0.options),
{
    db::law_path_is_taken_as_given(path, path_len, out);
}

// ---------------------------------------------------------------------
// The store.
// ---------------------------------------------------------------------

/// Reading, looking for and deleting a key each ask the store for exactly
/// the key that was given, so all three are of the key that a set with the
/// same arguments writes, and the set writes exactly the value given. Each
/// is refused for a null handle and for null bytes, and for nothing else.
pub proof fn law_calls_on_a_key<E>(
    db: Option<&RegolithDb<E>>,
    key: Option<&[u8]>,
    key_len: usize,
    value: Option<&[u8]>,
    value_len: usize,
    get: Result<(&RegolithDb<E>, &[u8]), Failure>,
    look: Result<(&RegolithDb<E>, &[u8]), Failure>,
    delete: Result<(&RegolithDb<E>, &[u8]), Failure>,
    set: Result<(&RegolithDb<E>, &[u8], &[u8]), Failure>,
)
    requires
        key is Some ==> key->Some_0@.len() == key_len,
        value is Some ==> value->Some_0@.len() == value_len,
        call_ensures(db::regolith_db_get_borrowed::<E>, (db, key, key_len), get),
        call_ensures(db::regolith_db_has::<E>, (db, key, key_len), look),
        call_ensures(db::regolith_db_delete::<E>, (db, key, key_len), delete),
        call_ensures(db::regolith_db_set::<E>, (db, key, key_len, value, value_len), set),
    ensures
        get is Ok <==> db is Some && (key is Some || key_len == 0),
        look is Ok <==> get is Ok,
        delete is Ok <==> get is Ok,
        set is Ok <==> get is Ok && (value is Some || value_len == 0),
        get is Ok ==> {
            &&& Some(get->Ok_0.0) == db
            &&& Some(look->Ok_0.0) == db
            &&& Some(delete->Ok_0.0) == db
            &&& get->Ok_0.1@.len() == key_len
            &&& key is Some ==> get->Ok_0.1@ == key->Some_0@
            &&& look->Ok_0.1@ == get->Ok_0.1@
            &&& delete->Ok_0.1@ == get->Ok_0.1@
        },
        set is Ok ==> {
            &&& Some(set->Ok_0.0) == db
            &&& set->Ok_0.1@ == get->Ok_0.1@
            &&& set->Ok_0.2@.len() == value_len
            &&& value is Some ==> set->Ok_0.2@ == value->Some_0@
        },
        db is None ==> {
            &&& refused_for(get->Err_0, "null db handle"@)
            &&& refused_for(look->Err_0, "null db handle"@)
            &&& refused_for(delete->Err_0, "null db handle"@)
            &&& refused_for(set->Err_0, "null db handle"@)
        },
        db is Some && get is Err ==> {
            &&& refused_for(get->Err_0, "null key"@)
            &&& refused_for(look->Err_0, "null key"@)
            &&& refused_for(delete->Err_0, "null key"@)
        },
        db is Some && set is Err ==> refused_for(set->Err_0, "null key or value"@),
{
    if key is Some {
        boundary::law_input_bytes_are_taken_whole(key->Some_0, key_len);
    }
    if value is Some {
        boundary::law_input_bytes_are_taken_whole(value->Some_0, value_len);
    }
    if key_len == 0 && get is Ok {
        assert(get->Ok_0.1@ =~= Seq::<u8>::empty());
    }
}

/// A handle is closed or emptied if it is there, and refused if it is not.
pub proof fn law_calls_on_a_handle<E>(
    given: Option<RegolithDb<E>>,
    shut: Result<RegolithDb<E>, Failure>,
    db: Option<&RegolithDb<E>>,
    emptied: Result<&RegolithDb<E>, Failure>,
)
    requires
        call_ensures(db::regolith_db_close::<E>, (given,), shut),
        call_ensures(db::regolith_db_drop_all::<E>, (db,), emptied),
    ensures
        shut is Ok <==> given is Some,
        shut is Ok ==> Some(shut->Ok_0) == given,
        shut is Err ==> refused_for(shut->Err_0, "null db handle"@),
        emptied is Ok <==> db is Some,
        emptied is Ok ==> Some(emptied->Ok_0) == db,
        emptied is Err ==> refused_for(emptied->Err_0, "null db handle"@),
{
}

/// A transaction is begun on the handle given, read-only for any number but
/// zero.
pub proof fn law_db_txn<E>(
    db: Option<&RegolithDb<E>>,
    readonly: u8,
    out: bool,
    outcome: Result<(&RegolithDb<E>, bool), Failure>,
)
    requires
        call_ensures(db::regolith_db_txn::<E>, (db, readonly, out), outcome),
    ensures
        outcome is Ok <==> db is Some && out,
        outcome is Ok ==> Some(outcome->Ok_0.0) == db && (outcome->Ok_0.1 <==> readonly != 0),
        db is None ==> refused_for(outcome->Err_0, "null db handle"@),
        db is Some && !out ==> refused_for(outcome->Err_0, "null out-param"@),
{
}

/// Is this iterator fresh: un-positioned, with a reset pending and nothing
/// retained or held back?
pub open spec fn is_fresh(it: iter::IterView) -> bool {
    &&& it.reset
    &&& !it.include_current
    &&& it.current is None
    &&& !it.in_range()
    &&& it.batch_values.len() == 0
    &&& it.batch_count == 0
    &&& it.pending is None
}

/// An iterator is made on the handle given, fresh, and over exactly the keys
/// that were asked for.
pub proof fn law_db_iter<E>(
    db: Option<&RegolithDb<E>>,
    opts: Option<&RegolithIterOptions>,
    out: bool,
    outcome: Result<(&RegolithDb<E>, RegolithIter), Failure>,
    key: Seq<u8>,
)
    requires
        opts is Some ==> opts->Some_0.lengths_match(),
        call_ensures(db::regolith_db_iter::<E>, (db, opts, out), outcome),
    ensures
        outcome is Ok <==> db is Some && out,
        db is None ==> refused_for(outcome->Err_0, "null db handle"@),
        db is Some && !out ==> refused_for(outcome->Err_0, "null out-param"@),
        outcome is Ok ==> {
            let it = outcome->Ok_0.1@;
            &&& Some(outcome->Ok_0.0) == db
            &&& is_fresh(it)
            &&& it.source is Snapshot
            &&& asked_for(opts, it.bounds, key)
        },
{
    lemma_asked_for(opts, key);
}

/// Is a range as these options ask for, as far as `key` is concerned?
pub open spec fn asked_for(
    opts: Option<&RegolithIterOptions>,
    range: bounds::BoundsView,
    key: Seq<u8>,
) -> bool {
    match opts {
        None => range.contains(key) && !range.reverse && !range.keys_only,
        Some(given) => {
            &&& range.reverse <==> given.reverse != 0
            &&& range.keys_only <==> given.keys_only != 0
            &&& range.contains(key) <==> if given.prefix is Some && given.prefix_len > 0 {
                given.prefix->Some_0@.is_prefix_of(key)
            } else {
                &&& given.start is Some && given.start_len > 0 ==> !order::before(
                    key,
                    given.start->Some_0@,
                )
                &&& given.end is Some && given.end_len > 0 ==> order::before(
                    key,
                    given.end->Some_0@,
                )
            }
        },
    }
}

proof fn lemma_asked_for(opts: Option<&RegolithIterOptions>, key: Seq<u8>)
    requires
        opts is Some ==> opts->Some_0.lengths_match(),
    ensures
        asked_for(opts, bounds::bounds_of(opts), key),
{
    if let Some(given) = opts {
        bounds::law_range_is_what_was_asked_for(given, key);
        bounds::law_manner_is_what_was_asked_for(given);
    }
}

// ---------------------------------------------------------------------
// Transactions.
// ---------------------------------------------------------------------

/// As [`law_calls_on_a_key`], through a transaction. A write through a
/// read-only one is refused before its bytes are looked at.
pub proof fn law_calls_on_a_key_in_a_transaction<L>(
    txn: Option<&RegolithTxn<L>>,
    key: Option<&[u8]>,
    key_len: usize,
    value: Option<&[u8]>,
    value_len: usize,
    get: Result<(&RegolithTxn<L>, &[u8]), Failure>,
    look: Result<(&RegolithTxn<L>, &[u8]), Failure>,
    delete: Result<(&RegolithTxn<L>, &[u8]), Failure>,
    set: Result<(&RegolithTxn<L>, &[u8], &[u8]), Failure>,
)
    requires
        key is Some ==> key->Some_0@.len() == key_len,
        value is Some ==> value->Some_0@.len() == value_len,
        call_ensures(txn::regolith_txn_get_borrowed::<L>, (txn, key, key_len), get),
        call_ensures(txn::regolith_txn_has::<L>, (txn, key, key_len), look),
        call_ensures(txn::regolith_txn_delete::<L>, (txn, key, key_len), delete),
        call_ensures(txn::regolith_txn_set::<L>, (txn, key, key_len, value, value_len), set),
    ensures
        get is Ok <==> txn is Some && (key is Some || key_len == 0),
        look is Ok <==> get is Ok,
        delete is Ok <==> get is Ok && !txn->Some_0.inner.readonly,
        set is Ok <==> delete is Ok && (value is Some || value_len == 0),
        get is Ok ==> {
            &&& Some(get->Ok_0.0) == txn
            &&& Some(look->Ok_0.0) == txn
            &&& get->Ok_0.1@.len() == key_len
            &&& key is Some ==> get->Ok_0.1@ == key->Some_0@
            &&& look->Ok_0.1@ == get->Ok_0.1@
        },
        delete is Ok ==> Some(delete->Ok_0.0) == txn && delete->Ok_0.1@ == get->Ok_0.1@,
        set is Ok ==> {
            &&& Some(set->Ok_0.0) == txn
            &&& set->Ok_0.1@ == get->Ok_0.1@
            &&& set->Ok_0.2@.len() == value_len
            &&& value is Some ==> set->Ok_0.2@ == value->Some_0@
        },
        txn is None ==> {
            &&& refused_for(get->Err_0, "null txn handle"@)
            &&& refused_for(look->Err_0, "null txn handle"@)
            &&& refused_for(delete->Err_0, "null txn handle"@)
            &&& refused_for(set->Err_0, "null txn handle"@)
        },
        txn is Some && get is Err ==> {
            &&& refused_for(get->Err_0, "null key"@)
            &&& refused_for(look->Err_0, "null key"@)
        },
        txn is Some && txn->Some_0.inner.readonly ==> {
            &&& delete->Err_0.status == 4
            &&& delete->Err_0.detail is None
            &&& set->Err_0.status == 4
            &&& set->Err_0.detail is None
        },
        txn is Some && !txn->Some_0.inner.readonly && delete is Err ==> refused_for(
            delete->Err_0,
            "null key"@,
        ),
        txn is Some && !txn->Some_0.inner.readonly && set is Err ==> refused_for(
            set->Err_0,
            "null key or value"@,
        ),
{
    if key is Some {
        boundary::law_input_bytes_are_taken_whole(key->Some_0, key_len);
    }
    if value is Some {
        boundary::law_input_bytes_are_taken_whole(value->Some_0, value_len);
    }
    if key_len == 0 && get is Ok {
        assert(get->Ok_0.1@ =~= Seq::<u8>::empty());
    }
}

/// Is this the reply where no transaction is to be had: DISCARDED if it was
/// resolved, and otherwise that its lock is unusable?
pub open spec fn has_none(bad: Failure, resolved: bool) -> bool {
    if resolved {
        bad.status == 5 && bad.detail is None
    } else {
        bad.status == 8 && bad.detail is Some && bad.detail->Some_0@
            == "transaction unusable after a panic; discard it and begin a new one"@
    }
}

/// The transaction behind a lock is the one that is found, and taking it
/// leaves none behind.
pub proof fn law_finding_and_taking<T>(
    lock: Option<&Option<T>>,
    found: Result<&T, Failure>,
    held: Option<&mut Option<T>>,
    taken: Result<T, Failure>,
)
    requires
        call_ensures(txn::with::<T>, (lock,), found),
        call_ensures(txn::take::<T>, (held,), taken),
    ensures
        found is Ok <==> lock is Some && lock->Some_0 is Some,
        found is Ok ==> Some(*found->Ok_0) == *lock->Some_0,
        found is Err ==> has_none(found->Err_0, lock is Some),
        taken is Ok <==> held is Some && *held->Some_0 is Some,
        taken is Ok ==> Some(taken->Ok_0) == *held->Some_0,
        taken is Err ==> has_none(taken->Err_0, held is Some),
        held is Some ==> *final(held->Some_0) is None,
{
}

/// A handle is resolved or freed if it is there, and refused if it is not.
/// What was taken is rolled back; discarding fails only where taking failed
/// for another reason than that the transaction is resolved, and freeing
/// does not fail.
pub proof fn law_resolving<L, T>(
    txn: Option<&RegolithTxn<L>>,
    commit: Result<&RegolithTxn<L>, Failure>,
    discard: Result<&RegolithTxn<L>, Failure>,
    owned: Option<RegolithTxn<L>>,
    free: Result<RegolithTxn<L>, Failure>,
    taken: Result<T, Failure>,
    discarded: Result<Option<T>, Failure>,
    freed: Option<T>,
)
    requires
        call_ensures(txn::regolith_txn_commit::<L>, (txn,), commit),
        call_ensures(txn::regolith_txn_discard::<L>, (txn,), discard),
        call_ensures(txn::regolith_txn_free::<L>, (owned,), free),
        call_ensures(txn::discarded::<T>, (taken,), discarded),
        call_ensures(txn::freed::<T>, (taken,), freed),
    ensures
        commit is Ok <==> txn is Some,
        commit is Ok ==> Some(commit->Ok_0) == txn,
        commit is Err ==> refused_for(commit->Err_0, "null txn handle"@),
        discard is Ok <==> txn is Some,
        discard is Ok ==> Some(discard->Ok_0) == txn,
        discard is Err ==> refused_for(discard->Err_0, "null txn handle"@),
        free is Ok <==> owned is Some,
        free is Ok ==> Some(free->Ok_0) == owned,
        free is Err ==> refused_for(free->Err_0, "null txn handle"@),
        discarded is Err <==> taken is Err && taken->Err_0.status != 5,
        discarded is Err ==> discarded->Err_0@ == taken->Err_0@,
        discarded is Ok ==> (discarded->Ok_0 is Some <==> taken is Ok),
        taken is Ok ==> discarded->Ok_0 == Some(taken->Ok_0),
        freed is Some <==> taken is Ok,
        freed is Some ==> freed->Some_0 == taken->Ok_0,
{
}

/// A transaction's body holds what it was made of.
pub proof fn law_txn_inner<L>(lock: L, readonly: bool, inner: TxnInner<L>)
    requires
        call_ensures(TxnInner::<L>::new, (lock, readonly), inner),
    ensures
        inner.txn == lock,
        inner.readonly == readonly,
{
}

/// An iterator over a transaction is over exactly the keys that were asked
/// for, on the handle given.
pub proof fn law_txn_iter<L>(
    txn: Option<&RegolithTxn<L>>,
    opts: Option<&RegolithIterOptions>,
    out: bool,
    outcome: Result<(&RegolithTxn<L>, Bounds), Failure>,
    key: Seq<u8>,
)
    requires
        opts is Some ==> opts->Some_0.lengths_match(),
        call_ensures(txn::regolith_txn_iter::<L>, (txn, opts, out), outcome),
    ensures
        outcome is Ok <==> txn is Some && out,
        txn is None ==> refused_for(outcome->Err_0, "null txn handle"@),
        txn is Some && !out ==> refused_for(outcome->Err_0, "null out-param"@),
        outcome is Ok ==> Some(outcome->Ok_0.0) == txn && asked_for(opts, outcome->Ok_0.1@, key),
{
    lemma_asked_for(opts, key);
}

// ---------------------------------------------------------------------
// Iterators.
// ---------------------------------------------------------------------

/// An iterator is made fresh and over the bounds given; over a transaction
/// only if that is live.
pub proof fn law_making_iterators<T>(
    range: Bounds,
    over_snapshot: RegolithIter,
    lock: Option<&Option<T>>,
    over_txn: Result<RegolithIter, Failure>,
    it: &RegolithIter,
    without: bool,
)
    requires
        call_ensures(RegolithIter::over_snapshot, (range,), over_snapshot),
        call_ensures(RegolithIter::over_txn::<T>, (lock, range), over_txn),
        call_ensures(RegolithIter::keys_only, (it,), without),
    ensures
        is_fresh(over_snapshot@),
        over_snapshot@.source is Snapshot,
        over_snapshot@.bounds == range@,
        over_txn is Ok <==> lock is Some && lock->Some_0 is Some,
        over_txn is Ok ==> is_fresh(over_txn->Ok_0@) && over_txn->Ok_0@.source is Txn
            && over_txn->Ok_0@.bounds == range@,
        over_txn is Err ==> has_none(over_txn->Err_0, lock is Some),
        without <==> it@.bounds.keys_only,
{
}

/// Stepping, seeking and resetting an iterator that is there do what the
/// laws of iteration speak of; a null handle and a null key are refused.
pub proof fn law_moving_an_iterator(
    it: Option<&mut RegolithIter>,
    stepped: Step,
    other: Option<&mut RegolithIter>,
    key: Option<&[u8]>,
    key_len: usize,
    sought: Step,
    third: Option<&mut RegolithIter>,
    reset: Result<(), Failure>,
)
    requires
        key is Some ==> key->Some_0@.len() == key_len,
        call_ensures(iter::regolith_iter_next, (it,), stepped),
        call_ensures(iter::regolith_iter_seek, (other, key, key_len), sought),
        call_ensures(iter::regolith_iter_reset, (third,), reset),
    ensures
        it is None ==> stepped@ == iter::StepView::Done(
            Err(failure::invalid("null iterator handle"@)),
        ),
        it is Some ==> (final(it->Some_0)@, stepped@) == iter::next(it->Some_0@),
        other is None ==> sought@ == iter::StepView::Done(
            Err(failure::invalid("null iterator handle"@)),
        ),
        other is Some && key is Some ==> (final(other->Some_0)@, sought@) == iter::seek(
            other->Some_0@,
            key->Some_0@,
        ),
        other is Some && key is None && key_len == 0 ==> (final(other->Some_0)@, sought@)
            == iter::seek(other->Some_0@, Seq::empty()),
        other is Some && key is None && key_len > 0 ==> final(other->Some_0)@ == other->Some_0@
            && sought@ == iter::StepView::Done(Err(failure::invalid("null key"@))),
        reset is Ok <==> third is Some,
        reset is Err ==> refused_for(reset->Err_0, "null iterator handle"@),
        third is Some ==> final(third->Some_0)@ == iter::reset(third->Some_0@),
{
    if key is Some {
        boundary::law_input_bytes_are_taken_whole(key->Some_0, key_len);
    }
}

/// What the store answers is taken in as the laws of iteration speak of.
pub proof fn law_reporting_to_an_iterator(
    it: &mut RegolithIter,
    settle: Settle,
    landing: Landing,
    next: Step,
    other: &mut RegolithIter,
    outcome: Result<Option<Cut>, Failure>,
    then: Step,
)
    requires
        call_ensures(RegolithIter::landed, (it, settle, landing), next),
        call_ensures(RegolithIter::rebuilt, (other, outcome), then),
    ensures
        (final(it)@, next@) == iter::landed(old(it)@, settle, landing@),
        outcome matches Ok(cut) ==> (final(other)@, then@) == iter::rebuilt(
            old(other)@,
            Ok(written::cut_view(cut)),
        ),
        outcome matches Err(bad) ==> (final(other)@, then@) == iter::rebuilt(old(other)@, Err(bad@)),
{
}

/// As [`law_reporting_to_an_iterator`], while a batch is gathered.
pub proof fn law_reporting_to_a_batch(
    it: &mut RegolithIter,
    settle: Settle,
    batch: iter::Batch,
    landing: Landing,
    next: BatchStep,
    other: &mut RegolithIter,
    outcome: Result<Option<Cut>, Failure>,
    then: BatchStep,
)
    requires
        call_ensures(RegolithIter::batch_landed, (it, settle, batch, landing), next),
        call_ensures(RegolithIter::batch_rebuilt, (other, batch, outcome), then),
    ensures
        ({
            let (there, answer) = iter::landed(old(it)@, settle, landing@);
            (final(it)@, next@) == iter::resume(there, batch@, answer)
        }),
        outcome matches Ok(cut) ==> {
            let (there, answer) = iter::rebuilt(old(other)@, Ok(written::cut_view(cut)));
            (final(other)@, then@) == iter::resume(there, batch@, answer)
        },
        outcome matches Err(bad) ==> {
            let (there, answer) = iter::rebuilt(old(other)@, Err(bad@));
            (final(other)@, then@) == iter::resume(there, batch@, answer)
        },
{
}

/// A batch is asked for with room for at least one entry and with all its
/// out-params.
pub proof fn law_next_batch(
    it: Option<&mut RegolithIter>,
    max_entries: usize,
    out: bool,
    out_len: bool,
    out_count: bool,
    answer: BatchStep,
)
    requires
        call_ensures(
            iter::regolith_iter_next_batch,
            (it, max_entries, out, out_len, out_count),
            answer,
        ),
    ensures
        it is None ==> answer@ == iter::BatchStepView::Done(
            Err(failure::invalid("null iterator handle"@)),
        ),
        it is Some && !(out && out_len && out_count) ==> final(it->Some_0)@ == it->Some_0@
            && answer@ == iter::BatchStepView::Done(Err(failure::invalid("null out-param"@))),
        it is Some && out && out_len && out_count && max_entries == 0 ==> final(it->Some_0)@
            == it->Some_0@ && answer@ == iter::BatchStepView::Done(
            Err(failure::invalid("max_entries must be at least 1"@)),
        ),
        it is Some && out && out_len && out_count && max_entries > 0 ==> (
            final(it->Some_0)@,
            answer@,
        ) == iter::next_batch(it->Some_0@, max_entries as nat),
{
}

/// The key and the value of the entry that an iterator is on are copied out
/// whole, the value empty where only keys are wanted. Off an entry both are
/// NOT_FOUND.
pub proof fn law_reading_the_entry(
    it: Option<&RegolithIter>,
    out: bool,
    out_len: bool,
    key: Result<Vec<u8>, Failure>,
    value: Result<Vec<u8>, Failure>,
)
    requires
        call_ensures(iter::regolith_iter_key, (it, out, out_len), key),
        call_ensures(iter::regolith_iter_value, (it, out, out_len), value),
    ensures
        key is Ok <==> it is Some && it->Some_0@.in_range() && out && out_len,
        value is Ok <==> key is Ok,
        key is Ok ==> {
            let entry = it->Some_0@.current->Some_0;
            &&& key->Ok_0@ == entry.key
            &&& entry.value is Some ==> value->Ok_0@ == entry.value->Some_0
            &&& entry.value is None ==> value->Ok_0@.len() == 0
        },
        it is None ==> refused_for(key->Err_0, "null iterator handle"@) && refused_for(
            value->Err_0,
            "null iterator handle"@,
        ),
        it is Some && !it->Some_0@.in_range() ==> {
            &&& key->Err_0.status == 1
            &&& key->Err_0.detail is None
            &&& value->Err_0.status == 1
            &&& value->Err_0.detail is None
        },
        it is Some && it->Some_0@.in_range() && key is Err ==> refused_for(
            key->Err_0,
            "null out-param"@,
        ) && refused_for(value->Err_0, "null out-param"@),
{
}

/// A value of the last batch is lent whole under an index below the batch's
/// count, if it was retained; any other index is refused.
pub proof fn law_batch_value(
    it: Option<&RegolithIter>,
    idx: usize,
    val: bool,
    val_len: bool,
    outcome: Result<Option<&[u8]>, Failure>,
)
    requires
        call_ensures(iter::regolith_iter_batch_value, (it, idx, val, val_len), outcome),
    ensures
        outcome is Ok <==> it is Some && val && val_len && idx < it->Some_0@.batch_count,
        outcome is Ok ==> {
            let values = it->Some_0@.batch_values;
            &&& outcome->Ok_0 is Some <==> idx < values.len()
            &&& outcome->Ok_0 is Some ==> outcome->Ok_0->Some_0@ == values[idx as int]
        },
        it is None ==> refused_for(outcome->Err_0, "null iterator handle"@),
        it is Some && !(val && val_len) ==> refused_for(outcome->Err_0, "null out-param"@),
        it is Some && val && val_len && idx >= it->Some_0@.batch_count ==> refused_for(
            outcome->Err_0,
            "batch value index out of range"@,
        ),
{
}

/// An iterator is closed if it is there, and refused if it is not.
pub proof fn law_iter_close(it: Option<RegolithIter>, outcome: Result<RegolithIter, Failure>)
    requires
        call_ensures(iter::regolith_iter_close, (it,), outcome),
    ensures
        outcome is Ok <==> it is Some,
        outcome is Ok ==> Some(outcome->Ok_0) == it,
        outcome is Err ==> refused_for(outcome->Err_0, "null iterator handle"@),
{
}

/// A scan comes to the keys that are not before its start and are before
/// its end. Up to a key of it there are those before that key in its
/// direction, and beyond it those behind.
pub proof fn law_scans(
    scan: Scan,
    at: &[u8],
    key: &[u8],
    inside: bool,
    near: Scan,
    far: Scan,
)
    requires
        call_ensures(Scan::contains, (&scan, key), inside),
        call_ensures(Scan::up_to, (scan, at), near),
        call_ensures(Scan::beyond, (&scan, at), far),
        scan@.contains(at@),
    ensures
        inside <==> {
            &&& scan.start is Some ==> !order::before(key@, scan.start->Some_0@)
            &&& scan.end is Some ==> order::before(key@, scan.end->Some_0@)
        },
        inside <==> scan@.contains(key@),
        near@.contains(key@) <==> inside && if scan.direction is Forward {
            order::before(key@, at@)
        } else {
            order::before(at@, key@)
        },
        far@.contains(key@) <==> inside && if scan.direction is Forward {
            order::before(at@, key@)
        } else {
            order::before(key@, at@)
        },
        near.direction == scan.direction,
        far.direction == scan.direction,
{
    written::lemma_split(scan@, at@, key@);
}

// ---------------------------------------------------------------------
// The log of a transaction's writes.
// ---------------------------------------------------------------------

/// A log begins empty. An iterator that is opened begins behind everything
/// noted; one that is closed takes one mark away, its own, and with the
/// last everything noted goes.
pub proof fn law_opening_and_closing(
    fresh: WriteLog,
    log: &mut WriteLog,
    mark: usize,
    other: &mut WriteLog,
    gone: usize,
    idle: bool,
)
    requires
        call_ensures(WriteLog::new, (), fresh),
        call_ensures(WriteLog::iterator_opened, (log,), mark),
        call_ensures(WriteLog::iterator_closed, (other, gone), idle),
    ensures
        fresh@.keys.len() == 0,
        fresh@.marks.len() == 0,
        mark == old(log)@.keys.len(),
        final(log)@.keys == old(log)@.keys,
        final(log)@.marks.to_multiset() == old(log)@.marks.to_multiset().insert(mark as nat),
        final(other)@.marks.to_multiset() == old(other)@.marks.to_multiset().remove(gone as nat),
        idle <==> final(other)@.marks.len() == 0,
        idle <==> old(other)@.marks.len() == 0 || old(other)@.marks == seq![gone as nat],
        final(other)@.keys == if idle {
            Seq::empty()
        } else {
            old(other)@.keys
        },
{
    written::law_each_iterator_has_its_own_mark(log@, mark as nat);
    written::law_each_iterator_has_its_own_mark(other@, gone as nat);
    written::law_notes_last_as_long_as_iterators(other@, gone as nat);
    if idle {
        assert(final(other)@.keys =~= Seq::<Seq<u8>>::empty());
    }
}

/// Is the `m`th of a log's iterators open, and was `key` not noted since that
/// was opened?
pub open spec fn is_new_to(log: written::LogView, m: int, key: Seq<u8>) -> bool {
    &&& 0 <= m < log.marks.len()
    &&& forall|i: int| log.marks[m] <= i < log.keys.len() ==> #[trigger] log.keys[i] != key
}

/// A key is noted exactly when an iterator is open that it was not noted
/// for since that was opened, and then behind everything else.
pub proof fn law_noting(log: &mut WriteLog, key: &[u8], news: bool)
    requires
        call_ensures(WriteLog::note, (log, key), news),
    ensures
        news <==> exists|m: int| #[trigger] is_new_to(old(log)@, m, key@),
        final(log)@.marks == old(log)@.marks,
        final(log)@.keys == if news {
            old(log)@.keys.push(key@)
        } else {
            old(log)@.keys
        },
{
    if news {
        let m = choose|m: int|
            0 <= m < log@.marks.len() && !written::noted_since(
                log@,
                #[trigger] log@.marks[m],
                key@,
            );
        assert(is_new_to(log@, m, key@));
    }
    if exists|m: int| #[trigger] is_new_to(log@, m, key@) {
        let m = choose|m: int| #[trigger] is_new_to(log@, m, key@);
        assert(!written::noted_since(log@, log@.marks[m], key@));
    }
}

/// A scan is cut at the first key in it that was noted since `mark`, and
/// only there: up to it the scan comes to everything before it and to
/// nothing noted, and beyond it to everything behind.
pub proof fn law_cutting(
    log: &WriteLog,
    mark: usize,
    scan: Scan,
    result: (Scan, Option<Cut>),
    key: Seq<u8>,
)
    requires
        call_ensures(WriteLog::cut, (log, mark, scan), result),
    ensures
        result.1 is None <==> forall|i: int|
            mark <= i < log@.keys.len() ==> !scan@.contains(#[trigger] log@.keys[i]),
        result.1 is None ==> (result.0@.contains(key) <==> scan@.contains(key)),
        forall|i: int| mark <= i < log@.keys.len() ==> !result.0@.contains(#[trigger] log@.keys[i]),
        result.1 is Some ==> {
            let at = result.1->Some_0@;
            &&& mark <= at.index < log@.keys.len()
            &&& log@.keys[at.index as int] == at.key
            &&& forall|i: int| mark <= i < at.index ==> #[trigger] log@.keys[i] != at.key
            &&& scan@.contains(at.key)
            &&& result.0@.contains(key) <==> scan@.contains(key) && if scan.direction is Forward {
                order::before(key, at.key)
            } else {
                order::before(at.key, key)
            }
            &&& at.rest.contains(key) <==> scan@.contains(key) && if scan.direction is Forward {
                order::before(at.key, key)
            } else {
                order::before(key, at.key)
            }
        },
        result.0.direction == scan.direction,
{
    written::law_a_cut_stream_shows_nothing_noted(log@.keys, mark as nat, scan@, key);
    written::law_a_cut_is_made_no_sooner_than_needed(log@.keys, mark as nat, scan@, key);
}

/// A cut gives the number of its note and what lies beyond it, and the scan
/// of one key comes to that key alone.
pub proof fn law_cuts(
    cut: &Cut,
    index: usize,
    rest: Scan,
    key: &[u8],
    scan: Scan,
    other: Seq<u8>,
)
    requires
        call_ensures(Cut::index, (cut,), index),
        call_ensures(Cut::rest, (cut,), rest),
        call_ensures(written::only, (key,), scan),
    ensures
        index == cut@.index,
        rest@ == cut@.rest,
        scan@.contains(other) <==> other == key@,
{
}

} // verus!
