//! What holds of every write-batch frame.

use vstd::bytes::*;
use vstd::prelude::*;

use crate::batch;
use crate::batch::{
    BATCH_COUNT_LEN, MAX_BATCH_RECORD_LEN, MAX_FRAME_WITHOUT_SIZING, OP_DELETE, OP_SET,
};
use crate::engine;
use crate::failure;
use crate::text;

verus! {

/// A field of a frame: its 8-byte little-endian length, then its bytes.
pub open spec fn framed_field(bytes: Seq<u8>) -> Seq<u8> {
    spec_u64_to_le_bytes(bytes.len() as u64) + bytes
}

/// An op as a frame holds it.
pub open spec fn framed_op(op: engine::Op) -> Seq<u8> {
    match op.1 {
        Some(value) => seq![OP_SET] + framed_field(op.0) + framed_field(value),
        None => seq![OP_DELETE] + framed_field(op.0),
    }
}

/// The frame of a sequence of ops.
pub open spec fn framed(ops: Seq<engine::Op>) -> Seq<u8>
    decreases ops.len(),
{
    if ops.len() == 0 {
        Seq::empty()
    } else {
        framed_op(ops[0]) + framed(ops.skip(1))
    }
}

/// Engine-side record bytes that `ops` add to the record's op count.
pub open spec fn ops_record_len(ops: Seq<engine::Op>) -> nat
    decreases ops.len(),
{
    if ops.len() == 0 {
        0
    } else {
        batch::op_record_len(ops[0]) + ops_record_len(ops.skip(1))
    }
}

/// Length of the engine's record of a batch that holds `ops`.
pub open spec fn record_len(ops: Seq<engine::Op>) -> nat {
    BATCH_COUNT_LEN as nat + ops_record_len(ops)
}

/// How many of `ops` are sets.
pub open spec fn sets(ops: Seq<engine::Op>) -> nat
    decreases ops.len(),
{
    if ops.len() == 0 {
        0
    } else {
        sets(ops.skip(1)) + if ops[0].1 is Some {
            1nat
        } else {
            0nat
        }
    }
}

pub(crate) proof fn lemma_framed_field_is_read_back(bytes: Seq<u8>, tail: Seq<u8>, index: nat, what: Seq<char>)
    requires
        bytes.len() <= u32::MAX,
    ensures
        batch::first_field(framed_field(bytes) + tail, index, what) == Ok::<
            (Seq<u8>, Seq<u8>),
            failure::FailureView,
        >((bytes, tail)),
{
    lemma_auto_spec_u64_to_from_le_bytes();
    let len = bytes.len() as u64;
    let rest = framed_field(bytes) + tail;
    assert(spec_u64_to_le_bytes(len).len() == 8);
    assert(rest.take(8) =~= spec_u64_to_le_bytes(len));
    assert(rest.skip(8) =~= bytes + tail);
    assert((bytes + tail).take(len as int) =~= bytes);
    assert((bytes + tail).skip(len as int) =~= tail);
}

proof fn lemma_framed_op_is_read_back(op: engine::Op, tail: Seq<u8>, index: nat)
    requires
        batch::op_record_len(op) <= MAX_BATCH_RECORD_LEN,
    ensures
        batch::first_op(framed_op(op) + tail, index) == Ok::<
            (engine::Op, Seq<u8>),
            failure::FailureView,
        >((op, tail)),
{
    let rest = framed_op(op) + tail;
    match op.1 {
        Some(value) => {
            assert(rest.skip(1) =~= framed_field(op.0) + (framed_field(value) + tail));
            lemma_framed_field_is_read_back(op.0, framed_field(value) + tail, index, "key"@);
            lemma_framed_field_is_read_back(value, tail, index, "value"@);
        },
        None => {
            assert(rest.skip(1) =~= framed_field(op.0) + tail);
            lemma_framed_field_is_read_back(op.0, tail, index, "key"@);
        },
    }
}

proof fn lemma_framed_ops_decode(ops: Seq<engine::Op>, index: nat, record: nat)
    requires
        record + ops_record_len(ops) <= MAX_BATCH_RECORD_LEN,
    ensures
        batch::decoded(framed(ops), index, record) == Ok::<
            Seq<engine::Op>,
            failure::FailureView,
        >(ops),
    decreases ops.len(),
{
    if ops.len() == 0 {
        assert(ops =~= Seq::empty());
    } else {
        let rest = ops.skip(1);
        lemma_framed_op_is_read_back(ops[0], framed(rest), index);
        lemma_framed_ops_decode(rest, index + 1, record + batch::op_record_len(ops[0]));
        assert(seq![ops[0]] + rest =~= ops);
    }
}

proof fn lemma_read_field_was_framed(rest: Seq<u8>, index: nat, what: Seq<char>)
    requires
        batch::first_field(rest, index, what) is Ok,
    ensures
        ({
            let (bytes, tail) = batch::first_field(rest, index, what)->Ok_0;
            rest == framed_field(bytes) + tail
        }),
{
    lemma_auto_spec_u64_to_from_le_bytes();
    let (bytes, tail) = batch::first_field(rest, index, what)->Ok_0;
    let len = spec_u64_from_le_bytes(rest.take(8));
    assert(bytes.len() as u64 == len);
    assert(spec_u64_to_le_bytes(len) == rest.take(8));
    assert(rest =~= rest.take(8) + (bytes + tail));
    assert(rest =~= framed_field(bytes) + tail);
}

proof fn lemma_read_op_was_framed(rest: Seq<u8>, index: nat)
    requires
        rest.len() > 0,
        batch::first_op(rest, index) is Ok,
    ensures
        ({
            let (op, tail) = batch::first_op(rest, index)->Ok_0;
            rest == framed_op(op) + tail
        }),
{
    let (op, tail) = batch::first_op(rest, index)->Ok_0;
    lemma_read_field_was_framed(rest.skip(1), index, "key"@);
    if rest[0] == OP_SET {
        let after_key = batch::first_field(rest.skip(1), index, "key"@)->Ok_0.1;
        lemma_read_field_was_framed(after_key, index, "value"@);
    }
    assert(rest =~= seq![rest[0]] + rest.skip(1));
    assert(rest =~= framed_op(op) + tail);
}

proof fn lemma_decoded_ops_were_framed(rest: Seq<u8>, index: nat, record: nat)
    requires
        batch::decoded(rest, index, record) is Ok,
        record <= MAX_BATCH_RECORD_LEN,
    ensures
        ({
            let ops = batch::decoded(rest, index, record)->Ok_0;
            &&& rest == framed(ops)
            &&& record + ops_record_len(ops) <= MAX_BATCH_RECORD_LEN
        }),
    decreases rest.len(),
{
    if rest.len() > 0 {
        let (op, tail) = batch::first_op(rest, index)->Ok_0;
        let more = record + batch::op_record_len(op);
        lemma_read_op_was_framed(rest, index);
        lemma_decoded_ops_were_framed(tail, index + 1, more);
        let ops = batch::decoded(tail, index + 1, more)->Ok_0;
        assert((seq![op] + ops).skip(1) =~= ops);
    } else {
        assert(rest =~= Seq::empty());
    }
}

/// A frame decodes into some ops exactly when it is the frame of those ops
/// and their record stays within the engine's limit: what was packed comes
/// back, in its order, and nothing else is accepted.
pub proof fn law_frame_round_trips(frame: Seq<u8>, ops: Seq<engine::Op>)
    ensures
        batch::decoded(frame, 0, BATCH_COUNT_LEN as nat) == Ok::<
            Seq<engine::Op>,
            failure::FailureView,
        >(ops) <==> frame == framed(ops) && record_len(ops) <= MAX_BATCH_RECORD_LEN,
{
    if record_len(ops) <= MAX_BATCH_RECORD_LEN {
        lemma_framed_ops_decode(ops, 0, BATCH_COUNT_LEN as nat);
    }
    if batch::decoded(frame, 0, BATCH_COUNT_LEN as nat) is Ok {
        lemma_decoded_ops_were_framed(frame, 0, BATCH_COUNT_LEN as nat);
    }
}

proof fn lemma_trailing_byte(rest: Seq<u8>, byte: u8, index: nat, record: nat)
    requires
        batch::decoded(rest, index, record) is Ok,
    ensures
        batch::decoded(rest.push(byte), index, record) is Err,
    decreases rest.len(),
{
    let longer = rest.push(byte);
    if rest.len() > 0 {
        let (op, tail) = batch::first_op(rest, index)->Ok_0;
        lemma_trailing_byte(tail, byte, index + 1, record + batch::op_record_len(op));
        let after_tag = rest.skip(1);
        assert(longer.skip(1) =~= after_tag.push(byte));
        lemma_field_of_longer(after_tag, byte, index, "key"@);
        if rest[0] == OP_SET {
            let after_key = batch::first_field(after_tag, index, "key"@)->Ok_0.1;
            lemma_field_of_longer(after_key, byte, index, "value"@);
        }
    }
}

proof fn lemma_field_of_longer(rest: Seq<u8>, byte: u8, index: nat, what: Seq<char>)
    requires
        batch::first_field(rest, index, what) is Ok,
    ensures
        ({
            let (bytes, tail) = batch::first_field(rest, index, what)->Ok_0;
            batch::first_field(rest.push(byte), index, what) == Ok::<
                (Seq<u8>, Seq<u8>),
                failure::FailureView,
            >((bytes, tail.push(byte)))
        }),
{
    let (bytes, tail) = batch::first_field(rest, index, what)->Ok_0;
    let longer = rest.push(byte);
    assert(longer.take(8) =~= rest.take(8));
    assert(longer.skip(8) =~= rest.skip(8).push(byte));
    let len = spec_u64_from_le_bytes(rest.take(8)) as int;
    assert(longer.skip(8).take(len) =~= bytes);
    assert(longer.skip(8).skip(len) =~= tail.push(byte));
}

/// One byte behind a frame that decodes makes it malformed, whatever the
/// byte is.
pub proof fn law_trailing_byte_is_rejected(frame: Seq<u8>, byte: u8)
    requires
        batch::decoded(frame, 0, BATCH_COUNT_LEN as nat) is Ok,
    ensures
        batch::decoded(frame.push(byte), 0, BATCH_COUNT_LEN as nat) is Err,
{
    lemma_trailing_byte(frame, byte, 0, BATCH_COUNT_LEN as nat);
}

proof fn lemma_field_of_shorter(rest: Seq<u8>, index: nat, what: Seq<char>)
    requires
        batch::first_field(rest, index, what) is Ok,
    ensures
        ({
            let (bytes, tail) = batch::first_field(rest, index, what)->Ok_0;
            if tail.len() == 0 {
                batch::first_field(rest.drop_last(), index, what) is Err
            } else {
                batch::first_field(rest.drop_last(), index, what) == Ok::<
                    (Seq<u8>, Seq<u8>),
                    failure::FailureView,
                >((bytes, tail.drop_last()))
            }
        }),
{
    let (bytes, tail) = batch::first_field(rest, index, what)->Ok_0;
    let shorter = rest.drop_last();
    if shorter.len() >= 8 {
        let len = spec_u64_from_le_bytes(rest.take(8)) as int;
        assert(shorter.take(8) =~= rest.take(8));
        assert(shorter.skip(8) =~= rest.skip(8).drop_last());
        if tail.len() > 0 {
            assert(shorter.skip(8).take(len) =~= bytes);
            assert(shorter.skip(8).skip(len) =~= tail.drop_last());
        }
    }
}

proof fn lemma_missing_byte(rest: Seq<u8>, index: nat, record: nat)
    requires
        rest.len() > 0,
        batch::decoded(rest, index, record) is Ok,
    ensures
        batch::decoded(rest.drop_last(), index, record) is Err,
    decreases rest.len(),
{
    let (op, tail) = batch::first_op(rest, index)->Ok_0;
    let shorter = rest.drop_last();
    let after_tag = rest.skip(1);
    assert(shorter.skip(1) =~= after_tag.drop_last());
    lemma_field_of_shorter(after_tag, index, "key"@);
    if rest[0] == OP_SET {
        let after_key = batch::first_field(after_tag, index, "key"@)->Ok_0.1;
        lemma_field_of_shorter(after_key, index, "value"@);
    }
    if tail.len() > 0 {
        lemma_missing_byte(tail, index + 1, record + batch::op_record_len(op));
    }
}

/// A frame that decodes is malformed without its last byte.
pub proof fn law_missing_byte_is_rejected(frame: Seq<u8>)
    requires
        frame.len() > 0,
        batch::decoded(frame, 0, BATCH_COUNT_LEN as nat) is Ok,
    ensures
        batch::decoded(frame.drop_last(), 0, BATCH_COUNT_LEN as nat) is Err,
{
    lemma_missing_byte(frame, 0, BATCH_COUNT_LEN as nat);
}

/// The engine's record of a batch is as long as its frame, plus 8 bytes
/// for each set, 12 for each delete and 4 for the op count.
pub proof fn law_record_len_of_a_frame(ops: Seq<engine::Op>)
    ensures
        sets(ops) <= ops.len(),
        record_len(ops) == framed(ops).len() + 8 * sets(ops) + 12 * (ops.len() - sets(ops)) + 4,
    decreases ops.len(),
{
    lemma_auto_spec_u64_to_from_le_bytes();
    if ops.len() > 0 {
        law_record_len_of_a_frame(ops.skip(1));
    }
}

proof fn lemma_ops_of_a_frame(ops: Seq<engine::Op>)
    ensures
        9 * ops.len() <= framed(ops).len(),
    decreases ops.len(),
{
    lemma_auto_spec_u64_to_from_le_bytes();
    if ops.len() > 0 {
        lemma_ops_of_a_frame(ops.skip(1));
    }
}

/// A frame short enough to skip the sizing pass cannot hold a batch whose
/// record is past the limit.
pub proof fn law_short_frame_fits(ops: Seq<engine::Op>)
    requires
        framed(ops).len() <= MAX_FRAME_WITHOUT_SIZING,
    ensures
        record_len(ops) <= MAX_BATCH_RECORD_LEN,
{
    law_record_len_of_a_frame(ops);
    lemma_ops_of_a_frame(ops);
}

proof fn lemma_first_bad_op(rest: Seq<u8>, index: nat, record: nat) -> (good: Seq<engine::Op>)
    requires
        batch::decoded(rest, index, record) is Err,
        record <= MAX_BATCH_RECORD_LEN,
    ensures
        ({
            let bad = batch::decoded(rest, index, record)->Err_0;
            let tail = rest.skip(framed(good).len() as int);
            &&& rest == framed(good) + tail
            &&& tail.len() > 0
            &&& record + ops_record_len(good) <= MAX_BATCH_RECORD_LEN
            &&& match batch::first_op(tail, index + good.len()) {
                Err(malformed) => bad == malformed,
                Ok((op, _)) => bad == batch::too_long(index + good.len()) && record
                    + ops_record_len(good) + batch::op_record_len(op) > MAX_BATCH_RECORD_LEN,
            }
        }),
    decreases rest.len(),
{
    let none = Seq::<engine::Op>::empty();
    assert(rest.skip(framed(none).len() as int) =~= rest);
    assert(framed(none) + rest =~= rest);
    match batch::first_op(rest, index) {
        Err(_) => none,
        Ok((op, tail)) => {
            let more = record + batch::op_record_len(op);
            if more > MAX_BATCH_RECORD_LEN {
                none
            } else {
                let later = lemma_first_bad_op(tail, index + 1, more);
                lemma_read_op_was_framed(rest, index);
                let good = seq![op] + later;
                assert(good.skip(1) =~= later);
                let end = tail.skip(framed(later).len() as int);
                assert(rest =~= framed(good) + end);
                assert(rest.skip(framed(good).len() as int) =~= end);
                good
            }
        },
    }
}

/// A frame that does not decode holds some ops that are in order, then one
/// that is malformed or takes the record past the limit, and the failure
/// is that one's: [`failure::INVALID_ARG`] with a detail that names its
/// index. Whatever stands behind it is not looked at.
pub proof fn law_first_bad_op_is_named(frame: Seq<u8>) -> (good: Seq<engine::Op>)
    requires
        batch::decoded(frame, 0, BATCH_COUNT_LEN as nat) is Err,
    ensures
        ({
            let bad = batch::decoded(frame, 0, BATCH_COUNT_LEN as nat)->Err_0;
            let tail = frame.skip(framed(good).len() as int);
            &&& frame == framed(good) + tail
            &&& tail.len() > 0
            &&& record_len(good) <= MAX_BATCH_RECORD_LEN
            &&& match batch::first_op(tail, good.len()) {
                Err(malformed) => bad == malformed,
                Ok((op, _)) => bad == batch::too_long(good.len()) && record_len(good)
                    + batch::op_record_len(op) > MAX_BATCH_RECORD_LEN,
            }
            &&& exists|what: Seq<char>| bad == #[trigger] batch::bad_op(good.len(), what)
        }),
{
    lemma_first_bad_op(frame, 0, BATCH_COUNT_LEN as nat)
}

/// The tags of a frame and the sizes of a record are part of the format.
pub proof fn law_frame_constants()
    ensures
        OP_SET == 1,
        OP_DELETE == 2,
        MAX_BATCH_RECORD_LEN == 1024 * 1024 * 1024,
        BATCH_COUNT_LEN == 4,
        batch::SET_RECORD_OVERHEAD == 25,
        batch::DELETE_RECORD_OVERHEAD == 21,
{
}

/// An op costs the record its bytes and a fixed number more.
pub proof fn law_record_len_of_an_op(key: Seq<u8>, value: Seq<u8>)
    ensures
        batch::op_record_len((key, Some(value))) == 25 + key.len() + value.len(),
        batch::op_record_len((key, None)) == 21 + key.len(),
{
}

/// An op borrowed from a frame is the op it holds, key and value whole.
pub proof fn law_a_borrowed_op_is_what_it_holds(key: &[u8], value: &[u8])
    ensures
        batch::RawOp::Put(key, value)@ == (key@, Some(value@)),
        batch::RawOp::Delete(key)@ == (key@, None::<Seq<u8>>),
{
}

/// The detail of a bad op begins with its index, and says what is wrong.
pub proof fn law_a_bad_op_is_worded(index: nat, what: Seq<char>)
    ensures
        batch::bad_op(index, what).status == 6,
        batch::bad_op(index, what).detail == Some("write batch op "@ + text::decimal(index) + what),
        batch::too_long(index).status == 6,
        batch::too_long(index).detail == Some(
            "write batch op "@ + text::decimal(index)
                + " would push this write batch past its 1073741824-byte limit; split it into smaller batches"@,
        ),
{
}

/// A field is read exactly when its length and that many bytes are there;
/// then it is those bytes, and the rest follows. Otherwise the failure says
/// whether the length or the bytes are cut off.
pub proof fn law_a_field_is_its_length_and_its_bytes(
    rest: Seq<u8>,
    index: nat,
    what: Seq<char>,
)
    ensures
        ({
            let read = batch::first_field(rest, index, what);
            let len = spec_u64_from_le_bytes(rest.subrange(0, 8)) as int;
            &&& rest.len() < 8 ==> read == Err::<(Seq<u8>, Seq<u8>), failure::FailureView>(
                batch::bad_op(index, " is cut off in its "@ + what + " length"@),
            )
            &&& rest.len() >= 8 && len <= usize::MAX && 8 + len <= rest.len() ==> read == Ok::<
                (Seq<u8>, Seq<u8>),
                failure::FailureView,
            >((rest.subrange(8, 8 + len), rest.subrange(8 + len, rest.len() as int)))
            &&& rest.len() >= 8 && len <= usize::MAX && 8 + len > rest.len() ==> read == Err::<
                (Seq<u8>, Seq<u8>),
                failure::FailureView,
            >(batch::bad_op(index, " is cut off inside its "@ + what))
            &&& rest.len() >= 8 && len > usize::MAX ==> read == Err::<
                (Seq<u8>, Seq<u8>),
                failure::FailureView,
            >(batch::bad_op(index, " has a "@ + what + " length that does not fit in memory"@))
        }),
{
    if rest.len() >= 8 {
        assert(rest.subrange(0, 8) =~= rest.take(8));
        let len = spec_u64_from_le_bytes(rest.take(8)) as int;
        if 8 + len <= rest.len() {
            assert(rest.skip(8).take(len) =~= rest.subrange(8, 8 + len));
            assert(rest.skip(8).skip(len) =~= rest.subrange(8 + len, rest.len() as int));
        }
    }
}

/// An op is read off by its tag: a set is a key and a value, a delete a
/// key, and anything else is refused with its tag.
pub proof fn law_an_op_is_read_by_its_tag(rest: Seq<u8>, index: nat)
    requires
        rest.len() > 0,
    ensures
        ({
            let op = batch::first_op(rest, index);
            let key = batch::first_field(rest.skip(1), index, "key"@);
            let value = batch::first_field(key->Ok_0.1, index, "value"@);
            &&& rest[0] == 1 && key is Ok && value is Ok ==> op == Ok::<
                (engine::Op, Seq<u8>),
                failure::FailureView,
            >(((key->Ok_0.0, Some(value->Ok_0.0)), value->Ok_0.1))
            &&& rest[0] == 1 && key is Ok && value is Err ==> op == Err::<
                (engine::Op, Seq<u8>),
                failure::FailureView,
            >(value->Err_0)
            &&& rest[0] == 2 && key is Ok ==> op == Ok::<
                (engine::Op, Seq<u8>),
                failure::FailureView,
            >(((key->Ok_0.0, None), key->Ok_0.1))
            &&& (rest[0] == 1 || rest[0] == 2) && key is Err ==> op == Err::<
                (engine::Op, Seq<u8>),
                failure::FailureView,
            >(key->Err_0)
            &&& rest[0] != 1 && rest[0] != 2 ==> op == Err::<
                (engine::Op, Seq<u8>),
                failure::FailureView,
            >(batch::bad_op(index, " has unknown tag "@ + text::decimal(rest[0] as nat)))
        }),
{
}

/// What taking some ops one after the other makes of a sink's state, and
/// the failure that it stops at.
pub open spec fn taken_all<S: batch::OpSink>(
    ops: Seq<engine::Op>,
    index: nat,
    state: S::State,
) -> (S::State, Result<(), failure::FailureView>)
    decreases ops.len(),
{
    if ops.len() == 0 {
        (state, Ok(()))
    } else {
        match S::taken(state, index, ops[0]) {
            Err(bad) => (state, Err(bad)),
            Ok(next) => taken_all::<S>(ops.skip(1), index + 1, next),
        }
    }
}

/// Walking the frame of some ops hands each of them to the sink, in their
/// order and with its index, until one is refused.
pub proof fn law_a_walk_hands_over_every_op<S: batch::OpSink>(
    ops: Seq<engine::Op>,
    index: nat,
    state: S::State,
)
    requires
        forall|i: int|
            0 <= i < ops.len() ==> batch::op_record_len(#[trigger] ops[i]) <= MAX_BATCH_RECORD_LEN,
    ensures
        batch::walked::<S>(framed(ops), index, state) == taken_all::<S>(ops, index, state),
    decreases ops.len(),
{
    if ops.len() > 0 {
        let rest = ops.skip(1);
        assert(batch::op_record_len(ops[0]) <= MAX_BATCH_RECORD_LEN);
        lemma_framed_op_is_read_back(ops[0], framed(rest), index);
        assert(framed(ops).len() > 0);
        assert forall|i: int| 0 <= i < rest.len() implies batch::op_record_len(
            #[trigger] rest[i],
        ) <= MAX_BATCH_RECORD_LEN by {
            assert(rest[i] == ops[i + 1]);
        }
        if let Ok(next) = S::taken(state, index, ops[0]) {
            law_a_walk_hands_over_every_op::<S>(rest, index + 1, next);
        }
    }
}

/// Sizing a frame adds up what its ops cost the record, and stops at the
/// first that would take it past the limit.
pub proof fn law_sizing_adds_up(record: nat, index: nat, op: engine::Op)
    ensures
        ({
            let taken = <batch::RecordLen as batch::OpSink>::taken(record, index, op);
            let cost = op.0.len() + match op.1 {
                Some(value) => 25 + value.len(),
                None => 21,
            };
            &&& record + cost <= 1024 * 1024 * 1024 ==> taken == Ok::<nat, failure::FailureView>(
                (record + cost) as nat,
            )
            &&& record + cost > 1024 * 1024 * 1024 ==> taken == Err::<nat, failure::FailureView>(
                batch::too_long(index),
            )
        }),
{
}

} // verus!
