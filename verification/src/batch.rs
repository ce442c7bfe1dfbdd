//! Decodes the write-batch frame.
//!
//! A frame is a sequence of ops, each one of
//!
//! ```text
//! set:    [u8 tag = 1][u64 key_len][key bytes][u64 value_len][value bytes]
//! delete: [u8 tag = 2][u64 key_len][key bytes]
//! ```
//!
//! with little-endian, unsigned 8-byte lengths, repeated until the buffer
//! ends. There is no op count and no header: the decoder walks to the end
//! and rejects anything that does not fit exactly.
//!
//! A frame either decodes completely into a [`regolith::WriteBatch`] or
//! produces one [`INVALID_ARG`](crate::failure::INVALID_ARG) naming the
//! first bad op. [`decoded`] says which of the two, and with what.

use regolith::WriteBatch;
use vstd::bytes::*;
use vstd::prelude::*;
use vstd::slice::*;
use vstd::string::*;

use crate::engine;
use crate::failure;
use crate::failure::Failure;
use crate::text;
use crate::text::decimal_text;

verus! {

/// Frame tag of a set.
pub const OP_SET: u8 = 1;

/// Frame tag of a delete.
pub const OP_DELETE: u8 = 2;

/// Largest write-ahead-log record the engine accepts for one batch. What
/// it bounds is the record's payload, which for a batch is
///
/// ```text
/// 4 + sum(set: 25 + key + value, delete: 21 + key)
/// ```
pub const MAX_BATCH_RECORD_LEN: u64 = 0x4000_0000;

/// Bytes the engine's batch record payload opens with, ahead of the ops
/// themselves: a little-endian op count.
pub const BATCH_COUNT_LEN: u64 = 4;

/// Engine-side bytes one set op adds to the batch record beyond its key
/// and value bytes: a 1-byte record type and a 4-byte length, the 4-byte
/// column-family id in front of every stored key, a 4-byte key length, a
/// 4-byte value length and an 8-byte sequence number.
pub const SET_RECORD_OVERHEAD: u64 = 5 + 4 + 4 + 4 + 8;

/// As [`SET_RECORD_OVERHEAD`], for a delete, which has no value.
pub const DELETE_RECORD_OVERHEAD: u64 = 5 + 4 + 4 + 8;

/// Longest frame that cannot produce an oversized record whatever it
/// holds, so `decode` can skip its sizing pass up to this length.
///
/// A set costs the record 8 bytes more than the frame and a delete 12
/// more, and the smallest op a frame can hold is the 9 bytes of a delete
/// of the empty key. A frame of `n` bytes therefore makes a record of at
/// most `4 + n + 12 * (n / 9)` bytes.
pub const MAX_FRAME_WITHOUT_SIZING: u64 = (MAX_BATCH_RECORD_LEN - BATCH_COUNT_LEN) * 3 / 7;

// ---------------------------------------------------------------------
// What a frame means.
// ---------------------------------------------------------------------

/// A failure that names op `index` of a frame and says `what` is wrong.
pub open spec fn bad_op(index: nat, what: Seq<char>) -> failure::FailureView {
    failure::invalid("write batch op "@ + text::decimal(index) + what)
}

/// The refusal of the op that would take the record past its limit.
pub open spec fn too_long(index: nat) -> failure::FailureView {
    bad_op(
        index,
        " would push this write batch past its 1073741824-byte limit; split it into smaller batches"@,
    )
}

/// The `[u64 len][bytes]` field that `rest` opens with and what follows
/// it, or what is wrong with the field that op `index` calls `what`.
pub open spec fn first_field(rest: Seq<u8>, index: nat, what: Seq<char>) -> Result<
    (Seq<u8>, Seq<u8>),
    failure::FailureView,
> {
    let len = spec_u64_from_le_bytes(rest.take(8));
    let tail = rest.skip(8);
    if rest.len() < 8 {
        Err(bad_op(index, " is cut off in its "@ + what + " length"@))
    } else if len > usize::MAX {
        Err(bad_op(index, " has a "@ + what + " length that does not fit in memory"@))
    } else if tail.len() < len {
        Err(bad_op(index, " is cut off inside its "@ + what))
    } else {
        Ok((tail.take(len as int), tail.skip(len as int)))
    }
}

/// The op that a frame's nonempty remainder opens with and what follows
/// it, or what is wrong with that op.
pub open spec fn first_op(rest: Seq<u8>, index: nat) -> Result<
    (engine::Op, Seq<u8>),
    failure::FailureView,
> {
    if rest[0] == OP_SET {
        match first_field(rest.skip(1), index, "key"@) {
            Err(bad) => Err(bad),
            Ok((key, after_key)) => match first_field(after_key, index, "value"@) {
                Err(bad) => Err(bad),
                Ok((value, tail)) => Ok(((key, Some(value)), tail)),
            },
        }
    } else if rest[0] == OP_DELETE {
        match first_field(rest.skip(1), index, "key"@) {
            Err(bad) => Err(bad),
            Ok((key, tail)) => Ok(((key, None), tail)),
        }
    } else {
        Err(bad_op(index, " has unknown tag "@ + text::decimal(rest[0] as nat)))
    }
}

/// Engine-side record bytes that `op` adds to its batch.
pub open spec fn op_record_len(op: engine::Op) -> nat {
    match op.1 {
        Some(value) => SET_RECORD_OVERHEAD as nat + op.0.len() + value.len(),
        None => DELETE_RECORD_OVERHEAD as nat + op.0.len(),
    }
}

/// The ops of what is left of a frame behind its first `index` ops, where
/// `record` is the length of the engine's record so far; or the failure
/// that names the first op which is malformed or takes the record past
/// [`MAX_BATCH_RECORD_LEN`].
pub open spec fn decoded(rest: Seq<u8>, index: nat, record: nat) -> Result<
    Seq<engine::Op>,
    failure::FailureView,
>
    decreases rest.len(),
{
    if rest.len() == 0 {
        Ok(Seq::empty())
    } else {
        match first_op(rest, index) {
            Err(bad) => Err(bad),
            Ok((op, tail)) => if record + op_record_len(op) > MAX_BATCH_RECORD_LEN {
                Err(too_long(index))
            } else {
                match decoded(tail, index + 1, record + op_record_len(op)) {
                    Err(bad) => Err(bad),
                    Ok(ops) => Ok(seq![op] + ops),
                }
            },
        }
    }
}

// ---------------------------------------------------------------------
// The engine's record length.
// ---------------------------------------------------------------------

/// Engine-side record bytes one set op with a `key_len`-byte key and a
/// `value_len`-byte value adds, on top of [`BATCH_COUNT_LEN`]. A sum past
/// the integer range stays at its end, which is past any record too.
pub fn set_record_len(key_len: u64, value_len: u64) -> (len: u64)
    ensures
        len == vstd::math::min(SET_RECORD_OVERHEAD + key_len + value_len, u64::MAX as int),
{
    SET_RECORD_OVERHEAD.saturating_add(key_len).saturating_add(value_len)
}

/// As [`set_record_len`], for a delete with a `key_len`-byte key.
pub fn delete_record_len(key_len: u64) -> (len: u64)
    ensures
        len == vstd::math::min(DELETE_RECORD_OVERHEAD + key_len, u64::MAX as int),
{
    DELETE_RECORD_OVERHEAD.saturating_add(key_len)
}

/// Running total of the engine's own batch record bytes.
pub struct RecordLen(u64);

impl View for RecordLen {
    type V = nat;

    closed spec fn view(&self) -> nat {
        self.0 as nat
    }
}

impl RecordLen {
    /// A running total at [`BATCH_COUNT_LEN`], the record's own starting
    /// point ahead of any op.
    pub fn new() -> (record: RecordLen)
        ensures
            record@ == BATCH_COUNT_LEN,
    {
        RecordLen(BATCH_COUNT_LEN)
    }

    /// Add one op's engine-side record bytes, rejecting before the total
    /// would cross [`MAX_BATCH_RECORD_LEN`]. `index` names the op in the
    /// error.
    pub fn charge(&mut self, add: u64, index: usize) -> (outcome: Result<(), Failure>)
        ensures
            old(self)@ + add > MAX_BATCH_RECORD_LEN ==> failure::said(outcome) == Err::<
                (),
                failure::FailureView,
            >(too_long(index as nat)) && final(self)@ == old(self)@,
            old(self)@ + add <= MAX_BATCH_RECORD_LEN ==> outcome is Ok && final(self)@ == old(
                self,
            )@ + add,
    {
        let next: u64 = self.0.saturating_add(add);
        if next > MAX_BATCH_RECORD_LEN {
            return Err(
                named(
                    index,
                    " would push this write batch past its 1073741824-byte limit; split it into smaller batches",
                ),
            );
        }
        self.0 = next;
        Ok(())
    }

    /// The running total so far.
    pub fn get(&self) -> (total: u64)
        ensures
            total == self@,
    {
        self.0
    }
}

/// A running total is the number it holds.
proof fn law_a_total_is_what_it_holds(record: RecordLen)
    ensures
        record@ == record.0,
{
}

/// A failure that names op `index` of a frame.
fn named(index: usize, what: &str) -> (bad: Failure)
    ensures
        bad@ == bad_op(index as nat, what@),
{
    let mut message = "write batch op ".to_owned();
    message.append(decimal_text(index as u64).as_str());
    message.append(what);
    Failure::invalid_arg(message.as_str())
}

// ---------------------------------------------------------------------
// Walking a frame.
// ---------------------------------------------------------------------

/// One op's length-prefixed fields, borrowed from the frame with no copy.
pub enum RawOp<'a> {
    Put(&'a [u8], &'a [u8]),
    Delete(&'a [u8]),
}

impl<'a> View for RawOp<'a> {
    type V = engine::Op;

    open spec fn view(&self) -> engine::Op {
        match self {
            RawOp::Put(key, value) => (key@, Some(value@)),
            RawOp::Delete(key) => (key@, None),
        }
    }
}

/// What is done with each op of a frame as it is walked.
pub trait OpSink: Sized {
    /// What the sink has made of the ops so far.
    type State;

    /// What the sink has made of the ops so far.
    spec fn state(&self) -> Self::State;

    /// What op `index` makes of `state`, or why it is refused.
    spec fn taken(state: Self::State, index: nat, op: engine::Op) -> Result<
        Self::State,
        failure::FailureView,
    >;

    /// Take op `index`. A refused op leaves the sink as it was.
    fn on_op(&mut self, index: usize, op: RawOp<'_>) -> (outcome: Result<(), Failure>)
        ensures
            match Self::taken(old(self).state(), index as nat, op@) {
                Ok(state) => outcome is Ok && final(self).state() == state,
                Err(bad) => final(self).state() == old(self).state() && failure::said(outcome)
                    == Err::<(), failure::FailureView>(bad),
            },
    ;
}

/// What walking the rest of a frame behind its first `index` ops makes of
/// `state`, and the failure it stops at, if it does not reach the end.
pub open spec fn walked<S: OpSink>(rest: Seq<u8>, index: nat, state: S::State) -> (
    S::State,
    Result<(), failure::FailureView>,
)
    decreases rest.len(),
{
    if rest.len() == 0 {
        (state, Ok(()))
    } else {
        match first_op(rest, index) {
            Err(bad) => (state, Err(bad)),
            Ok((op, tail)) => match S::taken(state, index, op) {
                Err(bad) => (state, Err(bad)),
                Ok(next) => walked::<S>(tail, index + 1, next),
            },
        }
    }
}

/// Walk a frame's ops in order, handing each one's index and borrowed
/// fields to `sink`. Nothing is copied here, so [`decode`] can size a
/// frame with one call and build the batch with another.
pub fn walk<S: OpSink>(frame: &[u8], sink: &mut S) -> (outcome: Result<(), Failure>)
    ensures
        (final(sink).state(), failure::said(outcome)) == walked::<S>(frame@, 0, old(sink).state()),
{
    let ghost frame_len = frame.len();
    let mut rest = frame;
    let mut index: usize = 0;
    while rest.len() > 0
        invariant
            index + rest@.len() <= frame_len,
            walked::<S>(frame@, 0, old(sink).state()) == walked::<S>(
                rest@,
                index as nat,
                sink.state(),
            ),
        decreases rest@.len(),
    {
        let tag: u8 = rest[0];
        let ghost before = rest@;
        rest = slice_subrange(rest, 1, rest.len());
        assert(rest@ =~= before.skip(1));
        if tag == OP_SET {
            let key = match field(&mut rest, index, "key") {
                Ok(key) => key,
                Err(bad) => return Err(bad),
            };
            let value = match field(&mut rest, index, "value") {
                Ok(value) => value,
                Err(bad) => return Err(bad),
            };
            match sink.on_op(index, RawOp::Put(key, value)) {
                Ok(()) => {},
                Err(bad) => return Err(bad),
            }
        } else if tag == OP_DELETE {
            let key = match field(&mut rest, index, "key") {
                Ok(key) => key,
                Err(bad) => return Err(bad),
            };
            match sink.on_op(index, RawOp::Delete(key)) {
                Ok(()) => {},
                Err(bad) => return Err(bad),
            }
        } else {
            let mut what = " has unknown tag ".to_owned();
            what.append(decimal_text(tag as u64).as_str());
            return Err(named(index, what.as_str()));
        }
        index += 1;
    }
    Ok(())
}

/// Take one `[u64 len][bytes]` field off the front of `rest`. `what` names
/// the field in the detail of a frame that ends inside it.
pub fn field<'a>(rest: &mut &'a [u8], index: usize, what: &str) -> (outcome: Result<
    &'a [u8],
    Failure,
>)
    ensures
        match first_field(old(rest)@, index as nat, what@) {
            Ok((bytes, tail)) => outcome is Ok && outcome->Ok_0@ == bytes && final(rest)@ == tail,
            Err(bad) => outcome is Err && outcome->Err_0@ == bad && final(rest)@ == old(rest)@,
        },
{
    let all: &'a [u8] = *rest;
    if all.len() < 8 {
        let mut problem = " is cut off in its ".to_owned();
        problem.append(what);
        problem.append(" length");
        return Err(named(index, problem.as_str()));
    }
    let prefix = slice_subrange(all, 0, 8);
    assert(prefix@ =~= all@.take(8));
    let len: u64 = u64_from_le_bytes(prefix);
    if len > usize::MAX as u64 {
        let mut problem = " has a ".to_owned();
        problem.append(what);
        problem.append(" length that does not fit in memory");
        return Err(named(index, problem.as_str()));
    }
    let tail = slice_subrange(all, 8, all.len());
    assert(tail@ =~= all@.skip(8));
    if (tail.len() as u64) < len {
        let mut problem = " is cut off inside its ".to_owned();
        problem.append(what);
        return Err(named(index, problem.as_str()));
    }
    let bytes = slice_subrange(tail, 0, len as usize);
    assert(bytes@ =~= tail@.take(len as int));
    *rest = slice_subrange(tail, len as usize, tail.len());
    assert(rest@ =~= tail@.skip(len as int));
    Ok(bytes)
}

/// Builds the engine's batch from a frame's ops.
struct Builder {
    batch: WriteBatch,
}

impl OpSink for RecordLen {
    type State = nat;

    open spec fn state(&self) -> nat {
        self@
    }

    open spec fn taken(state: nat, index: nat, op: engine::Op) -> Result<
        nat,
        failure::FailureView,
    > {
        if state + op_record_len(op) > MAX_BATCH_RECORD_LEN {
            Err(too_long(index))
        } else {
            Ok(state + op_record_len(op))
        }
    }

    fn on_op(&mut self, index: usize, op: RawOp<'_>) -> Result<(), Failure> {
        let add: u64 = match op {
            RawOp::Put(key, value) => set_record_len(key.len() as u64, value.len() as u64),
            RawOp::Delete(key) => delete_record_len(key.len() as u64),
        };
        self.charge(add, index)
    }
}

impl OpSink for Builder {
    type State = Seq<engine::Op>;

    closed spec fn state(&self) -> Seq<engine::Op> {
        engine::batch_ops(self.batch)
    }

    open spec fn taken(state: Seq<engine::Op>, index: nat, op: engine::Op) -> Result<
        Seq<engine::Op>,
        failure::FailureView,
    > {
        Ok(state.push(op))
    }

    fn on_op(&mut self, index: usize, op: RawOp<'_>) -> Result<(), Failure> {
        match op {
            RawOp::Put(key, value) => self.batch.put(key, value),
            RawOp::Delete(key) => self.batch.delete(key),
        }
        Ok(())
    }
}

/// The sizing walk stops where decoding does.
proof fn lemma_sizing_walk(rest: Seq<u8>, index: nat, record: nat)
    ensures
        match decoded(rest, index, record) {
            Ok(_) => walked::<RecordLen>(rest, index, record).1 is Ok,
            Err(bad) => walked::<RecordLen>(rest, index, record).1 == Err::<
                (),
                failure::FailureView,
            >(bad),
        },
    decreases rest.len(),
{
    if rest.len() > 0 {
        if let Ok((op, tail)) = first_op(rest, index) {
            lemma_sizing_walk(tail, index + 1, record + op_record_len(op));
        }
    }
}

/// The building walk collects the ops of a frame that decodes.
proof fn lemma_building_walk(rest: Seq<u8>, index: nat, record: nat, ops: Seq<engine::Op>)
    requires
        decoded(rest, index, record) is Ok,
    ensures
        walked::<Builder>(rest, index, ops) == (
            ops + decoded(rest, index, record)->Ok_0,
            Ok::<(), failure::FailureView>(()),
        ),
    decreases rest.len(),
{
    if rest.len() > 0 {
        let (op, tail) = first_op(rest, index)->Ok_0;
        let more = record + op_record_len(op);
        lemma_building_walk(tail, index + 1, more, ops.push(op));
        assert(ops.push(op) + decoded(tail, index + 1, more)->Ok_0 =~= ops + (seq![op] + decoded(
            tail,
            index + 1,
            more,
        )->Ok_0));
    } else {
        assert(ops + Seq::<engine::Op>::empty() =~= ops);
    }
}

/// A frame too short to reach the record limit fails to decode exactly
/// where it fails to parse.
proof fn lemma_short_frame_walk(rest: Seq<u8>, index: nat, record: nat, ops: Seq<engine::Op>)
    requires
        record + rest.len() + 12 * (rest.len() / 9) <= MAX_BATCH_RECORD_LEN,
    ensures
        match decoded(rest, index, record) {
            Ok(_) => walked::<Builder>(rest, index, ops).1 is Ok,
            Err(bad) => walked::<Builder>(rest, index, ops).1 == Err::<(), failure::FailureView>(
                bad,
            ),
        },
    decreases rest.len(),
{
    if rest.len() > 0 {
        if let Ok((op, tail)) = first_op(rest, index) {
            lemma_short_frame_walk(tail, index + 1, record + op_record_len(op), ops.push(op));
        }
    }
}

/// Decode a batch frame into a [`WriteBatch`], rejecting a malformed frame,
/// or one whose engine-side record would exceed [`MAX_BATCH_RECORD_LEN`],
/// before any op reaches the engine.
///
/// A frame over [`MAX_FRAME_WITHOUT_SIZING`] gets a sizing pass first, so
/// an oversized frame is rejected without ever copying a key or value into
/// a batch.
pub fn decode(frame: &[u8]) -> (outcome: Result<WriteBatch, Failure>)
    ensures
        match decoded(frame@, 0, BATCH_COUNT_LEN as nat) {
            Ok(ops) => outcome is Ok && engine::batch_ops(outcome->Ok_0) == ops,
            Err(bad) => outcome is Err && outcome->Err_0@ == bad,
        },
{
    if frame.len() as u64 > MAX_FRAME_WITHOUT_SIZING {
        let mut record_len = RecordLen::new();
        proof {
            lemma_sizing_walk(frame@, 0, BATCH_COUNT_LEN as nat);
        }
        match walk(frame, &mut record_len) {
            Ok(()) => {},
            Err(bad) => return Err(bad),
        }
    } else {
        proof {
            lemma_short_frame_walk(frame@, 0, BATCH_COUNT_LEN as nat, Seq::empty());
        }
    }
    let mut builder = Builder { batch: WriteBatch::new() };
    proof {
        if decoded(frame@, 0, BATCH_COUNT_LEN as nat) is Ok {
            lemma_building_walk(frame@, 0, BATCH_COUNT_LEN as nat, Seq::empty());
        }
    }
    match walk(frame, &mut builder) {
        Ok(()) => {},
        Err(bad) => return Err(bad),
    }
    Ok(builder.batch)
}

} // verus!
