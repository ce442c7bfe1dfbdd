//! Iteration.
//!
//! * A reset returns the iterator to its construction position, so the
//!   data can be walked again.
//! * A seek is clamped to the configured range and, in reverse, lands on
//!   the greatest key at or below the target.
//!
//! An iterator starts un-positioned with a pending reset, so the first
//! `next` positions it on the first in-range entry rather than advancing
//! past it.
//!
//! # Who moves the cursor
//!
//! Reading the store is the caller's part. Every operation that moves an
//! iterator answers with a [`Step`]: either it is done, or there is one
//! thing to do to the cursor or the stream, whose result is reported to
//! [`RegolithIter::landed`] or [`RegolithIter::rebuilt`], which answer with
//! the next step.
//!
//! A snapshot of the committed store is read through a cursor, so seeking
//! is in place. A transaction's buffered writes merged over its begin
//! snapshot are read through a stream. A stream has no `seek`, no `prev`
//! and no rewind, so a reset or a seek rebuilds it with adjusted bounds.
//!
//! The set of buffered writes is captured when the iterator is created, so
//! writes made afterwards are not visible to it. A stream that is opened
//! after such a write would show it. So it is cut at the first key written
//! since ([`crate::written`]); there the iterator takes what was kept of
//! that key, and beyond it goes on with another stream.
//!
//! # Batched iteration
//!
//! [`regolith_iter_next_batch`] walks up to `max_entries` at a time and
//! frames the keys into one buffer. Values are deliberately not framed: a
//! batch retains one [`DbSlice`] per entry instead, which is a reference
//! count rather than a copy.

use regolith::DbSlice;
use vstd::bytes::*;
use vstd::prelude::*;
use vstd::slice::*;

use crate::boundary;
use crate::boundary::{in_bytes, out_bytes};
use crate::bounds;
use crate::bounds::{copy_opt, Bounds, ScanDirection};
use crate::engine;
use crate::failure;
use crate::failure::{Failure, NOT_FOUND};
use crate::order::{comes_before, same_bytes};
use crate::txn;
use crate::txn::with;
use crate::written;
use crate::written::Cut;

verus! {

/// How many value bytes one batch may keep referenced.
///
/// A held [`DbSlice`] pins whatever owns its bytes, so a batch is meant to
/// be brief. Entry count alone does not bound that, because a value can be
/// arbitrarily large, so a batch also stops once it has retained this much.
/// The cap is on what the batch retains, not on what is kept of keys that a
/// transaction wrote over ([`crate::written`]).
pub const MAX_BATCH_VALUE_BYTES: usize = 0x10_0000;

// ---------------------------------------------------------------------
// What is asked of the store, and what it answers.
// ---------------------------------------------------------------------

/// An entry of the store.
pub struct Entry {
    pub key: Vec<u8>,
    /// `None` under `keys_only`.
    pub value: Option<DbSlice>,
}

/// A key, with its value where values are read.
#[verifier::ext_equal]
pub struct EntryView {
    pub key: Seq<u8>,
    pub value: Option<Seq<u8>>,
}

impl View for Entry {
    type V = EntryView;

    open spec fn view(&self) -> EntryView {
        EntryView { key: self.key@, value: engine::value_bytes(self.value) }
    }
}

/// One move of the cursor or one pull from the stream.
pub enum Move {
    /// Move the cursor to the first key.
    First,
    /// Move the cursor to the last key.
    Last,
    /// Move the cursor to the first key at or behind this one.
    Seek(Vec<u8>),
    /// Move the cursor to the last key at or before this one.
    SeekForPrev(Vec<u8>),
    /// Move the cursor one key on.
    Next,
    /// Move the cursor one key back.
    Prev,
    /// Take the next entry from the stream.
    Pull,
    /// Take the entry that was kept under this number, if there was one.
    Kept(usize),
}

/// What a [`Move`] asks for.
#[verifier::ext_equal]
pub enum MoveView {
    First,
    Last,
    Seek(Seq<u8>),
    SeekForPrev(Seq<u8>),
    Next,
    Prev,
    Pull,
    Kept(nat),
}

impl View for Move {
    type V = MoveView;

    open spec fn view(&self) -> MoveView {
        match self {
            Move::First => MoveView::First,
            Move::Last => MoveView::Last,
            Move::Seek(key) => MoveView::Seek(key@),
            Move::SeekForPrev(key) => MoveView::SeekForPrev(key@),
            Move::Next => MoveView::Next,
            Move::Prev => MoveView::Prev,
            Move::Pull => MoveView::Pull,
            Move::Kept(index) => MoveView::Kept(*index as nat),
        }
    }
}

/// Where a [`Move`] ended.
pub enum Landing {
    /// On an entry.
    On(Entry),
    /// Past the last entry there is.
    Off,
    /// Nowhere: the read failed.
    Failed(Failure),
}

/// Where a move ended.
#[verifier::ext_equal]
pub enum LandingView {
    On(EntryView),
    Off,
    Failed(failure::FailureView),
}

impl View for Landing {
    type V = LandingView;

    open spec fn view(&self) -> LandingView {
        match self {
            Landing::On(entry) => LandingView::On(entry@),
            Landing::Off => LandingView::Off,
            Landing::Failed(failure) => LandingView::Failed(failure@),
        }
    }
}

/// The stream over `[start, end)` of a transaction.
pub struct Scan {
    pub start: Option<Vec<u8>>,
    pub end: Option<Vec<u8>>,
    pub direction: ScanDirection,
}

/// What a [`Scan`] asks for.
#[verifier::ext_equal]
pub struct ScanView {
    pub start: Option<Seq<u8>>,
    pub end: Option<Seq<u8>>,
    pub direction: ScanDirection,
}

impl View for Scan {
    type V = ScanView;

    open spec fn view(&self) -> ScanView {
        ScanView {
            start: bounds::opt_view(self.start),
            end: bounds::opt_view(self.end),
            direction: self.direction,
        }
    }
}

impl ScanView {
    /// The range as a walk takes it.
    pub open spec fn range(self) -> bounds::BoundsView {
        bounds::BoundsView {
            start: self.start,
            end: self.end,
            reverse: self.direction is Reverse,
            keys_only: false,
        }
    }

    /// Does the scan come to `key`?
    pub open spec fn contains(self, key: Seq<u8>) -> bool {
        self.range().contains(key)
    }

    /// The part that comes before `key`, in the direction of the scan.
    pub open spec fn up_to(self, key: Seq<u8>) -> ScanView {
        match self.direction {
            ScanDirection::Forward => ScanView { end: Some(key), ..self },
            ScanDirection::Reverse => ScanView { start: Some(key.push(0)), ..self },
        }
    }

    /// The part that comes behind `key`, in the direction of the scan.
    pub open spec fn beyond(self, key: Seq<u8>) -> ScanView {
        match self.direction {
            ScanDirection::Forward => ScanView { start: Some(key.push(0)), ..self },
            ScanDirection::Reverse => ScanView { end: Some(key), ..self },
        }
    }
}

/// The smallest key behind `key`.
pub(crate) fn next_key(key: &[u8]) -> (next: Vec<u8>)
    ensures
        next@ == key@.push(0),
{
    let mut next = slice_to_vec(key);
    next.push(0);
    next
}

impl Scan {
    /// Does the scan come to `key`?
    pub fn contains(&self, key: &[u8]) -> (inside: bool)
        ensures
            inside == self@.contains(key@),
    {
        if let Some(start) = &self.start {
            if comes_before(key, start.as_slice()) {
                return false;
            }
        }
        if let Some(end) = &self.end {
            if !comes_before(key, end.as_slice()) {
                return false;
            }
        }
        true
    }

    /// The part that comes before `key`.
    pub fn up_to(self, key: &[u8]) -> (part: Scan)
        ensures
            part@ == self@.up_to(key@),
    {
        match self.direction {
            ScanDirection::Forward => Scan {
                start: self.start,
                end: Some(slice_to_vec(key)),
                direction: self.direction,
            },
            ScanDirection::Reverse => Scan {
                start: Some(next_key(key)),
                end: self.end,
                direction: self.direction,
            },
        }
    }

    /// The part that comes behind `key`.
    pub fn beyond(&self, key: &[u8]) -> (part: Scan)
        ensures
            part@ == self@.beyond(key@),
    {
        match self.direction {
            ScanDirection::Forward => Scan {
                start: Some(next_key(key)),
                end: copy_opt(&self.end),
                direction: self.direction,
            },
            ScanDirection::Reverse => Scan {
                start: copy_opt(&self.start),
                end: Some(slice_to_vec(key)),
                direction: self.direction,
            },
        }
    }

    /// The scan once more.
    pub(crate) fn copy(&self) -> (copy: Scan)
        ensures
            copy@ == self@,
    {
        Scan {
            start: copy_opt(&self.start),
            end: copy_opt(&self.end),
            direction: self.direction,
        }
    }
}

/// What a landing settles.
#[derive(Clone, Copy, PartialEq, Eq, Structural)]
pub enum Settle {
    /// The iterator is where the move landed.
    Here,
    /// The iterator is there too, unless that is the exclusive end of the
    /// range, which takes one more move back.
    BelowEnd,
    /// The iterator is there too, and goes on beyond the cut; where nothing
    /// was kept, it goes on at once.
    AtCut,
}

/// What an operation that moves an iterator asks for next.
pub enum Step {
    /// Perform the move and report where it landed.
    Go(Move, Settle),
    /// Open the stream and report where it was cut, or why it could not be
    /// opened.
    Open(Scan),
    /// Nothing more: whether the iterator is on an entry now, or why it
    /// could not tell.
    Done(Result<bool, Failure>),
}

/// What a [`Step`] asks for.
#[verifier::ext_equal]
pub enum StepView {
    Go(MoveView, Settle),
    Open(ScanView),
    Done(Result<bool, failure::FailureView>),
}

impl View for Step {
    type V = StepView;

    open spec fn view(&self) -> StepView {
        match self {
            Step::Go(ask, settle) => StepView::Go(ask@, *settle),
            Step::Open(scan) => StepView::Open(scan@),
            Step::Done(outcome) => StepView::Done(failure::said(*outcome)),
        }
    }
}

// ---------------------------------------------------------------------
// The iterator.
// ---------------------------------------------------------------------

/// The stream over a transaction.
pub enum Stream {
    /// There is none.
    Closed,
    /// It is open, up to where it was cut.
    Running(Option<Cut>),
    /// It ended at a cut, whose kept entry the iterator is on. The scan is
    /// what lies beyond.
    Behind(Scan),
}

/// The stream over a transaction.
#[verifier::ext_equal]
pub enum StreamView {
    Closed,
    Running(Option<written::CutView>),
    Behind(ScanView),
}

impl View for Stream {
    type V = StreamView;

    open spec fn view(&self) -> StreamView {
        match self {
            Stream::Closed => StreamView::Closed,
            Stream::Running(cut) => StreamView::Running(written::cut_view(*cut)),
            Stream::Behind(rest) => StreamView::Behind(rest@),
        }
    }
}

/// Where the entries come from.
pub enum Source {
    /// A cursor over a snapshot of the committed store.
    Snapshot,
    /// A stream over a transaction.
    Txn(Stream),
}

/// Where the entries come from.
#[verifier::ext_equal]
pub enum SourceView {
    Snapshot,
    Txn(StreamView),
}

impl View for Source {
    type V = SourceView;

    open spec fn view(&self) -> SourceView {
        match self {
            Source::Snapshot => SourceView::Snapshot,
            Source::Txn(stream) => SourceView::Txn(stream@),
        }
    }
}

/// Iterator handle.
pub struct RegolithIter {
    bounds: Bounds,
    source: Source,
    /// Set at construction and by a reset: the next `next` positions at
    /// the start of the range rather than advancing.
    reset: bool,
    /// Set by a seek: the iterator already sits on the entry the caller
    /// asked for, so the next batch must include it rather than step past
    /// it. Single-entry stepping clears this and advances.
    include_current: bool,
    /// The entry last landed on.
    current: Option<Entry>,
    /// Values retained by the most recent batch, in batch order and empty
    /// under `keys_only`.
    batch_values: Vec<DbSlice>,
    /// Entries in the most recent batch.
    batch_count: usize,
    /// A read error hit part way through a batch, reported on the next
    /// call so the entries already gathered are not thrown away.
    pending: Option<Failure>,
}

/// The state of an iterator.
#[verifier::ext_equal]
pub struct IterView {
    pub bounds: bounds::BoundsView,
    pub source: SourceView,
    pub reset: bool,
    pub include_current: bool,
    pub current: Option<EntryView>,
    pub batch_values: Seq<Seq<u8>>,
    pub batch_count: nat,
    pub pending: Option<failure::FailureView>,
}

impl View for RegolithIter {
    type V = IterView;

    closed spec fn view(&self) -> IterView {
        IterView {
            bounds: self.bounds@,
            source: self.source@,
            reset: self.reset,
            include_current: self.include_current,
            current: match self.current {
                Some(entry) => Some(entry@),
                None => None,
            },
            batch_values: self.batch_values@.map_values(|slice: DbSlice| engine::slice_bytes(slice)),
            batch_count: self.batch_count as nat,
            pending: match self.pending {
                Some(failure) => Some(failure@),
                None => None,
            },
        }
    }
}

impl IterView {
    /// Is the iterator on an entry of its range? What a stream hands out
    /// is always in range.
    pub open spec fn in_range(self) -> bool {
        match self.current {
            None => false,
            Some(entry) => self.source is Txn || self.bounds.contains(entry.key),
        }
    }

    /// The entry as this iterator keeps it: without its value under
    /// `keys_only`.
    pub open spec fn kept(self, entry: EntryView) -> EntryView {
        EntryView {
            key: entry.key,
            value: if self.bounds.keys_only {
                None
            } else {
                entry.value
            },
        }
    }

    /// Where the stream over a transaction was cut, if one is open and was.
    pub open spec fn cut(self) -> Option<written::CutView> {
        match self.source {
            SourceView::Txn(StreamView::Running(cut)) => cut,
            _ => None,
        }
    }

    /// The iterator with the values of its last batch dropped.
    pub open spec fn without_batch(self) -> IterView {
        IterView { batch_values: Seq::empty(), batch_count: 0, ..self }
    }
}

/// A fresh iterator over `source`, un-positioned.
pub open spec fn fresh(source: SourceView, bounds: bounds::BoundsView) -> IterView {
    IterView {
        bounds,
        source,
        reset: true,
        include_current: false,
        current: None,
        batch_values: Seq::empty(),
        batch_count: 0,
        pending: None,
    }
}

/// The stream over the whole of a range.
pub open spec fn whole_range(range: bounds::BoundsView) -> ScanView {
    ScanView { start: range.start, end: range.end, direction: range.direction() }
}

/// Open the transaction's stream over another range. Until that worked
/// there is none.
pub open spec fn rebuild(it: IterView, scan: ScanView) -> (IterView, StepView) {
    (
        IterView { source: SourceView::Txn(StreamView::Closed), current: None, ..it },
        StepView::Open(scan),
    )
}

/// Pull the next entry from the transaction's stream, if there is one. On
/// an entry that was kept, that is the stream beyond it.
pub open spec fn pull(it: IterView) -> (IterView, StepView) {
    match it.source {
        SourceView::Txn(StreamView::Running(_)) => (
            it,
            StepView::Go(MoveView::Pull, Settle::Here),
        ),
        SourceView::Txn(StreamView::Behind(rest)) => rebuild(it, rest),
        _ => (IterView { current: None, ..it }, StepView::Done(Ok(false))),
    }
}

/// Opening the stream worked, and where it was cut; or it did not work.
pub open spec fn rebuilt(
    it: IterView,
    outcome: Result<Option<written::CutView>, failure::FailureView>,
) -> (IterView, StepView) {
    match outcome {
        Ok(cut) => pull(IterView { source: SourceView::Txn(StreamView::Running(cut)), ..it }),
        Err(failure) => (it, StepView::Done(Err(failure))),
    }
}

/// What is seen of the outcome of opening a stream.
pub open spec fn said_cut(outcome: Result<Option<Cut>, Failure>) -> Result<
    Option<written::CutView>,
    failure::FailureView,
> {
    match outcome {
        Ok(cut) => Ok(written::cut_view(cut)),
        Err(failure) => Err(failure@),
    }
}

/// Position on the first in-range entry. `end` is exclusive, so a reverse
/// walk begins on the greatest key strictly below it.
pub open spec fn restart(it: IterView) -> (IterView, StepView) {
    if it.source is Txn {
        rebuild(it, whole_range(it.bounds))
    } else if it.bounds.reverse {
        match it.bounds.end {
            Some(end) => (it, StepView::Go(MoveView::SeekForPrev(end), Settle::BelowEnd)),
            None => (it, StepView::Go(MoveView::Last, Settle::Here)),
        }
    } else {
        match it.bounds.start {
            Some(start) => (it, StepView::Go(MoveView::Seek(start), Settle::Here)),
            None => (it, StepView::Go(MoveView::First, Settle::Here)),
        }
    }
}

/// Advance one entry in the iteration direction. A cursor that has left
/// the range is at the end of the iteration and stays there.
pub open spec fn step(it: IterView) -> (IterView, StepView) {
    if it.source is Txn {
        pull(it)
    } else if !it.in_range() {
        (it, StepView::Done(Ok(false)))
    } else if it.bounds.reverse {
        (it, StepView::Go(MoveView::Prev, Settle::Here))
    } else {
        (it, StepView::Go(MoveView::Next, Settle::Here))
    }
}

/// The iterator is where the move landed, and on an entry if that is in
/// the range; or the move landed on the exclusive end and goes one back. A
/// stream that ends at a cut is followed by what was kept there, and that
/// by the stream beyond.
pub open spec fn landed(it: IterView, settle: Settle, landing: LandingView) -> (
    IterView,
    StepView,
) {
    let off = IterView { current: None, ..it };
    match landing {
        LandingView::On(entry) => {
            let on = IterView { current: Some(it.kept(entry)), ..it };
            match it.cut() {
                Some(cut) if settle == Settle::AtCut => (
                    IterView { source: SourceView::Txn(StreamView::Behind(cut.rest)), ..on },
                    StepView::Done(Ok(true)),
                ),
                _ => if settle == Settle::BelowEnd && it.bounds.end == Some(entry.key) {
                    (on, StepView::Go(MoveView::Prev, Settle::Here))
                } else {
                    (on, StepView::Done(Ok(on.in_range())))
                },
            }
        },
        LandingView::Off => match it.cut() {
            Some(cut) => if settle == Settle::AtCut {
                rebuild(it, cut.rest)
            } else {
                (off, StepView::Go(MoveView::Kept(cut.index), Settle::AtCut))
            },
            None => (off, StepView::Done(Ok(false))),
        },
        LandingView::Failed(failure) => (off, StepView::Done(Err(failure))),
    }
}

/// The stream that a seek to `target` opens. It begins at the target, or
/// with the range if the target lies in front of that. A reverse stream is
/// bounded by an exclusive `end`, so to include `target` itself its bound is
/// the smallest key behind it.
pub open spec fn seek_scan(range: bounds::BoundsView, target: Seq<u8>) -> ScanView {
    if range.reverse {
        if bounds::below(range.end, target) {
            ScanView { end: Some(target.push(0)), ..whole_range(range) }
        } else {
            whole_range(range)
        }
    } else if bounds::above(range.start, target) {
        ScanView { start: Some(target), ..whole_range(range) }
    } else {
        whole_range(range)
    }
}

/// Position on the first in-range entry at or behind `target`.
pub open spec fn seek_forward(it: IterView, target: Seq<u8>) -> (IterView, StepView) {
    if it.source is Txn {
        rebuild(it, seek_scan(it.bounds, target))
    } else if bounds::above(it.bounds.start, target) {
        (it, StepView::Go(MoveView::Seek(target), Settle::Here))
    } else {
        (it, StepView::Go(MoveView::Seek(it.bounds.start->Some_0), Settle::Here))
    }
}

/// Position on the last in-range entry at or before `target`. `end` is
/// exclusive, so a target at or behind it is the same as starting from the
/// top of the range.
pub open spec fn seek_reverse(it: IterView, target: Seq<u8>) -> (IterView, StepView) {
    if it.source is Txn {
        rebuild(it, seek_scan(it.bounds, target))
    } else if bounds::below(it.bounds.end, target) {
        (it, StepView::Go(MoveView::SeekForPrev(target), Settle::Here))
    } else {
        restart(it)
    }
}

/// Position on the entry that a seek should land on, clamped to the range.
/// The values of the last batch and an error held back by it are dropped.
pub open spec fn seek(it: IterView, target: Seq<u8>) -> (IterView, StepView) {
    let ready = IterView {
        reset: false,
        pending: None,
        include_current: true,
        ..it.without_batch()
    };
    if it.bounds.reverse {
        seek_reverse(ready, target)
    } else {
        seek_forward(ready, target)
    }
}

/// Advance, or position on the first entry if a reset is pending.
pub open spec fn next(it: IterView) -> (IterView, StepView) {
    if it.reset {
        restart(IterView { reset: false, include_current: false, ..it })
    } else {
        step(IterView { include_current: false, ..it })
    }
}

/// Mark the iterator for re-iteration.
pub open spec fn reset(it: IterView) -> IterView {
    IterView { reset: true, include_current: false, pending: None, ..it.without_batch() }
}

/// Move onto the entry that comes next in a batch: as [`next`], but after a
/// seek that is the entry it landed on.
pub open spec fn advance_in_batch(it: IterView) -> (IterView, StepView) {
    if it.reset {
        restart(IterView { reset: false, include_current: false, ..it })
    } else if it.include_current {
        let there = IterView { include_current: false, ..it };
        (there, StepView::Done(Ok(there.in_range())))
    } else {
        step(it)
    }
}

impl RegolithIter {
    /// An iterator over a snapshot of the committed store.
    pub fn over_snapshot(bounds: Bounds) -> (it: RegolithIter)
        ensures
            it@ == fresh(SourceView::Snapshot, bounds@),
    {
        let it = RegolithIter {
            bounds,
            source: Source::Snapshot,
            reset: true,
            include_current: false,
            current: None,
            batch_values: Vec::new(),
            batch_count: 0,
            pending: None,
        };
        assert(it@ =~= fresh(SourceView::Snapshot, bounds@));
        it
    }

    /// An iterator over a transaction, whose lock was taken. A transaction
    /// that is already resolved is refused here, rather than by a handle
    /// that can never yield anything.
    pub fn over_txn<T>(lock: Option<&Option<T>>, bounds: Bounds) -> (outcome: Result<
        RegolithIter,
        Failure,
    >)
        ensures
            match txn::live(
                match lock {
                    Some(held) => Some(*held),
                    None => None,
                },
            ) {
                Ok(_) => outcome is Ok && outcome->Ok_0@ == fresh(
                    SourceView::Txn(StreamView::Closed),
                    bounds@,
                ),
                Err(failure) => outcome is Err && outcome->Err_0@ == failure,
            },
    {
        match with(lock) {
            Ok(_) => {},
            Err(failure) => return Err(failure),
        }
        let it = RegolithIter {
            bounds,
            source: Source::Txn(Stream::Closed),
            reset: true,
            include_current: false,
            current: None,
            batch_values: Vec::new(),
            batch_count: 0,
            pending: None,
        };
        assert(it@ =~= fresh(SourceView::Txn(StreamView::Closed), bounds@));
        Ok(it)
    }

    /// Is the iterator on an entry of its range?
    fn in_range(&self) -> (inside: bool)
        ensures
            inside == self@.in_range(),
    {
        match &self.current {
            None => false,
            Some(entry) => match self.source {
                Source::Snapshot => self.bounds.contains(entry.key.as_slice()),
                Source::Txn(_) => true,
            },
        }
    }

    /// Is the iterator over a transaction?
    fn over_stream(&self) -> (streamed: bool)
        ensures
            streamed == (self@.source is Txn),
    {
        match self.source {
            Source::Snapshot => false,
            Source::Txn(_) => true,
        }
    }

    /// Are values left out?
    pub fn keys_only(&self) -> (without: bool)
        ensures
            without == self@.bounds.keys_only,
    {
        self.bounds.keys_only
    }

    /// Position on the first in-range entry.
    fn restart(&mut self) -> (answer: Step)
        ensures
            (final(self)@, answer@) == restart(old(self)@),
    {
        if self.over_stream() {
            let scan = self.whole_range();
            return self.rebuild(scan);
        }
        if self.bounds.reverse {
            match copy_opt(&self.bounds.end) {
                Some(end) => Step::Go(Move::SeekForPrev(end), Settle::BelowEnd),
                None => Step::Go(Move::Last, Settle::Here),
            }
        } else {
            match copy_opt(&self.bounds.start) {
                Some(start) => Step::Go(Move::Seek(start), Settle::Here),
                None => Step::Go(Move::First, Settle::Here),
            }
        }
    }

    /// Advance one entry in the iteration direction.
    fn step(&mut self) -> (answer: Step)
        ensures
            (final(self)@, answer@) == step(old(self)@),
    {
        if self.over_stream() {
            return self.pull();
        }
        // Stepping an exhausted cursor is not defined, and a cursor that
        // has left the range is already at the end of the iteration.
        if !self.in_range() {
            return Step::Done(Ok(false));
        }
        if self.bounds.reverse {
            Step::Go(Move::Prev, Settle::Here)
        } else {
            Step::Go(Move::Next, Settle::Here)
        }
    }

    /// The stream over the whole of the range.
    fn whole_range(&self) -> (scan: Scan)
        ensures
            scan@ == whole_range(self@.bounds),
    {
        Scan {
            start: copy_opt(&self.bounds.start),
            end: copy_opt(&self.bounds.end),
            direction: self.bounds.direction(),
        }
    }

    /// Open the transaction's stream over a new range.
    fn rebuild(&mut self, scan: Scan) -> (answer: Step)
        ensures
            (final(self)@, answer@) == rebuild(old(self)@, scan@),
    {
        self.source = Source::Txn(Stream::Closed);
        self.current = None;
        Step::Open(scan)
    }

    /// Pull the next entry from the transaction's stream.
    fn pull(&mut self) -> (answer: Step)
        ensures
            (final(self)@, answer@) == pull(old(self)@),
    {
        let rest = match &self.source {
            Source::Txn(Stream::Running(_)) => return Step::Go(Move::Pull, Settle::Here),
            Source::Txn(Stream::Behind(rest)) => Some(rest.copy()),
            _ => None,
        };
        match rest {
            Some(scan) => self.rebuild(scan),
            None => {
                self.current = None;
                Step::Done(Ok(false))
            },
        }
    }

    /// Report where the stream that was asked for was cut, or why it could
    /// not be opened.
    pub fn rebuilt(&mut self, outcome: Result<Option<Cut>, Failure>) -> (answer: Step)
        ensures
            (final(self)@, answer@) == rebuilt(old(self)@, said_cut(outcome)),
    {
        match outcome {
            Ok(cut) => {
                self.source = Source::Txn(Stream::Running(cut));
                self.pull()
            },
            Err(failure) => Step::Done(Err(failure)),
        }
    }

    /// Where the stream was cut: the number of what was kept there, and
    /// what lies beyond.
    fn cut(&self) -> (cut: Option<(usize, Scan)>)
        ensures
            match self@.cut() {
                Some(found) => cut is Some && cut->Some_0.0 == found.index && cut->Some_0.1@
                    == found.rest,
                None => cut is None,
            },
    {
        match &self.source {
            Source::Txn(Stream::Running(Some(cut))) => Some((cut.index(), cut.rest())),
            _ => None,
        }
    }

    /// Report where the move that was asked for landed.
    pub fn landed(&mut self, settle: Settle, landing: Landing) -> (answer: Step)
        ensures
            (final(self)@, answer@) == landed(old(self)@, settle, landing@),
    {
        let cut = self.cut();
        match landing {
            Landing::On(entry) => {
                let at_end = match &self.bounds.end {
                    Some(end) => same_bytes(entry.key.as_slice(), end.as_slice()),
                    None => false,
                };
                let value = if self.bounds.keys_only {
                    None
                } else {
                    entry.value
                };
                self.current = Some(Entry { key: entry.key, value });
                if settle == Settle::AtCut {
                    if let Some((_, rest)) = cut {
                        self.source = Source::Txn(Stream::Behind(rest));
                        return Step::Done(Ok(true));
                    }
                }
                if settle == Settle::BelowEnd && at_end {
                    return Step::Go(Move::Prev, Settle::Here);
                }
                Step::Done(Ok(self.in_range()))
            },
            Landing::Off => {
                self.current = None;
                match cut {
                    Some((index, rest)) => if settle == Settle::AtCut {
                        self.rebuild(rest)
                    } else {
                        Step::Go(Move::Kept(index), Settle::AtCut)
                    },
                    None => Step::Done(Ok(false)),
                }
            },
            Landing::Failed(failure) => {
                self.current = None;
                Step::Done(Err(failure))
            },
        }
    }

    /// Position on the entry a seek should land on, clamped to the range.
    fn seek(&mut self, target: &[u8]) -> (answer: Step)
        ensures
            (final(self)@, answer@) == seek(old(self)@, target@),
    {
        self.reset = false;
        self.pending = None;
        self.invalidate_batch();
        self.include_current = true;
        if self.bounds.reverse {
            self.seek_reverse(target)
        } else {
            self.seek_forward(target)
        }
    }

    fn seek_forward(&mut self, target: &[u8]) -> (answer: Step)
        requires
            !old(self)@.bounds.reverse,
        ensures
            (final(self)@, answer@) == seek_forward(old(self)@, target@),
    {
        // Never yield below `start`, so a target under it becomes `start`.
        let below_start = match &self.bounds.start {
            Some(start) => comes_before(target, start.as_slice()),
            None => false,
        };
        let clamped = match copy_opt(&self.bounds.start) {
            Some(start) if below_start => start,
            _ => slice_to_vec(target),
        };
        if self.over_stream() {
            let whole = self.whole_range();
            return self.rebuild(Scan { start: Some(clamped), ..whole });
        }
        Step::Go(Move::Seek(clamped), Settle::Here)
    }

    fn seek_reverse(&mut self, target: &[u8]) -> (answer: Step)
        requires
            old(self)@.bounds.reverse,
        ensures
            (final(self)@, answer@) == seek_reverse(old(self)@, target@),
    {
        let above_end = match &self.bounds.end {
            Some(end) => !comes_before(target, end.as_slice()),
            None => false,
        };
        if self.over_stream() {
            let whole = self.whole_range();
            if above_end {
                return self.rebuild(whole);
            }
            return self.rebuild(Scan { end: Some(next_key(target)), ..whole });
        }
        if above_end {
            return self.restart();
        }
        Step::Go(Move::SeekForPrev(slice_to_vec(target)), Settle::Here)
    }

    /// Drop the values the last batch retained, unpinning their owners.
    fn invalidate_batch(&mut self)
        ensures
            final(self)@ == old(self)@.without_batch(),
    {
        self.batch_values.clear();
        self.batch_count = 0;
        assert(self@ =~= old(self)@.without_batch());
    }

    /// Move onto the entry that comes next in a batch.
    fn advance_in_batch(&mut self) -> (answer: Step)
        ensures
            (final(self)@, answer@) == advance_in_batch(old(self)@),
    {
        if self.reset {
            self.reset = false;
            self.include_current = false;
            return self.restart();
        }
        if self.include_current {
            // A seek already positioned the cursor; framing starts here.
            self.include_current = false;
            return Step::Done(Ok(self.in_range()));
        }
        self.step()
    }
}

// ---------------------------------------------------------------------
// Batches.
// ---------------------------------------------------------------------

/// The keys of a batch, each as `[u32 key_len][key bytes]` with a
/// little-endian length, and how many there are.
pub struct KeyBatch {
    pub frame: Vec<u8>,
    pub count: usize,
}

/// What a [`KeyBatch`] holds.
#[verifier::ext_equal]
pub struct KeyBatchView {
    pub frame: Seq<u8>,
    pub count: nat,
}

impl View for KeyBatch {
    type V = KeyBatchView;

    open spec fn view(&self) -> KeyBatchView {
        KeyBatchView { frame: self.frame@, count: self.count as nat }
    }
}

/// A batch that is being gathered: it has room for another entry.
pub struct Batch {
    frame: Vec<u8>,
    count: usize,
    retained: usize,
    max_entries: usize,
}

/// What a [`Batch`] has gathered.
#[verifier::ext_equal]
pub struct BatchView {
    pub frame: Seq<u8>,
    pub count: nat,
    /// Value bytes kept referenced so far.
    pub retained: nat,
    pub max_entries: nat,
}

impl View for Batch {
    type V = BatchView;

    closed spec fn view(&self) -> BatchView {
        BatchView {
            frame: self.frame@,
            count: self.count as nat,
            retained: self.retained as nat,
            max_entries: self.max_entries as nat,
        }
    }
}

impl Batch {
    #[verifier::type_invariant]
    spec fn has_room(self) -> bool {
        self.count < self.max_entries && self.retained < MAX_BATCH_VALUE_BYTES
    }
}

/// What gathering a batch asks for next.
pub enum BatchStep {
    /// Perform the move and report where it landed.
    Go(Move, Settle, Batch),
    /// Open the stream and report where it was cut, or why it could not be
    /// opened.
    Open(Scan, Batch),
    /// Nothing more: the batch, or why there is none.
    Done(Result<KeyBatch, Failure>),
}

/// What a [`BatchStep`] asks for.
#[verifier::ext_equal]
pub enum BatchStepView {
    Go(MoveView, Settle, BatchView),
    Open(ScanView, BatchView),
    Done(Result<KeyBatchView, failure::FailureView>),
}

impl View for BatchStep {
    type V = BatchStepView;

    open spec fn view(&self) -> BatchStepView {
        match self {
            BatchStep::Go(ask, settle, batch) => BatchStepView::Go(ask@, *settle, batch@),
            BatchStep::Open(scan, batch) => BatchStepView::Open(scan@, batch@),
            BatchStep::Done(Ok(keys)) => BatchStepView::Done(Ok(keys@)),
            BatchStep::Done(Err(failure)) => BatchStepView::Done(Err(failure@)),
        }
    }
}

/// A key as a batch frames it.
pub open spec fn framed_key(key: Seq<u8>) -> Seq<u8> {
    spec_u32_to_le_bytes(key.len() as u32) + key
}

/// The batch with one more entry in it.
pub open spec fn gathered(batch: BatchView, entry: EntryView) -> BatchView {
    BatchView {
        frame: batch.frame + framed_key(entry.key),
        count: batch.count + 1,
        retained: batch.retained + match entry.value {
            Some(value) => value.len(),
            None => 0,
        },
        max_entries: batch.max_entries,
    }
}

/// The iterator with the value of one more batch entry retained.
pub open spec fn retaining(it: IterView, entry: EntryView) -> IterView {
    match entry.value {
        Some(value) => IterView { batch_values: it.batch_values.push(value), ..it },
        None => it,
    }
}

/// Does a batch take no further entry?
pub open spec fn is_full(batch: BatchView) -> bool {
    batch.count >= batch.max_entries || batch.retained >= MAX_BATCH_VALUE_BYTES
}

/// Hand the batch out as it is.
pub open spec fn finish(it: IterView, batch: BatchView) -> (IterView, BatchStepView) {
    (
        IterView { batch_count: batch.count, ..it },
        BatchStepView::Done(Ok(KeyBatchView { frame: batch.frame, count: batch.count })),
    )
}

/// Go on with a batch after one more step of the iterator.
///
/// On an entry it is gathered, and the batch goes on unless it is full. At
/// the end of the range the batch is done. A failure is reported at once if
/// nothing was gathered; otherwise what was gathered is handed out and the
/// failure is held back for the next call.
pub open spec fn resume(it: IterView, batch: BatchView, answer: StepView) -> (
    IterView,
    BatchStepView,
)
    decreases batch.max_entries - batch.count,
{
    match answer {
        StepView::Go(ask, settle) => (it, BatchStepView::Go(ask, settle, batch)),
        StepView::Open(scan) => (it, BatchStepView::Open(scan, batch)),
        StepView::Done(Err(failure)) => if batch.count == 0 {
            (it, BatchStepView::Done(Err(failure)))
        } else {
            finish(IterView { pending: Some(failure), ..it }, batch)
        },
        StepView::Done(Ok(valid)) => if !valid || !it.in_range() {
            finish(it, batch)
        } else {
            let entry = it.current->Some_0;
            let more = gathered(batch, entry);
            let held = retaining(it, entry);
            if entry.key.len() > u32::MAX {
                (it, BatchStepView::Done(Err(failure::unclassified("key longer than 4 GiB"@))))
            } else if is_full(more) {
                finish(held, more)
            } else {
                let (moved, next_answer) = advance_in_batch(held);
                resume(moved, more, next_answer)
            }
        },
    }
}

/// A batch that holds nothing yet.
pub open spec fn empty_batch(max_entries: nat) -> BatchView {
    BatchView { frame: Seq::empty(), count: 0, retained: 0, max_entries }
}

/// Gather a batch of up to `max_entries`, unless an error was held back.
pub open spec fn next_batch(it: IterView, max_entries: nat) -> (IterView, BatchStepView) {
    let ready = IterView { pending: None, ..it.without_batch() };
    match it.pending {
        Some(failure) => (ready, BatchStepView::Done(Err(failure))),
        None => {
            let (moved, answer) = advance_in_batch(ready);
            resume(moved, empty_batch(max_entries), answer)
        },
    }
}

/// A value's length counts towards the cap without the sum being taken.
fn reaches_cap(retained: usize, len: usize) -> (reached: bool)
    requires
        retained < MAX_BATCH_VALUE_BYTES,
    ensures
        reached == (retained + len >= MAX_BATCH_VALUE_BYTES),
{
    len >= MAX_BATCH_VALUE_BYTES - retained
}

impl RegolithIter {
    /// Hand the batch out as it is.
    fn finish(&mut self, frame: Vec<u8>, count: usize) -> (answer: BatchStep)
        ensures
            final(self)@ == (IterView { batch_count: count as nat, ..old(self)@ }),
            answer@ == BatchStepView::Done(Ok(KeyBatchView { frame: frame@, count: count as nat })),
    {
        self.batch_count = count;
        BatchStep::Done(Ok(KeyBatch { frame, count }))
    }

    /// Keep the value of the current entry referenced, if it has one.
    /// Gives its length.
    fn retain_current(&mut self) -> (len: usize)
        requires
            old(self)@.current is Some,
        ensures
            final(self)@ == retaining(old(self)@, old(self)@.current->Some_0),
            len == match old(self)@.current->Some_0.value {
                Some(value) => value.len(),
                None => 0,
            },
    {
        let value = match &self.current {
            Some(entry) => match &entry.value {
                Some(slice) => Some(slice.clone()),
                None => None,
            },
            None => None,
        };
        match value {
            Some(slice) => {
                let len: usize = slice.len();
                self.batch_values.push(slice);
                assert(self@ =~= retaining(old(self)@, old(self)@.current->Some_0));
                len
            },
            None => 0,
        }
    }

    /// Append the current key's frame. `None` if its length does not fit
    /// the frame's length field.
    fn frame_current(&self, frame: Vec<u8>) -> (framed: Option<Vec<u8>>)
        requires
            self@.current is Some,
        ensures
            framed is None <==> self@.current->Some_0.key.len() > u32::MAX,
            framed is Some ==> framed->Some_0@ == frame@ + framed_key(
                self@.current->Some_0.key,
            ),
    {
        let mut frame = frame;
        match &self.current {
            Some(entry) => {
                let key = entry.key.as_slice();
                if key.len() as u64 > u32::MAX as u64 {
                    return None;
                }
                let mut len = u32_to_le_bytes(key.len() as u32);
                let ghost before = frame@;
                frame.append(&mut len);
                frame.extend_from_slice(key);
                assert(frame@ =~= before + framed_key(key@));
                Some(frame)
            },
            None => None,
        }
    }

    /// Go on with a batch after one more step.
    fn resume(&mut self, batch: Batch, first: Step) -> (result: BatchStep)
        ensures
            (final(self)@, result@) == resume(old(self)@, batch@, first@),
    {
        proof {
            use_type_invariant(&batch);
        }
        let Batch { frame, count, retained, max_entries } = batch;
        let mut frame = frame;
        let mut count: usize = count;
        let mut retained: usize = retained;
        let mut answer = first;
        loop
            invariant
                count < max_entries,
                retained < MAX_BATCH_VALUE_BYTES,
                resume(
                    self@,
                    BatchView {
                        frame: frame@,
                        count: count as nat,
                        retained: retained as nat,
                        max_entries: max_entries as nat,
                    },
                    answer@,
                ) == resume(old(self)@, batch@, first@),
            decreases max_entries - count,
        {
            let valid = match answer {
                Step::Go(ask, settle) => {
                    return BatchStep::Go(ask, settle, Batch { frame, count, retained, max_entries });
                },
                Step::Open(scan) => {
                    return BatchStep::Open(scan, Batch { frame, count, retained, max_entries });
                },
                Step::Done(Err(failure)) => {
                    if count == 0 {
                        return BatchStep::Done(Err(failure));
                    }
                    // Hand back what was gathered and report the failure
                    // on the next call, so it is surfaced but nothing
                    // already walked is lost.
                    self.pending = Some(failure);
                    return self.finish(frame, count);
                },
                Step::Done(Ok(valid)) => valid,
            };
            if !valid || !self.in_range() {
                return self.finish(frame, count);
            }
            frame = match self.frame_current(frame) {
                Some(longer) => longer,
                None => return BatchStep::Done(Err(Failure::other("key longer than 4 GiB"))),
            };
            count += 1;
            let len: usize = self.retain_current();
            if count >= max_entries || reaches_cap(retained, len) {
                return self.finish(frame, count);
            }
            retained += len;
            answer = self.advance_in_batch();
        }
    }

    /// Report where the stream that a batch asked for was cut, or why it
    /// could not be opened.
    pub fn batch_rebuilt(&mut self, batch: Batch, outcome: Result<Option<Cut>, Failure>) -> (answer:
        BatchStep)
        ensures
            ({
                let (there, then) = rebuilt(old(self)@, said_cut(outcome));
                (final(self)@, answer@) == resume(there, batch@, then)
            }),
    {
        let answer = self.rebuilt(outcome);
        self.resume(batch, answer)
    }

    /// Report where the move that a batch asked for landed.
    pub fn batch_landed(&mut self, settle: Settle, batch: Batch, landing: Landing) -> (answer:
        BatchStep)
        ensures
            ({
                let (there, then) = landed(old(self)@, settle, landing@);
                (final(self)@, answer@) == resume(there, batch@, then)
            }),
    {
        let answer = self.landed(settle, landing);
        self.resume(batch, answer)
    }
}

// ---------------------------------------------------------------------
// Entry points.
// ---------------------------------------------------------------------

/// The refusal of a null iterator handle.
pub open spec fn null_iterator() -> failure::FailureView {
    failure::invalid("null iterator handle"@)
}

fn null_handle() -> (bad: Failure)
    ensures
        bad@ == null_iterator(),
{
    Failure::invalid_arg("null iterator handle")
}

/// Advance the iterator.
///
/// The first call after construction or after a reset positions at the
/// start of the range instead of advancing.
pub fn regolith_iter_next(it: Option<&mut RegolithIter>) -> (answer: Step)
    ensures
        match it {
            None => answer@ == StepView::Done(Err(null_iterator())),
            Some(iter) => (final(iter)@, answer@) == next(iter@),
        },
{
    match it {
        None => Step::Done(Err(null_handle())),
        Some(iter) => {
            // Single-entry stepping ignores a pending seek position: a
            // `next` after a seek advances from there.
            iter.include_current = false;
            if iter.reset {
                iter.reset = false;
                iter.restart()
            } else {
                iter.step()
            }
        },
    }
}

/// Seek to `key`, clamped to the configured range. In reverse this lands
/// on the greatest key at or below `key`.
pub fn regolith_iter_seek(
    it: Option<&mut RegolithIter>,
    key: Option<&[u8]>,
    key_len: usize,
) -> (answer: Step)
    requires
        key is Some ==> key->Some_0@.len() == key_len,
    ensures
        match it {
            None => answer@ == StepView::Done(Err(null_iterator())),
            Some(iter) => match boundary::given_bytes(key, key_len) {
                None => final(iter)@ == iter@ && answer@ == StepView::Done(
                    Err(failure::invalid("null key"@)),
                ),
                Some(target) => (final(iter)@, answer@) == seek(iter@, target),
            },
        },
{
    match it {
        None => Step::Done(Err(null_handle())),
        Some(iter) => match in_bytes(key, key_len) {
            None => Step::Done(Err(Failure::invalid_arg("null key"))),
            Some(target) => iter.seek(target),
        },
    }
}

/// Mark the iterator for re-iteration: the next advance returns to the
/// start of the range.
pub fn regolith_iter_reset(it: Option<&mut RegolithIter>) -> (outcome: Result<(), Failure>)
    ensures
        match it {
            None => failure::said(outcome) == Err::<(), failure::FailureView>(null_iterator()),
            Some(iter) => outcome is Ok && final(iter)@ == reset(iter@),
        },
{
    match it {
        None => Err(null_handle()),
        Some(iter) => {
            iter.reset = true;
            iter.include_current = false;
            iter.pending = None;
            iter.invalidate_batch();
            Ok(())
        },
    }
}

/// Copy out the current key. [`NOT_FOUND`] when the iterator is not on a
/// valid entry.
pub fn regolith_iter_key(it: Option<&RegolithIter>, key: bool, key_len: bool) -> (outcome: Result<
    Vec<u8>,
    Failure,
>)
    ensures
        match it {
            None => outcome is Err && outcome->Err_0@ == null_iterator(),
            Some(iter) => if !iter@.in_range() {
                outcome is Err && outcome->Err_0@ == failure::bare(NOT_FOUND)
            } else if !key || !key_len {
                outcome is Err && outcome->Err_0@ == boundary::null_out()
            } else {
                outcome is Ok && outcome->Ok_0@ == iter@.current->Some_0.key
            },
        },
{
    let iter = match it {
        None => return Err(null_handle()),
        Some(iter) => iter,
    };
    if !iter.in_range() {
        return Err(Failure::code(NOT_FOUND));
    }
    match &iter.current {
        Some(entry) => out_bytes(slice_to_vec(entry.key.as_slice()), key, key_len),
        None => Err(Failure::code(NOT_FOUND)),
    }
}

/// Copy out the current value, or an empty buffer under `keys_only`.
/// [`NOT_FOUND`] when the iterator is not on a valid entry.
pub fn regolith_iter_value(it: Option<&RegolithIter>, val: bool, val_len: bool) -> (outcome: Result<
    Vec<u8>,
    Failure,
>)
    ensures
        match it {
            None => outcome is Err && outcome->Err_0@ == null_iterator(),
            Some(iter) => if !iter@.in_range() {
                outcome is Err && outcome->Err_0@ == failure::bare(NOT_FOUND)
            } else if !val || !val_len {
                outcome is Err && outcome->Err_0@ == boundary::null_out()
            } else {
                &&& outcome is Ok
                &&& outcome->Ok_0@ == match iter@.current->Some_0.value {
                    Some(value) => value,
                    None => Seq::empty(),
                }
            },
        },
{
    let iter = match it {
        None => return Err(null_handle()),
        Some(iter) => iter,
    };
    if !iter.in_range() {
        return Err(Failure::code(NOT_FOUND));
    }
    let value = match &iter.current {
        Some(entry) => match &entry.value {
            Some(slice) => slice_to_vec(slice.as_slice()),
            None => Vec::new(),
        },
        None => Vec::new(),
    };
    out_bytes(value, val, val_len)
}

/// Advance up to `max_entries` times, framing the keys walked into one
/// buffer.
///
/// The first iteration of the batch honours the same positioning rule as
/// [`regolith_iter_next`]: after construction or a reset it positions on
/// the first in-range entry rather than advancing, and after a seek it
/// starts on the entry the seek landed on rather than stepping past it.
///
/// A batch without entries is the only signal that the range is exhausted.
/// A short batch does not mean exhaustion: it can also be the retained
/// value cap ([`MAX_BATCH_VALUE_BYTES`]) or a read error being held back
/// until the next call.
pub fn regolith_iter_next_batch(
    it: Option<&mut RegolithIter>,
    max_entries: usize,
    out: bool,
    out_len: bool,
    out_count: bool,
) -> (answer: BatchStep)
    ensures
        match it {
            None => answer@ == BatchStepView::Done(Err(null_iterator())),
            Some(iter) => if !out || !out_len || !out_count {
                final(iter)@ == iter@ && answer@ == BatchStepView::Done(Err(boundary::null_out()))
            } else if max_entries == 0 {
                final(iter)@ == iter@ && answer@ == BatchStepView::Done(
                    Err(failure::invalid("max_entries must be at least 1"@)),
                )
            } else {
                (final(iter)@, answer@) == next_batch(iter@, max_entries as nat)
            },
        },
{
    let iter = match it {
        None => return BatchStep::Done(Err(null_handle())),
        Some(iter) => iter,
    };
    if !out || !out_len || !out_count {
        return BatchStep::Done(Err(Failure::invalid_arg("null out-param")));
    }
    if max_entries == 0 {
        // An empty batch is indistinguishable from exhaustion, so asking
        // for one is a caller bug rather than a no-op.
        return BatchStep::Done(Err(Failure::invalid_arg("max_entries must be at least 1")));
    }
    // The previous batch's values stop being addressable here.
    iter.invalidate_batch();
    match iter.pending.take() {
        Some(failure) => BatchStep::Done(Err(failure)),
        None => {
            let batch = Batch { frame: Vec::new(), count: 0, retained: 0, max_entries };
            assert(batch@ =~= empty_batch(max_entries as nat));
            let answer = iter.advance_in_batch();
            iter.resume(batch, answer)
        },
    }
}

/// The value of entry `idx` of an iterator's last batch: `None` where
/// nothing was retained for it.
pub open spec fn batch_value(it: IterView, idx: nat) -> Option<Seq<u8>> {
    if idx < it.batch_values.len() {
        Some(it.batch_values[idx as int])
    } else {
        None
    }
}

/// Borrow the value of entry `idx` of the current batch. Under `keys_only`
/// an index in range yields nothing. An index at or beyond the last batch's
/// entry count is refused.
pub fn regolith_iter_batch_value(
    it: Option<&RegolithIter>,
    idx: usize,
    val: bool,
    val_len: bool,
) -> (outcome: Result<Option<&[u8]>, Failure>)
    ensures
        match it {
            None => outcome is Err && outcome->Err_0@ == null_iterator(),
            Some(iter) => if !val || !val_len {
                outcome is Err && outcome->Err_0@ == boundary::null_out()
            } else if idx >= iter@.batch_count {
                outcome is Err && outcome->Err_0@ == failure::invalid(
                    "batch value index out of range"@,
                )
            } else {
                outcome is Ok && boundary::opt_bytes(outcome->Ok_0) == batch_value(
                    iter@,
                    idx as nat,
                )
            },
        },
{
    let iter = match it {
        None => return Err(null_handle()),
        Some(iter) => iter,
    };
    if !val || !val_len {
        return Err(Failure::invalid_arg("null out-param"));
    }
    if idx >= iter.batch_count {
        return Err(Failure::invalid_arg("batch value index out of range"));
    }
    if idx < iter.batch_values.len() {
        Ok(Some(iter.batch_values[idx].as_slice()))
    } else {
        // `keys_only` retains nothing.
        Ok(None)
    }
}

/// Close the iterator: hand it back to be dropped.
pub fn regolith_iter_close(it: Option<RegolithIter>) -> (outcome: Result<RegolithIter, Failure>)
    ensures
        failure::said(outcome) == match it {
            None => Err::<RegolithIter, failure::FailureView>(null_iterator()),
            Some(iter) => Ok(iter),
        },
{
    match it {
        None => Err(null_handle()),
        Some(iter) => Ok(iter),
    }
}

// ---------------------------------------------------------------------
// Laws.
// ---------------------------------------------------------------------

/// What is asked of the store and what it answers is taken whole: keys,
/// values and bounds are the bytes they hold.
pub proof fn law_asks_and_answers_are_what_they_hold(
    entry: Entry,
    key: Vec<u8>,
    index: usize,
    failure: Failure,
    scan: Scan,
)
    ensures
        entry@.key == entry.key@,
        entry.value is None ==> entry@.value is None,
        entry.value is Some ==> entry@.value == Some(engine::slice_bytes(entry.value->Some_0)),
        Move::First@ is First,
        Move::Last@ is Last,
        Move::Seek(key)@ == MoveView::Seek(key@),
        Move::SeekForPrev(key)@ == MoveView::SeekForPrev(key@),
        Move::Next@ is Next,
        Move::Prev@ is Prev,
        Move::Pull@ is Pull,
        Move::Kept(index)@ == MoveView::Kept(index as nat),
        Landing::On(entry)@ == LandingView::On(entry@),
        Landing::Off@ is Off,
        Landing::Failed(failure)@ == LandingView::Failed(failure@),
        scan@.start is Some <==> scan.start is Some,
        scan.start is Some ==> scan@.start == Some(scan.start->Some_0@),
        scan@.end is Some <==> scan.end is Some,
        scan.end is Some ==> scan@.end == Some(scan.end->Some_0@),
        scan@.direction == scan.direction,
{
}

/// A step says what it asks for, or what the operation came to.
pub proof fn law_steps_are_what_they_ask(
    ask: Move,
    settle: Settle,
    scan: Scan,
    batch: Batch,
    done: Result<bool, Failure>,
    keys: KeyBatch,
    failure: Failure,
)
    ensures
        Step::Go(ask, settle)@ == StepView::Go(ask@, settle),
        Step::Open(scan)@ == StepView::Open(scan@),
        Step::Done(done)@ == StepView::Done(failure::said(done)),
        BatchStep::Go(ask, settle, batch)@ == BatchStepView::Go(ask@, settle, batch@),
        BatchStep::Open(scan, batch)@ == BatchStepView::Open(scan@, batch@),
        BatchStep::Done(Ok(keys))@ == BatchStepView::Done(Ok(keys@)),
        BatchStep::Done(Err(failure))@ == BatchStepView::Done(Err(failure@)),
        keys@.frame == keys.frame@,
        keys@.count == keys.count,
{
}

/// A batch that is being gathered is what it holds.
proof fn law_a_batch_is_what_it_holds(batch: Batch)
    ensures
        batch@.frame == batch.frame@,
        batch@.count == batch.count,
        batch@.retained == batch.retained,
        batch@.max_entries == batch.max_entries,
{
}

/// An iterator is what it holds.
proof fn law_an_iterator_is_what_it_holds(it: RegolithIter, i: int)
    ensures
        it@.bounds == it.bounds@,
        it@.source is Snapshot <==> it.source is Snapshot,
        it@.source is Txn ==> it@.source->Txn_0 == it.source->Txn_0@,
        it@.reset == it.reset,
        it@.include_current == it.include_current,
        it@.current is Some <==> it.current is Some,
        it.current is Some ==> it@.current == Some(it.current->Some_0@),
        it@.batch_values.len() == it.batch_values@.len(),
        0 <= i < it.batch_values@.len() ==> it@.batch_values[i] == engine::slice_bytes(
            it.batch_values@[i],
        ),
        it@.batch_count == it.batch_count,
        it@.pending is Some <==> it.pending is Some,
        it.pending is Some ==> it@.pending == Some(it.pending->Some_0@),
{
}

/// A value of the last batch is found under its index, whole, and nothing
/// under an index behind the last that was retained.
pub proof fn law_batch_values_are_found_by_index(it: IterView, idx: nat)
    ensures
        idx < it.batch_values.len() ==> batch_value(it, idx) == Some(it.batch_values[idx as int]),
        idx >= it.batch_values.len() ==> batch_value(it, idx) is None,
        MAX_BATCH_VALUE_BYTES == 1024 * 1024,
        null_iterator().status == 6,
        null_iterator().detail == Some("null iterator handle"@),
{
}

} // verus!
