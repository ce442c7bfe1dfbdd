//! What iterating comes to, over a store. A snapshot does not change under
//! an iterator; a transaction may go on writing.

use vstd::prelude::*;

use crate::bounds;
use crate::failure;
use crate::iter;
use crate::iter::Settle;
use crate::order;
use crate::walk;
use crate::written;

verus! {

// ---------------------------------------------------------------------
// A store to iterate over.
// ---------------------------------------------------------------------

/// What an iterator reads from.
pub struct Store {
    /// The entries, as they are now.
    pub entries: Seq<iter::EntryView>,
    /// Where the cursor is.
    pub cursor: int,
    /// What the stream that is open has left to hand out.
    pub stream: Seq<iter::EntryView>,
    /// The entries, as they were when the iterator was created.
    pub view: Seq<iter::EntryView>,
    /// The keys written since iterators were open, and where this one
    /// began.
    pub log: written::LogView,
    pub mark: nat,
    /// What was kept for each of those keys.
    pub kept: Seq<Option<iter::EntryView>>,
    /// A key whose entry cannot be read, and how reading it fails.
    pub bad: Option<(Seq<u8>, failure::FailureView)>,
}

/// Does reading the entry of `key` fail?
pub open spec fn is_bad(store: Store, key: Seq<u8>) -> bool {
    store.bad is Some && store.bad->Some_0.0 == key
}

/// Read an entry.
pub open spec fn read(store: Store, entry: iter::EntryView) -> iter::LandingView {
    if is_bad(store, entry.key) {
        iter::LandingView::Failed(store.bad->Some_0.1)
    } else {
        iter::LandingView::On(entry)
    }
}

/// The index of an entry, or one in front of the first or behind the last,
/// that a move takes the cursor to.
pub open spec fn destination(store: Store, ask: iter::MoveView) -> int {
    match ask {
        iter::MoveView::First => 0,
        iter::MoveView::Last => store.entries.len() - 1,
        iter::MoveView::Seek(key) => walk::before_count(store.entries, key) as int,
        iter::MoveView::SeekForPrev(key) => walk::at_most_count(store.entries, key) - 1,
        iter::MoveView::Next => store.cursor + 1,
        iter::MoveView::Prev => store.cursor - 1,
        iter::MoveView::Pull => store.cursor,
        iter::MoveView::Kept(_) => store.cursor,
    }
}

/// Perform a move.
pub open spec fn perform(store: Store, ask: iter::MoveView) -> (Store, iter::LandingView) {
    match ask {
        iter::MoveView::Pull => if store.stream.len() == 0 {
            (store, iter::LandingView::Off)
        } else {
            (
                Store { stream: store.stream.skip(1), ..store },
                read(store, store.stream[0]),
            )
        },
        iter::MoveView::Kept(index) => (
            store,
            if index < store.kept.len() && store.kept[index as int] is Some {
                read(store, store.kept[index as int]->Some_0)
            } else {
                iter::LandingView::Off
            },
        ),
        _ => {
            let cursor = destination(store, ask);
            (
                Store { cursor, ..store },
                if 0 <= cursor < store.entries.len() {
                    read(store, store.entries[cursor])
                } else {
                    iter::LandingView::Off
                },
            )
        },
    }
}

/// Open a stream, cut at the first key written since the iterator was
/// created.
pub open spec fn open_stream(store: Store, scan: iter::ScanView) -> (
    Store,
    Option<written::CutView>,
) {
    let (near, cut) = written::cut(store.log.keys, store.mark, scan);
    (Store { stream: walk::walk(store.entries, near.range()), ..store }, cut)
}

/// The keys written that a step may still come to.
pub open spec fn notes_ahead(it: iter::IterView, store: Store, answer: iter::StepView) -> nat {
    match answer {
        iter::StepView::Done(_) => 0,
        iter::StepView::Open(scan) => written::count_noted(store.log.keys, store.mark, scan),
        iter::StepView::Go(_, _) => match it.cut() {
            Some(cut) => written::count_noted(store.log.keys, store.mark, cut.rest),
            None => 0,
        },
    }
}

/// How many moves a step is from being done or from the next key written,
/// at most.
pub open spec fn distance(it: iter::IterView, answer: iter::StepView) -> nat {
    match answer {
        iter::StepView::Done(_) => 0,
        iter::StepView::Go(_, Settle::BelowEnd) => 5,
        iter::StepView::Open(_) => 2,
        iter::StepView::Go(_, settle) => if it.cut() is None {
            1
        } else if settle == Settle::AtCut {
            3
        } else {
            4
        },
    }
}

/// Do what is asked for until the operation is done. A transaction is live.
pub open spec fn run(it: iter::IterView, store: Store, answer: iter::StepView) -> (
    iter::IterView,
    Store,
    Result<bool, failure::FailureView>,
)
    decreases notes_ahead(it, store, answer), distance(it, answer),
    via run_ends
{
    match answer {
        iter::StepView::Done(outcome) => (it, store, outcome),
        iter::StepView::Go(ask, settle) => {
            let (moved, landing) = perform(store, ask);
            let (there, then) = iter::landed(it, settle, landing);
            run(there, moved, then)
        },
        iter::StepView::Open(scan) => {
            let (opened, cut) = open_stream(store, scan);
            let (there, then) = iter::rebuilt(it, Ok(cut));
            run(there, opened, then)
        },
    }
}

#[via_fn]
proof fn run_ends(it: iter::IterView, store: Store, answer: iter::StepView) {
    if let iter::StepView::Open(scan) = answer {
        written::lemma_cut_leaves_fewer(store.log.keys, store.mark, scan);
    }
}

/// One `next`.
pub open spec fn run_next(it: iter::IterView, store: Store) -> (
    iter::IterView,
    Store,
    Result<bool, failure::FailureView>,
) {
    let (there, answer) = iter::next(it);
    run(there, store, answer)
}

/// As many `next`s as `n` and one more.
pub open spec fn run_nexts(it: iter::IterView, store: Store, n: nat) -> (
    iter::IterView,
    Store,
    Result<bool, failure::FailureView>,
)
    decreases n,
{
    if n == 0 {
        run_next(it, store)
    } else {
        let (there, after, _) = run_nexts(it, store, (n - 1) as nat);
        run_next(there, after)
    }
}

/// One seek.
pub open spec fn run_seek(it: iter::IterView, store: Store, target: Seq<u8>) -> (
    iter::IterView,
    Store,
    Result<bool, failure::FailureView>,
) {
    let (there, answer) = iter::seek(it, target);
    run(there, store, answer)
}

/// A fresh iterator over `source`, and the store it was created over.
pub open spec fn created(source: iter::SourceView, range: bounds::BoundsView, store: Store) -> (
    iter::IterView,
    Store,
) {
    (
        iter::fresh(source, range),
        Store {
            view: store.entries,
            log: written::with_iterator(store.log),
            mark: store.log.keys.len(),
            ..store
        },
    )
}

/// Are these entries, sorted again, after nothing but `key` was written?
pub open spec fn rewritten(
    entries: Seq<iter::EntryView>,
    key: Seq<u8>,
    later: Seq<iter::EntryView>,
) -> bool {
    &&& walk::sorted(later)
    &&& forall|entry: iter::EntryView|
        entry.key != key ==> (#[trigger] later.contains(entry) <==> entries.contains(entry))
}

/// The store once the transaction wrote `key`, and holds `later` then. What
/// stood there is kept if the key is noted.
pub open spec fn write(store: Store, key: Seq<u8>, later: Seq<iter::EntryView>) -> Store {
    Store {
        entries: later,
        log: written::noted(store.log, key),
        kept: if written::is_news(store.log, key) {
            store.kept.push(walk::entry_at(store.entries, key))
        } else {
            store.kept
        },
        ..store
    }
}

/// The store once the transaction made some writes, one after the other.
pub open spec fn write_all(store: Store, writes: Seq<(Seq<u8>, Seq<iter::EntryView>)>) -> Store
    decreases writes.len(),
{
    if writes.len() == 0 {
        store
    } else {
        let last = writes.last();
        write(write_all(store, writes.drop_last()), last.0, last.1)
    }
}

/// Is each of these writes one of its key alone?
pub open spec fn are_writes(
    store: Store,
    writes: Seq<(Seq<u8>, Seq<iter::EntryView>)>,
) -> bool
    decreases writes.len(),
{
    writes.len() > 0 ==> are_writes(store, writes.drop_last()) && rewritten(
        write_all(store, writes.drop_last()).entries,
        writes.last().0,
        writes.last().1,
    )
}

// ---------------------------------------------------------------------
// Positions.
// ---------------------------------------------------------------------

/// Entries as an iterator keeps them.
pub open spec fn as_kept(entries: Seq<iter::EntryView>, keys_only: bool) -> Seq<iter::EntryView> {
    if keys_only {
        entries.map_values(
            |entry: iter::EntryView| iter::EntryView { key: entry.key, value: None },
        )
    } else {
        entries
    }
}

/// The entries that an iterator is there to walk: of a transaction, those
/// that there were when it was created.
pub open spec fn source_entries(it: iter::IterView, store: Store) -> Seq<iter::EntryView> {
    if it.source is Txn {
        store.view
    } else {
        store.entries
    }
}

/// The entries an iterator yields, in order: those of its range.
pub open spec fn yielded(it: iter::IterView, store: Store) -> Seq<iter::EntryView> {
    as_kept(walk::walk(source_entries(it, store), it.bounds), it.bounds.keys_only)
}

/// Is a note the first of its key since `mark`?
pub open spec fn first_since(keys: Seq<Seq<u8>>, mark: nat, index: int) -> bool {
    &&& mark <= index < keys.len()
    &&& forall|i: int| mark <= i < index ==> #[trigger] keys[i] != keys[index]
}

/// Is everything as it was when the iterator was created but for what was
/// noted, and was what stood there kept?
pub open spec fn accounted_for(store: Store) -> bool {
    &&& store.log.marks.contains(store.mark)
    &&& store.mark <= store.log.keys.len()
    &&& store.kept.len() == store.log.keys.len()
    &&& forall|entry: iter::EntryView|
        !written::noted_since(store.log, store.mark, entry.key) ==> (
        #[trigger] store.entries.contains(entry) <==> store.view.contains(entry))
    &&& forall|i: int| #[trigger]
        first_since(store.log.keys, store.mark, i) ==> store.kept[i] == walk::entry_at(
            store.view,
            store.log.keys[i],
        )
}

/// Is the store in order, and is what cannot be read in the iterator's
/// range, if there is such a key?
pub open spec fn sound(it: iter::IterView, store: Store) -> bool {
    &&& walk::sorted(store.entries)
    &&& it.source is Txn ==> walk::sorted(store.view) && accounted_for(store)
    &&& store.bad is Some ==> it.bounds.contains(store.bad->Some_0.0)
}

/// Is this the cut of a stream over the iterator's range?
pub open spec fn cut_fits(it: iter::IterView, store: Store, cut: written::CutView) -> bool {
    &&& first_since(store.log.keys, store.mark, cut.index as int)
    &&& store.log.keys[cut.index as int] == cut.key
    &&& it.bounds.contains(cut.key)
    &&& cut.rest == iter::whole_range(it.bounds).beyond(cut.key)
}

/// Does the stream that is open over a transaction go on with entry `from`
/// of the walk, up to where it was cut?
pub open spec fn runs(it: iter::IterView, store: Store, from: int) -> bool {
    let all = walk::walk(store.view, it.bounds);
    let to = match it.cut() {
        Some(cut) => walk::leading(all, walk::short_of(it.bounds, cut.key)) as int,
        None => all.len() as int,
    };
    &&& it.source is Txn
    &&& it.source->Txn_0 is Running
    &&& 0 <= from <= to <= all.len()
    &&& store.stream == all.subrange(from, to)
    &&& it.cut() is Some ==> cut_fits(it, store, it.cut()->Some_0)
}

/// The index of the walk that follows `n`.
pub open spec fn following(all: Seq<iter::EntryView>, n: int) -> int {
    if n < all.len() {
        n + 1
    } else {
        n
    }
}

/// Is the iterator on entry `n` of its walk, or at its end if there is no
/// such entry? Then the cursor or the stream is where it goes on from.
pub open spec fn stands(it: iter::IterView, store: Store, n: int) -> bool {
    let all = yielded(it, store);
    &&& !it.reset
    &&& 0 <= n <= all.len()
    &&& n < all.len() ==> it.current == Some(all[n])
    &&& it.in_range() <==> n < all.len()
    &&& match it.source {
        iter::SourceView::Snapshot => n < all.len() ==> store.cursor == walk::position(
            store.entries,
            it.bounds,
            n,
        ),
        iter::SourceView::Txn(iter::StreamView::Behind(rest)) => n < all.len() && rest
            == iter::whole_range(it.bounds).beyond(all[n].key),
        iter::SourceView::Txn(_) => runs(it, store, following(all, n)),
    }
}

/// Does an operation touch nothing but where the iterator stands?
pub open spec fn only_moved(it: iter::IterView, after: iter::IterView) -> bool {
    &&& after == (iter::IterView { current: after.current, source: after.source, ..it })
    &&& after.source is Txn <==> it.source is Txn
}

/// Does it touch nothing of the store but the cursor and the stream?
pub open spec fn only_read(store: Store, moved: Store) -> bool {
    moved == (Store { cursor: moved.cursor, stream: moved.stream, ..store })
}

/// Is this what running an operation of an iterator comes to: it stands on
/// entry `n` and says whether there is one? Where that entry cannot be
/// read, it says so.
pub open spec fn arrives(
    it: iter::IterView,
    store: Store,
    result: (iter::IterView, Store, Result<bool, failure::FailureView>),
    n: int,
) -> bool {
    let all = yielded(it, store);
    let (after, moved, outcome) = result;
    &&& after.bounds == it.bounds
    &&& after.source is Txn <==> it.source is Txn
    &&& only_read(store, moved)
    &&& if 0 <= n < all.len() && is_bad(store, all[n].key) {
        outcome == Err::<bool, failure::FailureView>(store.bad->Some_0.1)
    } else {
        stands(after, moved, n) && outcome == Ok::<bool, failure::FailureView>(n < all.len())
    }
}

/// What an operation does not touch.
proof fn lemma_frame(it: iter::IterView, store: Store, answer: iter::StepView)
    requires
        answer is Open ==> it.source is Txn,
    ensures
        only_moved(it, run(it, store, answer).0),
        only_read(store, run(it, store, answer).1),
    decreases notes_ahead(it, store, answer), distance(it, answer),
{
    match answer {
        iter::StepView::Done(_) => {},
        iter::StepView::Go(ask, settle) => {
            let (moved, landing) = perform(store, ask);
            let (there, then) = iter::landed(it, settle, landing);
            lemma_frame(there, moved, then);
        },
        iter::StepView::Open(scan) => {
            written::lemma_cut_leaves_fewer(store.log.keys, store.mark, scan);
            let (opened, cut) = open_stream(store, scan);
            let (there, then) = iter::rebuilt(it, Ok(cut));
            lemma_frame(there, opened, then);
        },
    }
}

/// Pulling from a stream that goes on with entry `from` of the walk.
proof fn lemma_pull(it: iter::IterView, store: Store, from: int)
    requires
        sound(it, store),
        !it.reset,
        runs(it, store, from),
    ensures
        arrives(
            it,
            store,
            run(it, store, iter::StepView::Go(iter::MoveView::Pull, Settle::Here)),
            from,
        ),
    decreases
            notes_ahead(it, store, iter::StepView::Go(iter::MoveView::Pull, Settle::Here)),
            distance(it, iter::StepView::Go(iter::MoveView::Pull, Settle::Here)),
{
    let answer = iter::StepView::Go(iter::MoveView::Pull, Settle::Here);
    lemma_frame(it, store, answer);
    let all = walk::walk(store.view, it.bounds);
    let (moved, landing) = perform(store, iter::MoveView::Pull);
    let (there, then) = iter::landed(it, Settle::Here, landing);
    assert(run(it, store, answer) == run(there, moved, then));
    if store.stream.len() > 0 {
        assert(store.stream[0] == all[from]);
        assert(yielded(it, store)[from] == it.kept(all[from]));
        assert(run(there, moved, then) == (there, moved, then->Done_0));
        if landing is On {
            let to = from + store.stream.len();
            assert(moved.stream =~= all.subrange(from + 1, to));
            assert(runs(there, moved, from + 1));
        }
    } else if let Some(cut) = it.cut() {
        let whole = iter::whole_range(it.bounds);
        walk::lemma_whole_scan(store.view, it.bounds);
        assert(whole.contains(cut.key));
        walk::lemma_cut_walk(store.view, it.bounds, whole, cut.key);
        assert(store.kept[cut.index as int] == walk::entry_at(store.view, cut.key));
        let ask = iter::MoveView::Kept(cut.index);
        let (again, kept) = perform(moved, ask);
        let (on, next) = iter::landed(there, Settle::AtCut, kept);
        assert(run(there, moved, then) == run(on, again, next));
        match walk::entry_at(store.view, cut.key) {
            Some(entry) => {
                assert(all[from] == entry);
                assert(yielded(it, store)[from] == it.kept(entry));
                assert(run(on, again, next) == (on, again, next->Done_0));
            },
            None => {
                assert(next == iter::StepView::Open(cut.rest));
                lemma_open(on, again, cut.rest);
            },
        }
    } else {
        assert(run(there, moved, then) == (there, moved, then->Done_0));
        assert(runs(there, moved, from));
    }
}

/// Opening a stream over what is left of the walk, and taking the first of
/// it.
proof fn lemma_open(it: iter::IterView, store: Store, scan: iter::ScanView)
    requires
        sound(it, store),
        it.source is Txn,
        !it.reset,
        walk::fits(it.bounds, scan),
    ensures
        arrives(
            it,
            store,
            run(it, store, iter::StepView::Open(scan)),
            walk::entry_point(store.view, it.bounds, scan) as int,
        ),
    decreases
            notes_ahead(it, store, iter::StepView::Open(scan)),
            distance(it, iter::StepView::Open(scan)),
{
    lemma_frame(it, store, iter::StepView::Open(scan));
    let (keys, mark) = (store.log.keys, store.mark);
    let (near, cut) = written::cut(keys, mark, scan);
    let (opened, _) = open_stream(store, scan);
    let (there, then) = iter::rebuilt(it, Ok(cut));
    let from = walk::entry_point(store.view, it.bounds, scan) as int;
    written::lemma_cut_leaves_fewer(keys, mark, scan);
    assert(run(it, store, iter::StepView::Open(scan)) == run(there, opened, then));
    // The stream shows nothing that was written since.
    assert(opened.stream == walk::walk(store.view, near.range())) by {
        assert forall|entry: iter::EntryView| #[trigger]
            near.range().contains(entry.key) implies (store.entries.contains(entry)
            <==> store.view.contains(entry)) by {
            written::law_a_cut_stream_shows_nothing_noted(keys, mark, scan, entry.key);
            assert(near.contains(entry.key));
            assert(!written::noted_since(store.log, mark, entry.key));
        }
        walk::lemma_same_walk(store.entries, store.view, near.range());
    }
    walk::lemma_entry_point(store.view, it.bounds, scan);
    if let Some(found) = cut {
        written::law_a_cut_stream_shows_nothing_noted(keys, mark, scan, found.key);
        walk::lemma_cut_walk(store.view, it.bounds, scan, found.key);
        assert(it.bounds.contains(found.key));
    }
    assert(runs(there, opened, from));
    assert(yielded(there, opened) == yielded(it, store));
    lemma_pull(there, opened, from);
}

/// Landing a snapshot's cursor on index `at`, which is where entry `n` of
/// the walk is or, if there is none, outside the range.
proof fn lemma_land(it: iter::IterView, store: Store, ask: iter::MoveView, n: int)
    requires
        it.source is Snapshot,
        !it.reset,
        !(ask is Pull),
        !(ask is Kept),
        sound(it, store),
        0 <= n <= yielded(it, store).len(),
        n < yielded(it, store).len() ==> destination(store, ask) == walk::position(
            store.entries,
            it.bounds,
            n,
        ),
        n == yielded(it, store).len() ==> !(walk::low(store.entries, it.bounds.start)
            <= destination(store, ask) < walk::high(store.entries, it.bounds.end)),
    ensures
        arrives(it, store, run(it, store, iter::StepView::Go(ask, Settle::Here)), n),
{
    let answer = iter::StepView::Go(ask, Settle::Here);
    lemma_frame(it, store, answer);
    let (moved, landing) = perform(store, ask);
    let (there, then) = iter::landed(it, Settle::Here, landing);
    assert(run(it, store, answer) == run(there, moved, then));
    assert(run(there, moved, then) == (there, moved, then->Done_0));
    walk::lemma_walk(store.entries, it.bounds);
    let all = walk::walk(store.entries, it.bounds);
    let at = destination(store, ask);
    if n < all.len() {
        assert(all[n] == store.entries[at]);
        assert(yielded(it, store)[n] == it.kept(store.entries[at]));
    }
    if 0 <= at < store.entries.len() {
        let inside = it.bounds.contains(store.entries[at].key);
        assert(inside <==> n < all.len());
    }
}

/// Positioning a snapshot's cursor on the last entry below the exclusive
/// end of the range.
proof fn lemma_restart_below(it: iter::IterView, store: Store, end: Seq<u8>)
    requires
        sound(it, store),
        !it.reset,
        it.source is Snapshot,
        it.bounds.reverse,
        it.bounds.end == Some(end),
    ensures
        ({
            let (there, answer) = iter::restart(it);
            arrives(it, store, run(there, store, answer), 0)
        }),
{
    let (_, answer) = iter::restart(it);
    let ask = iter::MoveView::SeekForPrev(end);
    lemma_frame(it, store, answer);
    walk::lemma_walk(store.entries, it.bounds);
    walk::lemma_before_count(store.entries, end);
    walk::lemma_at_most_count(store.entries, end);
    order::lemma_irreflexive(end);
    let top = walk::before_count(store.entries, end) as int;
    let at = destination(store, ask);
    let (moved, landing) = perform(store, ask);
    let (there, then) = iter::landed(it, Settle::BelowEnd, landing);
    assert(run(it, store, answer) == run(there, moved, then));
    // The cursor lands on the end itself if it is there, and just below it
    // otherwise.
    if 0 <= at < store.entries.len() && store.entries[at].key == end {
        assert(!order::before(store.entries[at].key, end));
        assert(top <= at);
        assert(top == at) by {
            if top < at {
                assert(order::before(store.entries[top].key, store.entries[at].key));
            }
        }
        assert(!it.bounds.contains(end));
        assert(then == iter::StepView::Go(iter::MoveView::Prev, Settle::Here));
        lemma_land(there, moved, iter::MoveView::Prev, 0);
    } else {
        assert(at == top - 1) by {
            if top <= at {
                assert(order::at_most(store.entries[at].key, end));
                assert(!order::before(store.entries[at].key, end));
                order::lemma_total(store.entries[at].key, end);
            }
            if at + 1 < top {
                assert(order::before(store.entries[at + 1].key, end));
                order::lemma_total(store.entries[at + 1].key, end);
                assert(order::at_most(store.entries[at + 1].key, end));
            }
        }
        lemma_land(it, store, ask, 0);
        let here = iter::StepView::Go(ask, Settle::Here);
        let (same, done) = iter::landed(it, Settle::Here, landing);
        assert(run(it, store, here) == run(same, moved, done));
        assert((same, done) == (there, then));
    }
}

/// Positioning on the first entry of the range.
pub(crate) proof fn lemma_restart(it: iter::IterView, store: Store)
    requires
        sound(it, store),
        !it.reset,
    ensures
        ({
            let (there, answer) = iter::restart(it);
            let result = run(there, store, answer);
            arrives(it, store, result, 0) && only_moved(it, result.0)
        }),
{
    let (there, answer) = iter::restart(it);
    lemma_frame(there, store, answer);
    if it.source is Txn {
        walk::lemma_whole_scan(store.view, it.bounds);
        lemma_open(there, store, iter::whole_range(it.bounds));
    } else if it.bounds.reverse {
        match it.bounds.end {
            None => {
                walk::lemma_walk(store.entries, it.bounds);
                lemma_land(it, store, iter::MoveView::Last, 0);
            },
            Some(end) => lemma_restart_below(it, store, end),
        }
    } else {
        walk::lemma_walk(store.entries, it.bounds);
        match it.bounds.start {
            None => lemma_land(it, store, iter::MoveView::First, 0),
            Some(start) => lemma_land(it, store, iter::MoveView::Seek(start), 0),
        }
    }
}

/// Advancing from entry `n`.
pub(crate) proof fn lemma_step(it: iter::IterView, store: Store, n: int)
    requires
        sound(it, store),
        stands(it, store, n),
    ensures
        ({
            let (there, answer) = iter::step(it);
            let result = run(there, store, answer);
            &&& arrives(it, store, result, following(yielded(it, store), n))
            &&& only_moved(it, result.0)
        }),
{
    let all = yielded(it, store);
    let (there, answer) = iter::step(it);
    lemma_frame(there, store, answer);
    match it.source {
        iter::SourceView::Snapshot => {
            walk::lemma_walk(store.entries, it.bounds);
            if n < all.len() {
                if it.bounds.reverse {
                    lemma_land(it, store, iter::MoveView::Prev, n + 1);
                } else {
                    lemma_land(it, store, iter::MoveView::Next, n + 1);
                }
            }
        },
        iter::SourceView::Txn(iter::StreamView::Behind(rest)) => {
            // The kept entry that the iterator is on is in the walk, which
            // goes on behind it.
            let raw = walk::walk(store.view, it.bounds);
            let key = all[n].key;
            assert(raw[n].key == key);
            let whole = iter::whole_range(it.bounds);
            walk::lemma_whole_scan(store.view, it.bounds);
            walk::lemma_walk_in_order(store.view, it.bounds);
            assert(it.bounds.contains(raw[n].key));
            assert(whole.contains(key));
            walk::lemma_cut_walk(store.view, it.bounds, whole, key);
            walk::lemma_place(store.view, it.bounds, n);
            lemma_open(there, store, rest);
        },
        iter::SourceView::Txn(_) => {
            lemma_pull(it, store, following(all, n));
        },
    }
}

// ---------------------------------------------------------------------
// Laws.
// ---------------------------------------------------------------------

/// A `next` on an iterator that stands on an entry moves on to the one that
/// follows in the walk and says whether there is one; at the end it stays
/// at the end. What a batch retained stays as it is.
pub proof fn law_next_moves_on(it: iter::IterView, store: Store, n: int)
    requires
        sound(it, store),
        stands(it, store, n),
    ensures
        ({
            let result = run_next(it, store);
            &&& arrives(it, store, result, following(yielded(it, store), n))
            &&& only_moved(iter::IterView { include_current: false, ..it }, result.0)
        }),
{
    let plain = iter::IterView { include_current: false, ..it };
    assert(stands(plain, store, n));
    lemma_step(plain, store, n);
}

/// The first `next` of an iterator that was made or reset positions it on
/// the first entry of the walk rather than past it.
pub proof fn law_first_next_positions(it: iter::IterView, store: Store)
    requires
        sound(it, store),
        it.reset,
    ensures
        arrives(it, store, run_next(it, store), 0),
        only_moved(
            iter::IterView { reset: false, include_current: false, ..it },
            run_next(it, store).0,
        ),
{
    lemma_restart(iter::IterView { reset: false, include_current: false, ..it }, store);
}

/// From its construction or a reset on, an iterator yields exactly the
/// entries of its walk, each once, and from then on says that there are no
/// more.
pub proof fn law_nexts_walk_the_range(it: iter::IterView, store: Store, n: nat)
    requires
        sound(it, store),
        store.bad is None,
        it.reset,
    ensures
        ({
            let all = yielded(it, store);
            let result = run_nexts(it, store, n);
            &&& result.2 == Ok::<bool, failure::FailureView>(n < all.len())
            &&& result.0.in_range() <==> n < all.len()
            &&& n < all.len() ==> result.0.current == Some(all[n as int])
            &&& arrives(
                it,
                store,
                result,
                if n < all.len() {
                    n as int
                } else {
                    all.len() as int
                },
            )
        }),
    decreases n,
{
    if n == 0 {
        law_first_next_positions(it, store);
    } else {
        law_nexts_walk_the_range(it, store, (n - 1) as nat);
        let all = yielded(it, store);
        let (there, moved, _) = run_nexts(it, store, (n - 1) as nat);
        law_next_moves_on(
            there,
            moved,
            if n - 1 < all.len() {
                n - 1
            } else {
                all.len() as int
            },
        );
    }
}

/// What a new iterator yields are the entries of its range, in its
/// direction, as they are when it is created.
pub proof fn law_new_iterator_yields_its_range(
    source: iter::SourceView,
    range: bounds::BoundsView,
    store: Store,
)
    ensures
        ({
            let (it, opened) = created(source, range, store);
            &&& yielded(it, opened) == as_kept(walk::walk(store.entries, range), range.keys_only)
            &&& walk::sorted(store.entries) && store.bad is None && store.kept.len()
                == store.log.keys.len() ==> sound(it, opened)
        }),
{
    let (it, opened) = created(source, range, store);
    let marks = opened.log.marks;
    assert(marks[marks.len() - 1] == opened.mark);
}

/// A newly created iterator yields the entries of its range in its
/// direction, whether it reads a snapshot or a transaction. Under
/// `keys_only` it yields them without their values.
pub proof fn law_created_iterator_walks_the_range(
    source: iter::SourceView,
    range: bounds::BoundsView,
    store: Store,
    n: nat,
)
    requires
        walk::sorted(store.entries),
        store.bad is None,
        store.kept.len() == store.log.keys.len(),
    ensures
        ({
            let all = walk::walk(store.entries, range);
            let (it, opened) = created(source, range, store);
            let (after, _, outcome) = run_nexts(it, opened, n);
            &&& outcome == Ok::<bool, failure::FailureView>(n < all.len())
            &&& n < all.len() ==> after.current == Some(it.kept(all[n as int]))
        }),
{
    let (it, opened) = created(source, range, store);
    law_new_iterator_yields_its_range(source, range, store);
    law_nexts_walk_the_range(it, opened, n);
}

/// After a reset an iterator walks its range once more from the beginning,
/// wherever it stood.
pub proof fn law_reset_walks_again(it: iter::IterView, store: Store, n: nat)
    requires
        sound(it, store),
        store.bad is None,
    ensures
        ({
            let all = yielded(it, store);
            let (after, _, outcome) = run_nexts(iter::reset(it), store, n);
            &&& outcome == Ok::<bool, failure::FailureView>(n < all.len())
            &&& n < all.len() ==> after.current == Some(all[n as int])
        }),
{
    assert(yielded(iter::reset(it), store) == yielded(it, store));
    law_nexts_walk_the_range(iter::reset(it), store, n);
}

/// An iterator that stands on an entry, because it was advanced or sought
/// to it, goes on with the entries that follow in the walk.
pub proof fn law_nexts_go_on(it: iter::IterView, store: Store, from: int, n: nat)
    requires
        sound(it, store),
        store.bad is None,
        stands(it, store, from),
    ensures
        ({
            let all = yielded(it, store);
            let at = from + 1 + n;
            let result = run_nexts(it, store, n);
            &&& result.2 == Ok::<bool, failure::FailureView>(at < all.len())
            &&& at < all.len() ==> result.0.current == Some(all[at])
            &&& arrives(
                it,
                store,
                result,
                if at < all.len() {
                    at
                } else {
                    all.len() as int
                },
            )
        }),
    decreases n,
{
    let all = yielded(it, store);
    if n == 0 {
        law_next_moves_on(it, store, from);
    } else {
        law_nexts_go_on(it, store, from, (n - 1) as nat);
        let (there, moved, _) = run_nexts(it, store, (n - 1) as nat);
        law_next_moves_on(
            there,
            moved,
            if from + n < all.len() {
                from + n
            } else {
                all.len() as int
            },
        );
    }
}

/// Wherever a cursor lands, an iterator over a snapshot is on an entry only
/// inside its range, and under `keys_only` it keeps no value.
pub proof fn law_only_the_range_is_yielded(
    it: iter::IterView,
    settle: Settle,
    landing: iter::LandingView,
)
    requires
        it.source is Snapshot,
    ensures
        ({
            let (after, answer) = iter::landed(it, settle, landing);
            &&& answer == iter::StepView::Done(Ok(true)) ==> after.in_range()
                && after.bounds.contains(after.current->Some_0.key)
            &&& after.in_range() ==> after.bounds.contains(after.current->Some_0.key)
            &&& after.current is Some && it.bounds.keys_only ==> after.current->Some_0.value is None
        }),
{
}

/// A seek lands on the first entry of the walk at or past its target, in
/// the direction of the walk: clamped to the range, and in reverse on the
/// greatest key at or below the target. The walk goes on from there.
pub proof fn law_seek_lands_on_the_target(it: iter::IterView, store: Store, target: Seq<u8>)
    requires
        sound(it, store),
    ensures
        ({
            let n = walk::seek_index(source_entries(it, store), it.bounds, target) as int;
            let result = run_seek(it, store, target);
            &&& arrives(it, store, result, n)
            &&& result.0.include_current
            &&& !result.0.reset
            &&& result.0.pending is None
            &&& result.0.batch_values.len() == 0
            &&& result.0.batch_count == 0
        }),
{
    let ready = iter::IterView {
        reset: false,
        pending: None,
        include_current: true,
        ..it.without_batch()
    };
    let range = it.bounds;
    let (there, answer) = iter::seek(it, target);
    lemma_frame(there, store, answer);
    if it.source is Txn {
        walk::lemma_seek_scan(store.view, range, target);
        lemma_open(there, store, iter::seek_scan(range, target));
    } else {
        let narrowed = walk::narrowed_to(range, target);
        let n = walk::seek_index(store.entries, range, target) as int;
        walk::lemma_walk(store.entries, range);
        walk::lemma_seek_index(store.entries, range, target);
        if range.reverse {
            if bounds::below(range.end, target) {
                walk::lemma_at_most_count(store.entries, target);
                lemma_land(ready, store, iter::MoveView::SeekForPrev(target), n);
            } else {
                lemma_restart(ready, store);
            }
        } else {
            let clamped = narrowed.start->Some_0;
            lemma_land(ready, store, iter::MoveView::Seek(clamped), n);
        }
    }
}

/// A write that a transaction makes while an iterator over it is open
/// changes nothing for that iterator: not what it yields, and not where it
/// stands.
pub proof fn law_a_write_stays_hidden(
    it: iter::IterView,
    store: Store,
    key: Seq<u8>,
    later: Seq<iter::EntryView>,
)
    requires
        it.source is Txn,
        sound(it, store),
        rewritten(store.entries, key, later),
    ensures
        ({
            let after = write(store, key, later);
            &&& sound(it, after)
            &&& yielded(it, after) == yielded(it, store)
            &&& forall|n: int| #[trigger] stands(it, store, n) ==> stands(it, after, n)
        }),
{
    let after = write(store, key, later);
    let (log, mark) = (store.log, store.mark);
    let m = choose|m: int| 0 <= m < log.marks.len() && log.marks[m] == mark;
    written::law_a_write_is_noted_for_every_iterator(log, key, m);
    assert forall|i: int| 0 <= i < log.keys.len() implies after.log.keys[i] == log.keys[i] by {
        assert(log.keys =~= after.log.keys.take(log.keys.len() as int));
    }
    assert forall|entry: iter::EntryView|
        !written::noted_since(after.log, mark, entry.key) implies (
    #[trigger] after.entries.contains(entry) <==> after.view.contains(entry)) by {
        assert(entry.key != key);
        assert(!written::noted_since(log, mark, entry.key)) by {
            if written::noted_since(log, mark, entry.key) {
                let i = choose|i: int|
                    mark <= i < log.keys.len() && #[trigger] log.keys[i] == entry.key;
                assert(after.log.keys[i] == entry.key);
            }
        }
        assert(store.entries.contains(entry) <==> store.view.contains(entry));
    }
    assert forall|i: int| #[trigger] first_since(after.log.keys, mark, i) implies after.kept[i]
        == walk::entry_at(after.view, after.log.keys[i]) by {
        if i < log.keys.len() {
            assert(first_since(log.keys, mark, i));
        } else {
            // The key was not written since the iterator was created, so
            // what is kept is what stood there then.
            assert(after.log.keys[i] == key);
            assert(!written::noted_since(log, mark, key)) by {
                if written::noted_since(log, mark, key) {
                    let j = choose|j: int|
                        mark <= j < log.keys.len() && #[trigger] log.keys[j] == key;
                    assert(after.log.keys[j] == key);
                }
            }
            walk::lemma_entry_at(store.entries, key);
            walk::lemma_entry_at(store.view, key);
            if let Some(entry) = walk::entry_at(store.entries, key) {
                assert(store.view.contains(entry));
            }
            if let Some(entry) = walk::entry_at(store.view, key) {
                assert(store.entries.contains(entry));
            }
        }
    }
    assert forall|n: int| #[trigger] stands(it, store, n) implies stands(it, after, n) by {
        if let Some(cut) = it.cut() {
            if cut_fits(it, store, cut) {
                assert(cut_fits(it, after, cut));
            }
        }
    }
}

/// As [`law_a_write_stays_hidden`], for any number of writes.
pub proof fn law_writes_stay_hidden(
    it: iter::IterView,
    store: Store,
    writes: Seq<(Seq<u8>, Seq<iter::EntryView>)>,
)
    requires
        it.source is Txn,
        sound(it, store),
        are_writes(store, writes),
    ensures
        ({
            let after = write_all(store, writes);
            &&& sound(it, after)
            &&& after.bad == store.bad
            &&& after.view == store.view
            &&& yielded(it, after) == yielded(it, store)
            &&& forall|n: int| #[trigger] stands(it, store, n) ==> stands(it, after, n)
        }),
    decreases writes.len(),
{
    if writes.len() > 0 {
        let before = write_all(store, writes.drop_last());
        law_writes_stay_hidden(it, store, writes.drop_last());
        law_a_write_stays_hidden(it, before, writes.last().0, writes.last().1);
        assert forall|n: int| #[trigger] stands(it, store, n) implies stands(
            it,
            write_all(store, writes),
            n,
        ) by {
            assert(stands(it, before, n));
        }
    }
}

/// The writes that are buffered when an iterator over a transaction is
/// created are the ones it shows: those made afterwards are not visible to
/// it. Whatever the transaction writes right after the creation, after that
/// or `n` steps later, the `next`s of the iterator yield the entries of its
/// range as they were, and so they do after a reset; and a seek lands where
/// it would have landed.
pub proof fn law_later_writes_stay_hidden(
    range: bounds::BoundsView,
    store: Store,
    early: Seq<(Seq<u8>, Seq<iter::EntryView>)>,
    late: Seq<(Seq<u8>, Seq<iter::EntryView>)>,
    target: Seq<u8>,
    n: nat,
    m: nat,
)
    requires
        walk::sorted(store.entries),
        store.bad is None,
        store.kept.len() == store.log.keys.len(),
        ({
            let txn = iter::SourceView::Txn(iter::StreamView::Closed);
            let (it, opened) = created(txn, range, store);
            let stepped = run_nexts(it, write_all(opened, early), n);
            are_writes(opened, early) && are_writes(stepped.1, late)
        }),
    ensures
        ({
            let all = walk::walk(store.entries, range);
            let txn = iter::SourceView::Txn(iter::StreamView::Closed);
            let (it, opened) = created(txn, range, store);
            let (stepped, moved, outcome) = run_nexts(it, write_all(opened, early), n);
            let changed = write_all(moved, late);
            let (next, _, went_on) = run_nexts(stepped, changed, m);
            let (again, _, began) = run_nexts(iter::reset(stepped), changed, m);
            let (sought, on, found) = run_seek(stepped, changed, target);
            let (behind, _, followed) = run_nexts(sought, on, m);
            let place = walk::seek_index(store.entries, range, target);
            &&& outcome == Ok::<bool, failure::FailureView>(n < all.len())
            &&& n < all.len() ==> stepped.current == Some(it.kept(all[n as int]))
            &&& went_on == Ok::<bool, failure::FailureView>(n + 1 + m < all.len())
            &&& n + 1 + m < all.len() ==> next.current == Some(it.kept(all[(n + 1 + m) as int]))
            &&& began == Ok::<bool, failure::FailureView>(m < all.len())
            &&& m < all.len() ==> again.current == Some(it.kept(all[m as int]))
            &&& found == Ok::<bool, failure::FailureView>(place < all.len())
            &&& place < all.len() ==> sought.current == Some(it.kept(all[place as int]))
            &&& followed == Ok::<bool, failure::FailureView>(place + 1 + m < all.len())
            &&& place + 1 + m < all.len() ==> behind.current == Some(
                it.kept(all[(place + 1 + m) as int]),
            )
        }),
{
    let all = walk::walk(store.entries, range);
    let txn = iter::SourceView::Txn(iter::StreamView::Closed);
    let (it, opened) = created(txn, range, store);
    law_new_iterator_yields_its_range(txn, range, store);
    let kept = yielded(it, opened);
    assert(forall|i: int| 0 <= i < all.len() ==> kept[i] == it.kept(all[i]));
    law_writes_stay_hidden(it, opened, early);
    let wrote = write_all(opened, early);
    law_nexts_walk_the_range(it, wrote, n);
    let (stepped, moved, _) = run_nexts(it, wrote, n);
    let stood = if n < all.len() {
        n as int
    } else {
        all.len() as int
    };
    assert(yielded(stepped, moved) == kept);
    law_writes_stay_hidden(stepped, moved, late);
    let changed = write_all(moved, late);
    assert(stands(stepped, moved, stood));
    law_nexts_go_on(stepped, changed, stood, m);
    law_reset_walks_again(stepped, changed, m);
    law_seek_lands_on_the_target(stepped, changed, target);
    let (sought, on, _) = run_seek(stepped, changed, target);
    let place = walk::seek_index(store.entries, range, target);
    walk::lemma_leading(all, walk::short_of(range, target));
    assert(yielded(sought, on) == kept);
    law_nexts_go_on(sought, on, place as int, m);
}

/// Other iterators over the transaction may be opened and closed, those too
/// that were opened when this one was.
pub proof fn law_other_iterators_do_not_matter(it: iter::IterView, store: Store, other: nat)
    requires
        it.source is Txn,
        sound(it, store),
        other != store.mark || store.log.marks.to_multiset().count(other) > 1,
    ensures
        written::without_iterator(store.log, other).marks.contains(store.mark),
        sound(it, Store { log: written::with_iterator(store.log), ..store }),
        sound(it, Store { log: written::without_iterator(store.log, other), ..store }),
{
    broadcast use vstd::seq_lib::group_to_multiset_ensures;

    written::law_each_iterator_has_its_own_mark(store.log, other);
    let left = written::without_iterator(store.log, other).marks;
    assert(store.log.marks.to_multiset().count(store.mark) > 0);
    assert(left.to_multiset().count(store.mark) > 0);
    assert(left.contains(store.mark));
    let opened = Store { log: written::with_iterator(store.log), ..store };
    let m = choose|m: int| 0 <= m < store.log.marks.len() && store.log.marks[m] == store.mark;
    assert(opened.log.marks[m] == store.mark);
    assert forall|key: Seq<u8>| #[trigger]
        written::noted_since(opened.log, store.mark, key) <==> written::noted_since(
            store.log,
            store.mark,
            key,
        ) by {
        assert(opened.log.keys == store.log.keys);
    }
    let shut = Store { log: written::without_iterator(store.log, other), ..store };
    assert(shut.log.keys == store.log.keys);
    assert forall|key: Seq<u8>| #[trigger]
        written::noted_since(shut.log, store.mark, key) <==> written::noted_since(
            store.log,
            store.mark,
            key,
        ) by {
        assert(shut.log.keys == store.log.keys);
    }
}

/// As long as a transaction does not write, an iterator over it opens its
/// streams as it would if nothing were ever noted: over what it is to walk,
/// all of it.
pub proof fn law_without_writes_streams_are_whole(
    range: bounds::BoundsView,
    store: Store,
    scan: iter::ScanView,
)
    ensures
        ({
            let txn = iter::SourceView::Txn(iter::StreamView::Closed);
            let (_, opened) = created(txn, range, store);
            let (streaming, cut) = open_stream(opened, scan);
            cut is None && streaming.stream == walk::walk(store.entries, scan.range())
        }),
{
    let log = written::with_iterator(store.log);
    written::law_nothing_noted_cuts_nothing(log, Seq::empty(), scan);
}

/// When the transaction turns out to be resolved, the operation that opens
/// a stream reports so. From then on the iterator is on no entry and has
/// none to go on to, until it is sought or reset, which opens one again.
pub proof fn law_resolved_transaction_ends_the_walk(
    it: iter::IterView,
    scan: iter::ScanView,
    target: Seq<u8>,
    failure: failure::FailureView,
)
    requires
        it.source is Txn,
        !it.reset,
    ensures
        ({
            let (asking, ask) = iter::rebuild(it, scan);
            let (after, answer) = iter::rebuilt(asking, Err(failure));
            &&& ask == iter::StepView::Open(scan)
            &&& answer == iter::StepView::Done(Err(failure))
            &&& !after.in_range()
            &&& iter::next(after).1 == iter::StepView::Done(Ok(false))
            &&& iter::seek(after, target).1 == iter::StepView::Open(
                iter::seek_scan(it.bounds, target),
            )
            &&& iter::next(iter::reset(after)).1 == iter::StepView::Open(
                iter::whole_range(it.bounds),
            )
        }),
{
}

/// An iterator over a prefix yields exactly the entries whose keys begin
/// with it, and one over a range exactly those inside: each entry that
/// there is when it is created, or none of it.
pub proof fn law_iterator_yields_what_was_asked_for(
    opts: &bounds::RegolithIterOptions,
    source: iter::SourceView,
    store: Store,
    entry: iter::EntryView,
)
    requires
        opts.lengths_match(),
        walk::sorted(store.entries),
    ensures
        ({
            let range = bounds::bounds_of(Some(opts));
            let (it, opened) = created(source, range, store);
            let listed = walk::walk(store.entries, range);
            &&& yielded(it, opened) == as_kept(listed, opts.keys_only != 0)
            &&& listed.contains(entry) <==> store.entries.contains(entry) && if opts.prefix is Some
                && opts.prefix_len > 0 {
                opts.prefix->Some_0@.is_prefix_of(entry.key)
            } else {
                &&& opts.start is Some && opts.start_len > 0 ==> !order::before(
                    entry.key,
                    opts.start->Some_0@,
                )
                &&& opts.end is Some && opts.end_len > 0 ==> order::before(
                    entry.key,
                    opts.end->Some_0@,
                )
            }
            &&& forall|i: int, j: int|
                0 <= i < j < listed.len() ==> if opts.reverse != 0 {
                    order::before(#[trigger] listed[j].key, #[trigger] listed[i].key)
                } else {
                    order::before(listed[i].key, listed[j].key)
                }
        }),
{
    let range = bounds::bounds_of(Some(opts));
    bounds::law_range_is_what_was_asked_for(opts, entry.key);
    bounds::law_manner_is_what_was_asked_for(opts);
    law_new_iterator_yields_its_range(source, range, store);
    walk::lemma_walk_holds(store.entries, range, entry);
    walk::lemma_walk_in_order(store.entries, range);
}

/// A move that failed or found nothing leaves the iterator on no entry, and
/// a failure is reported as it is. Nothing else of the iterator changes.
pub proof fn law_a_failed_move_leaves_no_entry(
    it: iter::IterView,
    settle: Settle,
    error: failure::FailureView,
)
    ensures
        ({
            let (after, answer) = iter::landed(it, settle, iter::LandingView::Failed(error));
            &&& answer == iter::StepView::Done(Err(error))
            &&& after.current is None
            &&& !after.in_range()
            &&& after == (iter::IterView { current: None, ..it })
        }),
        ({
            let (after, answer) = iter::landed(it, settle, iter::LandingView::Off);
            &&& after.current is None
            &&& !after.in_range()
            &&& it.cut() is None ==> answer == iter::StepView::Done(Ok(false)) && after == (
            iter::IterView { current: None, ..it })
        }),
{
}

/// An iterator over a snapshot that has left its range stays where it is,
/// until it is sought or reset.
pub proof fn law_an_exhausted_iterator_stays_exhausted(it: iter::IterView)
    requires
        it.source is Snapshot,
        !it.reset,
        !it.in_range(),
    ensures
        iter::next(it).1 == iter::StepView::Done(Ok(false)),
        !iter::next(it).0.in_range(),
        iter::next(it).0 == (iter::IterView { include_current: false, ..it }),
{
}

/// A stream that could not be opened is reported as it is and changes nothing
/// else. Without a stream an iterator over a transaction is on no entry and
/// finds none, until it is sought or reset.
pub proof fn law_without_a_stream_nothing_is_found(it: iter::IterView, error: failure::FailureView)
    ensures
        iter::rebuilt(it, Err(error)).0 == it,
        iter::rebuilt(it, Err(error)).1 == iter::StepView::Done(Err(error)),
        !it.reset && it.source == iter::SourceView::Txn(iter::StreamView::Closed) ==> {
            let (after, answer) = iter::next(it);
            &&& answer == iter::StepView::Done(Ok(false))
            &&& !after.in_range()
            &&& after == (iter::IterView { include_current: false, current: None, ..it })
        },
{
}

/// A reset moves nothing by itself: the entry that the iterator is on can
/// still be read.
pub proof fn law_a_reset_moves_nothing(it: iter::IterView)
    ensures
        iter::reset(it).reset,
        !iter::reset(it).include_current,
        iter::reset(it).current == it.current,
        iter::reset(it).in_range() == it.in_range(),
        iter::reset(it).source == it.source,
        iter::reset(it).bounds == it.bounds,
{
}

/// An iterator is on an entry that it read from a transaction, and on one
/// that it read from a snapshot if that lies in its range. It keeps the
/// entry's key whole, and its value unless only keys are wanted.
pub proof fn law_what_an_iterator_is_on(it: iter::IterView, entry: iter::EntryView)
    ensures
        it.in_range() <==> it.current is Some && (it.source is Txn || it.bounds.contains(
            it.current->Some_0.key,
        )),
        it.kept(entry).key == entry.key,
        it.bounds.keys_only ==> it.kept(entry).value is None,
        !it.bounds.keys_only ==> it.kept(entry).value == entry.value,
{
}

} // verus!
