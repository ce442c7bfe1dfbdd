//! What batched iteration comes to, over a store as in
//! [`crate::iter_laws`].

use vstd::bytes::*;
use vstd::prelude::*;

use crate::failure;
use crate::iter;
use crate::iter::{Settle, MAX_BATCH_VALUE_BYTES};
use crate::iter_laws;
use crate::order;
use crate::walk;
use crate::written;

verus! {

// ---------------------------------------------------------------------
// Gathering a batch.
// ---------------------------------------------------------------------

/// The entries that a batch has room for.
pub open spec fn room_in(batch: iter::BatchView) -> nat {
    if batch.count < batch.max_entries {
        (batch.max_entries - batch.count) as nat
    } else {
        0
    }
}

/// The entries that there is room for while a batch is gathered.
pub open spec fn room(answer: iter::BatchStepView) -> nat {
    match answer {
        iter::BatchStepView::Done(_) => 0,
        iter::BatchStepView::Go(_, _, batch) => room_in(batch),
        iter::BatchStepView::Open(_, batch) => room_in(batch),
    }
}

/// What the iterator itself asks for while a batch is gathered.
pub open spec fn asked(answer: iter::BatchStepView) -> iter::StepView {
    match answer {
        iter::BatchStepView::Done(_) => iter::StepView::Done(Ok(false)),
        iter::BatchStepView::Go(ask, settle, _) => iter::StepView::Go(ask, settle),
        iter::BatchStepView::Open(scan, _) => iter::StepView::Open(scan),
    }
}

/// Going on with a batch leaves less to do.
proof fn lemma_progress(it: iter::IterView, batch: iter::BatchView, answer: iter::StepView)
    ensures
        ({
            let (after, then) = iter::resume(it, batch, answer);
            ||| then is Done
            ||| room(then) < room_in(batch)
            ||| room(then) == room_in(batch) && after == it && asked(then) == answer
        }),
    decreases room_in(batch),
{
    if let iter::StepView::Done(Ok(valid)) = answer {
        if valid && it.in_range() {
            let entry = it.current->Some_0;
            let more = iter::gathered(batch, entry);
            if entry.key.len() <= u32::MAX && !iter::is_full(more) {
                let (moved, next_answer) = iter::advance_in_batch(iter::retaining(it, entry));
                lemma_progress(moved, more, next_answer);
            }
        }
    }
}

/// Do what is asked for until the batch is gathered.
pub open spec fn run_batch(
    it: iter::IterView,
    store: iter_laws::Store,
    answer: iter::BatchStepView,
) -> (iter::IterView, iter_laws::Store, Result<iter::KeyBatchView, failure::FailureView>)
    decreases
            room(answer),
            iter_laws::notes_ahead(it, store, asked(answer)),
            iter_laws::distance(it, asked(answer)),
    via run_batch_ends
{
    match answer {
        iter::BatchStepView::Done(outcome) => (it, store, outcome),
        iter::BatchStepView::Go(ask, settle, batch) => {
            let (moved, landing) = iter_laws::perform(store, ask);
            let (there, then) = iter::landed(it, settle, landing);
            let (next, next_answer) = iter::resume(there, batch, then);
            run_batch(next, moved, next_answer)
        },
        iter::BatchStepView::Open(scan, batch) => {
            let (opened, cut) = iter_laws::open_stream(store, scan);
            let (there, then) = iter::rebuilt(it, Ok(cut));
            let (next, next_answer) = iter::resume(there, batch, then);
            run_batch(next, opened, next_answer)
        },
    }
}

#[via_fn]
proof fn run_batch_ends(
    it: iter::IterView,
    store: iter_laws::Store,
    answer: iter::BatchStepView,
) {
    match answer {
        iter::BatchStepView::Done(_) => {},
        iter::BatchStepView::Go(ask, settle, batch) => {
            let (moved, landing) = iter_laws::perform(store, ask);
            let (there, then) = iter::landed(it, settle, landing);
            lemma_progress(there, batch, then);
        },
        iter::BatchStepView::Open(scan, batch) => {
            written::lemma_cut_leaves_fewer(store.log.keys, store.mark, scan);
            let (opened, cut) = iter_laws::open_stream(store, scan);
            let (there, then) = iter::rebuilt(it, Ok(cut));
            lemma_progress(there, batch, then);
        },
    }
}

/// One batch of up to `max_entries`.
pub open spec fn run_next_batch(
    it: iter::IterView,
    store: iter_laws::Store,
    max_entries: nat,
) -> (iter::IterView, iter_laws::Store, Result<iter::KeyBatchView, failure::FailureView>) {
    let (there, answer) = iter::next_batch(it, max_entries);
    run_batch(there, store, answer)
}

/// Gathering goes on from where the iterator's own step has come to.
proof fn lemma_step_within_batch(
    it: iter::IterView,
    store: iter_laws::Store,
    batch: iter::BatchView,
    answer: iter::StepView,
)
    ensures
        ({
            let (there, then) = iter::resume(it, batch, answer);
            let (after, moved, outcome) = iter_laws::run(it, store, answer);
            let (later, later_then) = iter::resume(after, batch, iter::StepView::Done(outcome));
            run_batch(there, store, then) == run_batch(later, moved, later_then)
        }),
    decreases iter_laws::notes_ahead(it, store, answer), iter_laws::distance(it, answer),
{
    match answer {
        iter::StepView::Done(_) => {},
        iter::StepView::Go(ask, settle) => {
            let (moved, landing) = iter_laws::perform(store, ask);
            let (there, then) = iter::landed(it, settle, landing);
            lemma_step_within_batch(there, moved, batch, then);
        },
        iter::StepView::Open(scan) => {
            written::lemma_cut_leaves_fewer(store.log.keys, store.mark, scan);
            let (opened, cut) = iter_laws::open_stream(store, scan);
            let (there, then) = iter::rebuilt(it, Ok(cut));
            lemma_step_within_batch(there, opened, batch, then);
        },
    }
}

// ---------------------------------------------------------------------
// What a batch holds.
// ---------------------------------------------------------------------

/// The keys of `entries`, framed one behind the other.
pub open spec fn key_frame(entries: Seq<iter::EntryView>) -> Seq<u8>
    decreases entries.len(),
{
    if entries.len() == 0 {
        Seq::empty()
    } else {
        iter::framed_key(entries[0].key) + key_frame(entries.skip(1))
    }
}

/// The values that are retained for `entries`, in their order.
pub open spec fn retained_values(entries: Seq<iter::EntryView>, keys_only: bool) -> Seq<Seq<u8>> {
    if keys_only {
        Seq::empty()
    } else {
        entries.map_values(|entry: iter::EntryView| entry.value->Some_0)
    }
}

/// How many value bytes are retained for `entries`.
pub open spec fn retained_len(entries: Seq<iter::EntryView>, keys_only: bool) -> nat
    decreases entries.len(),
{
    if keys_only || entries.len() == 0 {
        0
    } else {
        entries[0].value->Some_0.len() + retained_len(entries.skip(1), keys_only)
    }
}

/// Does every entry have a key that a batch can frame, and a value unless
/// only keys are wanted?
pub open spec fn can_be_framed(entries: Seq<iter::EntryView>, keys_only: bool) -> bool {
    forall|i: int|
        0 <= i < entries.len() ==> ((#[trigger] entries[i]).value is None <==> keys_only)
            && entries[i].key.len() <= u32::MAX
}

/// Is entry `n` of the walk the next one that a batch frames? After
/// construction or a reset that is the first, after a seek the one it
/// landed on, otherwise the one behind the current.
pub open spec fn due(it: iter::IterView, store: iter_laws::Store, n: int) -> bool {
    if it.reset {
        n == 0
    } else if it.include_current {
        iter_laws::stands(it, store, n)
    } else {
        ||| iter_laws::stands(it, store, n - 1) && n - 1 < iter_laws::yielded(it, store).len()
        ||| iter_laws::stands(it, store, n) && n == iter_laws::yielded(it, store).len()
    }
}

/// Was entry `n` of the walk not read yet, or can it be read?
pub open spec fn can_be_taken(it: iter::IterView, store: iter_laws::Store, n: int) -> bool {
    let all = iter_laws::yielded(it, store);
    it.reset || !it.include_current || n >= all.len() || !iter_laws::is_bad(store, all[n].key)
}

/// Advancing in a batch lands on the entry that is due.
proof fn lemma_advance(it: iter::IterView, store: iter_laws::Store, n: int)
    requires
        iter_laws::sound(it, store),
        due(it, store, n),
        can_be_taken(it, store, n),
    ensures
        ({
            let (there, answer) = iter::advance_in_batch(it);
            let result = iter_laws::run(there, store, answer);
            &&& iter_laws::arrives(it, store, result, n)
            &&& !result.0.include_current
            &&& result.0.batch_values == it.batch_values
            &&& result.0.batch_count == it.batch_count
            &&& result.0.pending == it.pending
        }),
{
    let all = iter_laws::yielded(it, store);
    if it.reset {
        iter_laws::lemma_restart(
            iter::IterView { reset: false, include_current: false, ..it },
            store,
        );
    } else if !it.include_current {
        if iter_laws::stands(it, store, n - 1) && n - 1 < all.len() {
            iter_laws::lemma_step(it, store, n - 1);
        } else {
            iter_laws::lemma_step(it, store, n);
        }
    }
}

/// What holding one more entry in front of others comes to.
proof fn lemma_one_more(all: Seq<iter::EntryView>, n: int, end: int, keys_only: bool)
    requires
        0 <= n < end <= all.len(),
    ensures
        ({
            let taken = all.subrange(n, end);
            let rest = all.subrange(n + 1, end);
            let value = all[n].value->Some_0;
            &&& key_frame(taken) == iter::framed_key(all[n].key) + key_frame(rest)
            &&& retained_values(taken, keys_only) == if keys_only {
                Seq::empty()
            } else {
                seq![value] + retained_values(rest, keys_only)
            }
            &&& retained_len(taken, keys_only) == if keys_only {
                0
            } else {
                value.len() + retained_len(rest, keys_only)
            }
            &&& n + 1 < end ==> retained_len(taken.drop_last(), keys_only) == if keys_only {
                0
            } else {
                value.len() + retained_len(rest.drop_last(), keys_only)
            }
            &&& n + 1 == end ==> retained_len(taken.drop_last(), keys_only) == 0
        }),
{
    let taken = all.subrange(n, end);
    let rest = all.subrange(n + 1, end);
    assert(taken.skip(1) =~= rest);
    assert(taken[0] == all[n]);
    if !keys_only {
        assert(retained_values(taken, keys_only) =~= seq![all[n].value->Some_0]
            + retained_values(rest, keys_only));
    }
    if n + 1 < end {
        assert(taken.drop_last().skip(1) =~= rest.drop_last());
        assert(taken.drop_last()[0] == all[n]);
    } else {
        assert(taken.drop_last() =~= Seq::<iter::EntryView>::empty());
    }
}

/// Is this what gathering on from entry `n` of the walk comes to?
pub open spec fn gathers(
    it: iter::IterView,
    store: iter_laws::Store,
    batch: iter::BatchView,
    n: int,
    result: (iter::IterView, iter_laws::Store, Result<iter::KeyBatchView, failure::FailureView>),
) -> bool {
    let all = iter_laws::yielded(it, store);
    let keys_only = it.bounds.keys_only;
    let (after, moved, outcome) = result;
    let keys = outcome->Ok_0;
    let end = n + keys.count - batch.count;
    let taken = all.subrange(n, end);
    &&& outcome is Ok
    &&& n <= end <= all.len()
    &&& keys.frame == batch.frame + key_frame(taken)
    &&& keys.count <= batch.max_entries
    &&& after.batch_count == keys.count
    &&& after.batch_values == it.batch_values + retained_values(taken, keys_only)
    &&& due(after, moved, end)
    &&& end < all.len() && keys.count < batch.max_entries ==> batch.retained + retained_len(
        taken,
        keys_only,
    ) >= MAX_BATCH_VALUE_BYTES
    &&& n < end ==> batch.retained + retained_len(taken.drop_last(), keys_only)
        < MAX_BATCH_VALUE_BYTES
    &&& after.pending is None
    &&& after.bounds == it.bounds
    &&& iter_laws::only_read(store, moved)
    &&& after.source is Txn <==> it.source is Txn
}

/// Gathering one entry and going on from the next is gathering from the
/// first.
proof fn lemma_gather_one(
    it: iter::IterView,
    store: iter_laws::Store,
    batch: iter::BatchView,
    n: int,
    held: iter::IterView,
    moved: iter_laws::Store,
    result: (iter::IterView, iter_laws::Store, Result<iter::KeyBatchView, failure::FailureView>),
)
    requires
        0 <= n < iter_laws::yielded(it, store).len(),
        iter_laws::yielded(it, store)[n].value is None <==> it.bounds.keys_only,
        batch.retained < MAX_BATCH_VALUE_BYTES,
        held.bounds == it.bounds,
        held.source is Txn <==> it.source is Txn,
        iter_laws::only_read(store, moved),
        ({
            let entry = iter_laws::yielded(it, store)[n];
            let more = iter::gathered(batch, entry);
            &&& gathers(held, moved, more, n + 1, result)
            &&& held.batch_values == if it.bounds.keys_only {
                it.batch_values
            } else {
                it.batch_values.push(entry.value->Some_0)
            }
        }),
    ensures
        gathers(it, store, batch, n, result),
        result.2->Ok_0.count > batch.count,
{
    let all = iter_laws::yielded(it, store);
    let keys_only = it.bounds.keys_only;
    let end = n + result.2->Ok_0.count - batch.count;
    lemma_one_more(all, n, end, keys_only);
    let more = iter::gathered(batch, all[n]);
    let taken = all.subrange(n, end);
    let rest = all.subrange(n + 1, end);
    assert(batch.frame + key_frame(taken) =~= more.frame + key_frame(rest));
    assert(it.batch_values + retained_values(taken, keys_only) =~= held.batch_values
        + retained_values(rest, keys_only));
}

/// Handing a batch out as it is gathers nothing more.
proof fn lemma_gather_nothing(
    it: iter::IterView,
    store: iter_laws::Store,
    batch: iter::BatchView,
    n: int,
)
    requires
        0 <= n <= iter_laws::yielded(it, store).len(),
        due(it, store, n),
        it.pending is None,
        batch.count <= batch.max_entries,
        n == iter_laws::yielded(it, store).len() || iter::is_full(batch),
    ensures
        ({
            let (after, then) = iter::finish(it, batch);
            gathers(it, store, batch, n, run_batch(after, store, then))
        }),
{
    let all = iter_laws::yielded(it, store);
    let (after, then) = iter::finish(it, batch);
    assert(due(after, store, n)) by {
        if !it.reset {
            assert(forall|k: int|
                iter_laws::stands(it, store, k) ==> iter_laws::stands(after, store, k));
        }
    }
    let taken = all.subrange(n, n);
    assert(taken =~= Seq::<iter::EntryView>::empty());
    assert(batch.frame + key_frame(taken) =~= batch.frame);
    assert(retained_values(taken, it.bounds.keys_only) =~= Seq::<Seq<u8>>::empty());
    assert(it.batch_values + Seq::<Seq<u8>>::empty() =~= it.batch_values);
}

/// What gathering on from entry `n` comes to.
proof fn lemma_gather(
    it: iter::IterView,
    store: iter_laws::Store,
    batch: iter::BatchView,
    n: int,
)
    requires
        iter_laws::sound(it, store),
        store.bad is None,
        can_be_framed(iter_laws::yielded(it, store), it.bounds.keys_only),
        due(it, store, n),
        it.pending is None,
        batch.count < batch.max_entries,
        batch.retained < MAX_BATCH_VALUE_BYTES,
    ensures
        ({
            let (there, answer) = iter::advance_in_batch(it);
            let (next, then) = iter::resume(there, batch, answer);
            let result = run_batch(next, store, then);
            &&& gathers(it, store, batch, n, result)
            &&& n < iter_laws::yielded(it, store).len() ==> result.2->Ok_0.count > batch.count
        }),
    decreases batch.max_entries - batch.count,
{
    let all = iter_laws::yielded(it, store);
    let (there, answer) = iter::advance_in_batch(it);
    lemma_advance(it, store, n);
    lemma_step_within_batch(there, store, batch, answer);
    let (on, moved, outcome) = iter_laws::run(there, store, answer);
    if n < all.len() {
        let entry = on.current->Some_0;
        assert(entry == all[n] && all[n].key.len() <= u32::MAX);
        let more = iter::gathered(batch, entry);
        let held = iter::retaining(on, entry);
        assert(iter_laws::stands(held, moved, n));
        assert(due(held, moved, n + 1));
        if iter::is_full(more) {
            lemma_gather_nothing(held, moved, more, n + 1);
            let (after, then) = iter::finish(held, more);
            lemma_gather_one(it, store, batch, n, held, moved, run_batch(after, moved, then));
        } else {
            lemma_gather(held, moved, more, n + 1);
            let (next, next_answer) = iter::advance_in_batch(held);
            let (next_there, then) = iter::resume(next, more, next_answer);
            lemma_gather_one(
                it,
                store,
                batch,
                n,
                held,
                moved,
                run_batch(next_there, moved, then),
            );
        }
    } else {
        assert(due(on, moved, n));
        lemma_gather_nothing(on, moved, batch, n);
    }
}

/// Each key of the walk is there once.
proof fn lemma_bad_once(it: iter::IterView, store: iter_laws::Store, i: int, j: int)
    requires
        iter_laws::sound(it, store),
        0 <= i < iter_laws::yielded(it, store).len(),
        0 <= j < iter_laws::yielded(it, store).len(),
        iter_laws::is_bad(store, iter_laws::yielded(it, store)[j].key),
    ensures
        iter_laws::is_bad(store, iter_laws::yielded(it, store)[i].key) <==> i == j,
{
    let entries = iter_laws::source_entries(it, store);
    let all = walk::walk(entries, it.bounds);
    walk::lemma_walk_in_order(entries, it.bounds);
    order::lemma_irreflexive(all[j].key);
    assert(iter_laws::yielded(it, store)[i].key == all[i].key);
    assert(iter_laws::yielded(it, store)[j].key == all[j].key);
    if i < j {
        assert(written::sooner(it.bounds.direction(), all[i].key, all[j].key));
    }
    if j < i {
        assert(written::sooner(it.bounds.direction(), all[j].key, all[i].key));
    }
}

/// Is this what gathering on from entry `n` of the walk comes to, when the
/// `j`th entry from there on cannot be read?
pub open spec fn breaks_off(
    it: iter::IterView,
    store: iter_laws::Store,
    batch: iter::BatchView,
    n: int,
    j: int,
    result: (iter::IterView, iter_laws::Store, Result<iter::KeyBatchView, failure::FailureView>),
) -> bool {
    let taken = iter_laws::yielded(it, store).subrange(n, n + j);
    let error = store.bad->Some_0.1;
    let (after, moved, outcome) = result;
    if batch.count + j == 0 {
        &&& outcome == Err::<iter::KeyBatchView, failure::FailureView>(error)
        &&& after.pending is None
        &&& after.batch_count == it.batch_count
        &&& after.batch_values == it.batch_values
    } else {
        &&& outcome == Ok::<iter::KeyBatchView, failure::FailureView>(
            iter::KeyBatchView {
                frame: batch.frame + key_frame(taken),
                count: (batch.count + j) as nat,
            },
        )
        &&& after.batch_count == batch.count + j
        &&& after.batch_values == it.batch_values + retained_values(taken, it.bounds.keys_only)
        &&& after.pending == Some(error)
    }
}

/// What gathering on from entry `n` comes to, when the `j`th entry from
/// there on cannot be read.
proof fn lemma_gather_until_bad(
    it: iter::IterView,
    store: iter_laws::Store,
    batch: iter::BatchView,
    n: int,
    j: int,
)
    requires
        iter_laws::sound(it, store),
        can_be_framed(iter_laws::yielded(it, store), it.bounds.keys_only),
        due(it, store, n),
        can_be_taken(it, store, n),
        it.pending is None,
        0 <= j,
        0 <= n,
        n + j < iter_laws::yielded(it, store).len(),
        iter_laws::is_bad(store, iter_laws::yielded(it, store)[n + j].key),
        batch.count + j < batch.max_entries,
        batch.retained + retained_len(
            iter_laws::yielded(it, store).subrange(n, n + j),
            it.bounds.keys_only,
        ) < MAX_BATCH_VALUE_BYTES,
    ensures
        ({
            let (there, answer) = iter::advance_in_batch(it);
            let (next, then) = iter::resume(there, batch, answer);
            breaks_off(it, store, batch, n, j, run_batch(next, store, then))
        }),
    decreases j,
{
    let all = iter_laws::yielded(it, store);
    let keys_only = it.bounds.keys_only;
    let (there, answer) = iter::advance_in_batch(it);
    lemma_advance(it, store, n);
    lemma_step_within_batch(there, store, batch, answer);
    lemma_bad_once(it, store, n, n + j);
    let (on, moved, outcome) = iter_laws::run(there, store, answer);
    let taken = all.subrange(n, n + j);
    if j == 0 {
        assert(taken =~= Seq::<iter::EntryView>::empty());
        assert(batch.frame + key_frame(taken) =~= batch.frame);
        assert(retained_values(taken, keys_only) =~= Seq::<Seq<u8>>::empty());
        assert(it.batch_values + Seq::<Seq<u8>>::empty() =~= it.batch_values);
    } else {
        let entry = on.current->Some_0;
        assert(entry == all[n] && all[n].key.len() <= u32::MAX);
        let more = iter::gathered(batch, entry);
        let held = iter::retaining(on, entry);
        assert(iter_laws::stands(held, moved, n));
        assert(due(held, moved, n + 1));
        lemma_one_more(all, n, n + j, keys_only);
        assert(all[n].value is None <==> keys_only);
        assert(!iter::is_full(more));
        lemma_gather_until_bad(held, moved, more, n + 1, j - 1);
        let rest = all.subrange(n + 1, n + j);
        assert(batch.frame + key_frame(taken) =~= more.frame + key_frame(rest));
        assert(it.batch_values + retained_values(taken, keys_only) =~= held.batch_values
            + retained_values(rest, keys_only));
    }
}

// ---------------------------------------------------------------------
// Laws.
// ---------------------------------------------------------------------

/// A batch holds the entries of the walk from the one that is due, in their
/// order: their keys framed, their values retained unless only keys are
/// wanted. The next batch goes on behind them.
///
/// A batch ends with the walk, at `max_entries`, or with the entry that
/// brings the retained value bytes to the cap; never earlier, and never
/// later. It is empty exactly when nothing is left of the walk.
pub proof fn law_batch_takes_what_is_due(
    it: iter::IterView,
    store: iter_laws::Store,
    max_entries: nat,
    n: int,
)
    requires
        iter_laws::sound(it, store),
        store.bad is None,
        can_be_framed(iter_laws::yielded(it, store), it.bounds.keys_only),
        due(it, store, n),
        it.pending is None,
        max_entries > 0,
    ensures
        ({
            let all = iter_laws::yielded(it, store);
            let keys_only = it.bounds.keys_only;
            let (after, moved, outcome) = run_next_batch(it, store, max_entries);
            let keys = outcome->Ok_0;
            let end = n + keys.count;
            let taken = all.subrange(n, end);
            &&& outcome is Ok
            &&& n <= end <= all.len()
            &&& keys.frame == key_frame(taken)
            &&& after.batch_count == keys.count
            &&& after.batch_values == retained_values(taken, keys_only)
            &&& due(after, moved, end)
            &&& keys.count <= max_entries
            &&& end < all.len() && keys.count < max_entries ==> retained_len(taken, keys_only)
                >= MAX_BATCH_VALUE_BYTES
            &&& keys.count > 0 ==> retained_len(taken.drop_last(), keys_only)
                < MAX_BATCH_VALUE_BYTES
            &&& keys.count == 0 <==> n == all.len()
            &&& after.pending is None
            &&& after.bounds == it.bounds
            &&& iter_laws::only_read(store, moved)
            &&& after.source is Txn <==> it.source is Txn
        }),
{
    let all = iter_laws::yielded(it, store);
    let ready = iter::IterView { pending: None, ..it.without_batch() };
    assert(iter_laws::yielded(ready, store) == all);
    assert(due(ready, store, n)) by {
        if !it.reset {
            assert(forall|k: int|
                iter_laws::stands(it, store, k) ==> iter_laws::stands(ready, store, k));
        }
    }
    lemma_gather(ready, store, iter::empty_batch(max_entries), n);
    let (after, moved, outcome) = run_next_batch(it, store, max_entries);
    let taken = all.subrange(n, n + outcome->Ok_0.count);
    assert(Seq::<u8>::empty() + key_frame(taken) =~= key_frame(taken));
    let values = retained_values(taken, it.bounds.keys_only);
    assert(Seq::<Seq<u8>>::empty() + values =~= values);
}

/// What is due next: the first entry after construction or a reset, the
/// entry a seek landed on after a seek, and the following one after a
/// `next`.
pub proof fn law_what_is_due(it: iter::IterView, store: iter_laws::Store, target: Seq<u8>)
    requires
        iter_laws::sound(it, store),
        store.bad is None,
    ensures
        ({
            let (made, opened) = iter_laws::created(it.source, it.bounds, store);
            due(made, opened, 0)
        }),
        due(iter::reset(it), store, 0),
        ({
            let (after, moved, _) = iter_laws::run_seek(it, store, target);
            let entries = iter_laws::source_entries(it, store);
            due(after, moved, walk::seek_index(entries, it.bounds, target) as int)
        }),
        forall|n: int|
            #[trigger] iter_laws::stands(it, store, n) ==> {
                let (after, moved, _) = iter_laws::run_next(it, store);
                let on = iter_laws::following(iter_laws::yielded(it, store), n);
                due(after, moved, iter_laws::following(iter_laws::yielded(it, store), on))
            },
{
    iter_laws::law_seek_lands_on_the_target(it, store, target);
    assert forall|n: int| #[trigger] iter_laws::stands(it, store, n) implies ({
        let (after, moved, _) = iter_laws::run_next(it, store);
        let on = iter_laws::following(iter_laws::yielded(it, store), n);
        due(after, moved, iter_laws::following(iter_laws::yielded(it, store), on))
    }) by {
        iter_laws::law_next_moves_on(it, store, n);
    }
}

/// Whatever the store answers, a batch holds no more than `max_entries` and
/// is handed out with the count that its values are addressed by; and a
/// batch that is still gathered has room for another entry.
pub proof fn law_batch_never_exceeds_its_size(
    it: iter::IterView,
    batch: iter::BatchView,
    answer: iter::StepView,
)
    requires
        batch.count < batch.max_entries,
        it.batch_values.len() <= batch.count,
    ensures
        ({
            let (after, then) = iter::resume(it, batch, answer);
            match then {
                iter::BatchStepView::Done(Ok(keys)) => {
                    &&& keys.count <= batch.max_entries
                    &&& after.batch_count == keys.count
                    &&& after.batch_values.len() <= keys.count
                },
                iter::BatchStepView::Done(Err(_)) => true,
                iter::BatchStepView::Go(_, _, more) => {
                    &&& more.max_entries == batch.max_entries
                    &&& more.count < more.max_entries
                    &&& after.batch_values.len() <= more.count
                },
                iter::BatchStepView::Open(_, more) => {
                    &&& more.max_entries == batch.max_entries
                    &&& more.count < more.max_entries
                    &&& after.batch_values.len() <= more.count
                },
            }
        }),
    decreases batch.max_entries - batch.count,
{
    if let iter::StepView::Done(Ok(valid)) = answer {
        if valid && it.in_range() {
            let entry = it.current->Some_0;
            let more = iter::gathered(batch, entry);
            if entry.key.len() <= u32::MAX && !iter::is_full(more) {
                let (moved, next_answer) = iter::advance_in_batch(iter::retaining(it, entry));
                law_batch_never_exceeds_its_size(moved, more, next_answer);
            }
        }
    }
}

/// A read error in a batch that already holds something is held back: the
/// batch is handed out, the next one reports the error and nothing else,
/// and after that it is forgotten. In a batch that holds nothing the error
/// is reported at once.
pub proof fn law_error_in_a_batch_is_held_back(
    it: iter::IterView,
    batch: iter::BatchView,
    settle: Settle,
    error: failure::FailureView,
    max_entries: nat,
)
    ensures
        ({
            let (there, answer) = iter::landed(it, settle, iter::LandingView::Failed(error));
            let (after, then) = iter::resume(there, batch, answer);
            if batch.count == 0 {
                then == iter::BatchStepView::Done(Err(error)) && after.pending == it.pending
            } else {
                &&& then == iter::BatchStepView::Done(
                    Ok(iter::KeyBatchView { frame: batch.frame, count: batch.count }),
                )
                &&& after.pending == Some(error)
                &&& iter::next_batch(after, max_entries).1 == iter::BatchStepView::Done(Err(error))
                &&& iter::next_batch(after, max_entries).0.pending is None
            }
        }),
{
}

/// A batch whose `j`th read fails before it is full holds exactly the `j`
/// entries read before, and the next batch reports the error and nothing
/// else, once. If the first read fails, the error is reported at once. A
/// seek or a reset in between drops the error.
pub proof fn law_batch_ends_before_a_failed_read(
    it: iter::IterView,
    store: iter_laws::Store,
    max_entries: nat,
    n: int,
    j: int,
    again: nat,
    target: Seq<u8>,
)
    requires
        iter_laws::sound(it, store),
        can_be_framed(iter_laws::yielded(it, store), it.bounds.keys_only),
        due(it, store, n),
        can_be_taken(it, store, n),
        it.pending is None,
        0 <= j < max_entries,
        0 <= n,
        n + j < iter_laws::yielded(it, store).len(),
        iter_laws::is_bad(store, iter_laws::yielded(it, store)[n + j].key),
        retained_len(iter_laws::yielded(it, store).subrange(n, n + j), it.bounds.keys_only)
            < MAX_BATCH_VALUE_BYTES,
    ensures
        ({
            let taken = iter_laws::yielded(it, store).subrange(n, n + j);
            let error = store.bad->Some_0.1;
            let (after, moved, outcome) = run_next_batch(it, store, max_entries);
            let (later, _, reported) = run_next_batch(after, moved, again);
            if j == 0 {
                &&& outcome == Err::<iter::KeyBatchView, failure::FailureView>(error)
                &&& after.pending is None
                &&& after.batch_count == 0
                &&& after.batch_values.len() == 0
            } else {
                &&& outcome == Ok::<iter::KeyBatchView, failure::FailureView>(
                    iter::KeyBatchView { frame: key_frame(taken), count: j as nat },
                )
                &&& after.batch_count == j
                &&& after.batch_values == retained_values(taken, it.bounds.keys_only)
                &&& reported == Err::<iter::KeyBatchView, failure::FailureView>(error)
                &&& later.pending is None
                &&& iter::reset(after).pending is None
                &&& iter::seek(after, target).0.pending is None
            }
        }),
{
    let all = iter_laws::yielded(it, store);
    let ready = iter::IterView { pending: None, ..it.without_batch() };
    assert(iter_laws::yielded(ready, store) == all);
    assert(due(ready, store, n)) by {
        if !it.reset {
            assert(forall|k: int|
                iter_laws::stands(it, store, k) ==> iter_laws::stands(ready, store, k));
        }
    }
    lemma_gather_until_bad(ready, store, iter::empty_batch(max_entries), n, j);
    let taken = all.subrange(n, n + j);
    assert(Seq::<u8>::empty() + key_frame(taken) =~= key_frame(taken));
    let values = retained_values(taken, it.bounds.keys_only);
    assert(Seq::<Seq<u8>>::empty() + values =~= values);
}

/// A seek or a reset drops what a batch retained and an error it held back.
pub proof fn law_seek_and_reset_drop_the_batch(it: iter::IterView, target: Seq<u8>)
    ensures
        iter::reset(it).batch_values.len() == 0,
        iter::reset(it).batch_count == 0,
        iter::reset(it).pending is None,
        iter::seek(it, target).0.batch_values.len() == 0,
        iter::seek(it, target).0.batch_count == 0,
        iter::seek(it, target).0.pending is None,
{
}

/// The keys of a batch's frame, read off one by one.
pub open spec fn unframed(frame: Seq<u8>, count: nat) -> Option<Seq<Seq<u8>>>
    decreases count,
{
    if count == 0 {
        if frame.len() == 0 {
            Some(Seq::empty())
        } else {
            None
        }
    } else {
        let len = spec_u32_from_le_bytes(frame.take(4)) as int;
        let rest = frame.skip(4);
        if frame.len() < 4 || rest.len() < len {
            None
        } else {
            match unframed(rest.skip(len), (count - 1) as nat) {
                None => None,
                Some(keys) => Some(seq![rest.take(len)] + keys),
            }
        }
    }
}

/// A batch's frame gives its keys back.
pub proof fn law_key_frame_round_trips(entries: Seq<iter::EntryView>)
    requires
        forall|i: int| 0 <= i < entries.len() ==> (#[trigger] entries[i]).key.len() <= u32::MAX,
    ensures
        unframed(key_frame(entries), entries.len()) == Some(
            entries.map_values(|entry: iter::EntryView| entry.key),
        ),
    decreases entries.len(),
{
    let keys = entries.map_values(|entry: iter::EntryView| entry.key);
    if entries.len() == 0 {
        assert(keys =~= Seq::<Seq<u8>>::empty());
    } else {
        lemma_auto_spec_u32_to_from_le_bytes();
        let (key, others) = (entries[0].key, entries.skip(1));
        assert forall|i: int| 0 <= i < others.len() implies (#[trigger] others[i]).key.len()
            <= u32::MAX by {
            assert(others[i] == entries[i + 1]);
        }
        law_key_frame_round_trips(others);
        let frame = key_frame(entries);
        assert(key.len() <= u32::MAX);
        let len = key.len() as u32;
        assert(spec_u32_to_le_bytes(len).len() == 4);
        assert(frame.take(4) =~= spec_u32_to_le_bytes(len));
        assert(frame.skip(4) =~= key + key_frame(others));
        assert(frame.skip(4).take(len as int) =~= key);
        assert(frame.skip(4).skip(len as int) =~= key_frame(others));
        assert(keys =~= seq![key] + others.map_values(|entry: iter::EntryView| entry.key));
    }
}

// ---------------------------------------------------------------------
// Draining an iterator.
// ---------------------------------------------------------------------

/// The entries of a batch as they are read from it: the keys off the frame,
/// the values by their index.
pub open spec fn entries_of(it: iter::IterView, keys: iter::KeyBatchView) -> Option<
    Seq<iter::EntryView>,
> {
    match unframed(keys.frame, keys.count) {
        None => None,
        Some(list) => Some(
            Seq::new(
                list.len(),
                |i: int| iter::EntryView { key: list[i], value: iter::batch_value(it, i as nat) },
            ),
        ),
    }
}

/// What batches of up to `max_entries` yield until an empty one, if that
/// comes within `rounds` and nothing fails.
pub open spec fn drained_by_batches(
    it: iter::IterView,
    store: iter_laws::Store,
    max_entries: nat,
    rounds: nat,
) -> Option<Seq<iter::EntryView>>
    decreases rounds,
{
    if rounds == 0 {
        None
    } else {
        let (after, moved, outcome) = run_next_batch(it, store, max_entries);
        match outcome {
            Err(_) => None,
            Ok(keys) => if keys.count == 0 {
                Some(Seq::empty())
            } else {
                let rest = drained_by_batches(after, moved, max_entries, (rounds - 1) as nat);
                match (entries_of(after, keys), rest) {
                    (Some(first), Some(others)) => Some(first + others),
                    _ => None,
                }
            },
        }
    }
}

/// What single steps yield until one finds nothing, if that comes within
/// `rounds` and nothing fails.
pub open spec fn drained_by_steps(
    it: iter::IterView,
    store: iter_laws::Store,
    rounds: nat,
) -> Option<Seq<iter::EntryView>>
    decreases rounds,
{
    if rounds == 0 {
        None
    } else {
        let (after, moved, outcome) = iter_laws::run_next(it, store);
        match outcome {
            Err(_) => None,
            Ok(false) => Some(Seq::empty()),
            Ok(true) => match drained_by_steps(after, moved, (rounds - 1) as nat) {
                None => None,
                Some(others) => Some(seq![after.current->Some_0] + others),
            },
        }
    }
}

/// A batch reads as the entries it was gathered from.
proof fn lemma_entries_of(
    it: iter::IterView,
    keys: iter::KeyBatchView,
    taken: Seq<iter::EntryView>,
    keys_only: bool,
)
    requires
        can_be_framed(taken, keys_only),
        keys.count == taken.len(),
        keys.frame == key_frame(taken),
        it.batch_values == retained_values(taken, keys_only),
    ensures
        entries_of(it, keys) == Some(taken),
{
    law_key_frame_round_trips(taken);
    let list = taken.map_values(|entry: iter::EntryView| entry.key);
    let read = entries_of(it, keys)->Some_0;
    assert forall|i: int| 0 <= i < taken.len() implies #[trigger] read[i] == taken[i] by {
        assert(list[i] == taken[i].key);
        assert(taken[i].value is None <==> keys_only);
    }
    assert(read =~= taken);
}

/// Batches until an empty one, of whatever size, yield exactly the rest of
/// the walk from the entry that is due: every key with its value, in order,
/// each once.
pub proof fn law_batches_drain_what_is_due(
    it: iter::IterView,
    store: iter_laws::Store,
    max_entries: nat,
    n: int,
    rounds: nat,
)
    requires
        iter_laws::sound(it, store),
        store.bad is None,
        can_be_framed(iter_laws::yielded(it, store), it.bounds.keys_only),
        due(it, store, n),
        it.pending is None,
        max_entries > 0,
        rounds > iter_laws::yielded(it, store).len() - n,
    ensures
        drained_by_batches(it, store, max_entries, rounds) == Some(
            iter_laws::yielded(it, store).skip(n),
        ),
    decreases rounds,
{
    let all = iter_laws::yielded(it, store);
    law_batch_takes_what_is_due(it, store, max_entries, n);
    let (after, moved, outcome) = run_next_batch(it, store, max_entries);
    let keys = outcome->Ok_0;
    let end = n + keys.count;
    if keys.count == 0 {
        assert(all.skip(n) =~= Seq::<iter::EntryView>::empty());
    } else {
        let taken = all.subrange(n, end);
        assert(can_be_framed(taken, it.bounds.keys_only)) by {
            assert(forall|i: int| 0 <= i < taken.len() ==> taken[i] == all[n + i]);
        }
        lemma_entries_of(after, keys, taken, it.bounds.keys_only);
        law_batches_drain_what_is_due(after, moved, max_entries, end, (rounds - 1) as nat);
        assert(taken + all.skip(end) =~= all.skip(n));
    }
}

/// Single steps until one finds nothing yield the walk.
proof fn lemma_steps_drain(it: iter::IterView, store: iter_laws::Store, n: int, rounds: nat)
    requires
        iter_laws::sound(it, store),
        store.bad is None,
        it.reset ==> n == 0,
        !it.reset ==> iter_laws::stands(it, store, n - 1) && n - 1 < iter_laws::yielded(
            it,
            store,
        ).len(),
        rounds > iter_laws::yielded(it, store).len() - n,
    ensures
        drained_by_steps(it, store, rounds) == Some(iter_laws::yielded(it, store).skip(n)),
    decreases rounds,
{
    let all = iter_laws::yielded(it, store);
    if it.reset {
        iter_laws::law_first_next_positions(it, store);
    } else {
        iter_laws::law_next_moves_on(it, store, n - 1);
    }
    let (after, moved, outcome) = iter_laws::run_next(it, store);
    if n < all.len() {
        lemma_steps_drain(after, moved, n + 1, (rounds - 1) as nat);
        assert(seq![all[n]] + all.skip(n + 1) =~= all.skip(n));
    } else {
        assert(all.skip(n) =~= Seq::<iter::EntryView>::empty());
    }
}

/// Draining an iterator by batches until an empty one, with the values read
/// by their index, gives the same entries as draining it by single steps,
/// whatever size is asked for: the whole of what it yields.
pub proof fn law_draining_by_batches_is_draining_by_steps(
    it: iter::IterView,
    store: iter_laws::Store,
    max_entries: nat,
    rounds: nat,
)
    requires
        iter_laws::sound(it, store),
        store.bad is None,
        can_be_framed(iter_laws::yielded(it, store), it.bounds.keys_only),
        it.reset,
        it.pending is None,
        max_entries > 0,
        rounds > iter_laws::yielded(it, store).len(),
    ensures
        drained_by_batches(it, store, max_entries, rounds) == Some(iter_laws::yielded(it, store)),
        drained_by_steps(it, store, rounds) == Some(iter_laws::yielded(it, store)),
{
    let all = iter_laws::yielded(it, store);
    law_batches_drain_what_is_due(it, store, max_entries, 0, rounds);
    lemma_steps_drain(it, store, 0, rounds);
    assert(all.skip(0) =~= all);
}

/// A batch that is asked for while an error is held back is that error and
/// nothing else, wherever the iterator stands, and the error is forgotten.
/// What the batch before retained is gone.
pub proof fn law_an_error_held_back_comes_first(it: iter::IterView, max_entries: nat)
    requires
        it.pending is Some,
    ensures
        ({
            let (after, then) = iter::next_batch(it, max_entries);
            &&& then == iter::BatchStepView::Done(Err(it.pending->Some_0))
            &&& after.pending is None
            &&& after.batch_values.len() == 0
            &&& after.batch_count == 0
            &&& after.current == it.current
            &&& after.source == it.source
            &&& after.bounds == it.bounds
            &&& after.reset == it.reset
            &&& after.include_current == it.include_current
        }),
{
}

/// However a step of a batch fails, what was gathered is handed out and the
/// failure held back; if nothing was gathered, the failure is the answer.
pub proof fn law_a_failed_step_loses_nothing(
    it: iter::IterView,
    batch: iter::BatchView,
    error: failure::FailureView,
)
    ensures
        ({
            let (after, then) = iter::resume(it, batch, iter::StepView::Done(Err(error)));
            if batch.count == 0 {
                then == iter::BatchStepView::Done(Err(error)) && after == it
            } else {
                &&& then == iter::BatchStepView::Done(
                    Ok(iter::KeyBatchView { frame: batch.frame, count: batch.count }),
                )
                &&& after.pending == Some(error)
                &&& after.batch_count == batch.count
                &&& after.batch_values == it.batch_values
            }
        }),
{
}

/// A key that is too long for the frame's length field fails the batch and
/// leaves the iterator on it, and no key that fits does.
pub proof fn law_only_an_oversized_key_fails_a_batch(it: iter::IterView, batch: iter::BatchView)
    requires
        it.in_range(),
    ensures
        ({
            let key = it.current->Some_0.key;
            let (after, then) = iter::resume(it, batch, iter::StepView::Done(Ok(true)));
            &&& key.len() >= 0x1_0000_0000 ==> {
                &&& after == it
                &&& then is Done
                &&& then->Done_0 is Err
                &&& then->Done_0->Err_0.status == 8
                &&& then->Done_0->Err_0.detail == Some("key longer than 4 GiB"@)
            }
            &&& key.len() < 0x1_0000_0000 && batch.count + 1 >= batch.max_entries ==> then
                == iter::BatchStepView::Done(
                Ok(
                    iter::KeyBatchView {
                        frame: batch.frame + spec_u32_to_le_bytes(key.len() as u32) + key,
                        count: batch.count + 1,
                    },
                ),
            )
        }),
{
    let key = it.current->Some_0.key;
    assert(batch.frame + (spec_u32_to_le_bytes(key.len() as u32) + key) =~= batch.frame
        + spec_u32_to_le_bytes(key.len() as u32) + key);
}

} // verus!
