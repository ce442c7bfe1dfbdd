//! What an iterator walks: the entries of its range, in its direction.

use vstd::prelude::*;

use crate::bounds;
use crate::iter;
use crate::order;
use crate::seqs;
use crate::written;

verus! {

/// Are the entries in ascending key order, each key once?
pub open spec fn sorted(entries: Seq<iter::EntryView>) -> bool {
    forall|i: int, j: int|
        0 <= i < j < entries.len() ==> order::before(
            #[trigger] entries[i].key,
            #[trigger] entries[j].key,
        )
}

/// The entries of `entries` that lie in the range.
pub open spec fn within(entries: Seq<iter::EntryView>, range: bounds::BoundsView) -> Seq<
    iter::EntryView,
> {
    entries.filter(|entry: iter::EntryView| range.contains(entry.key))
}

/// The entries of the range, in the order an iterator yields them.
pub open spec fn walk(entries: Seq<iter::EntryView>, range: bounds::BoundsView) -> Seq<
    iter::EntryView,
> {
    if range.reverse {
        within(entries, range).reverse()
    } else {
        within(entries, range)
    }
}

/// How many entries at the front of `entries` satisfy `pred`.
pub open spec fn leading(
    entries: Seq<iter::EntryView>,
    pred: spec_fn(Seq<u8>) -> bool,
) -> nat
    decreases entries.len(),
{
    if entries.len() == 0 || !pred(entries[0].key) {
        0
    } else {
        1 + leading(entries.skip(1), pred)
    }
}

/// How many entries at the front of `entries` come before `key`.
pub open spec fn before_count(entries: Seq<iter::EntryView>, key: Seq<u8>) -> nat {
    leading(entries, |k: Seq<u8>| order::before(k, key))
}

/// How many entries at the front of `entries` come before or are at `key`.
pub open spec fn at_most_count(entries: Seq<iter::EntryView>, key: Seq<u8>) -> nat {
    leading(entries, |k: Seq<u8>| order::at_most(k, key))
}

/// The keys that a walk to `target` has yet to pass: those before it in the
/// direction of the walk.
pub open spec fn short_of(range: bounds::BoundsView, target: Seq<u8>) -> spec_fn(Seq<u8>) -> bool {
    if range.reverse {
        |key: Seq<u8>| order::before(target, key)
    } else {
        |key: Seq<u8>| order::before(key, target)
    }
}

/// Where in the walk a seek to `target` lands: on the first entry at or
/// past it in the direction of the walk.
pub open spec fn seek_index(
    entries: Seq<iter::EntryView>,
    range: bounds::BoundsView,
    target: Seq<u8>,
) -> nat {
    leading(walk(entries, range), short_of(range, target))
}

/// Index of the first entry at or behind the start of the range.
pub open spec fn low(entries: Seq<iter::EntryView>, start: Option<Seq<u8>>) -> int {
    match start {
        Some(key) => before_count(entries, key) as int,
        None => 0,
    }
}

/// Index behind the last entry before the end of the range.
pub open spec fn high(entries: Seq<iter::EntryView>, end: Option<Seq<u8>>) -> int {
    match end {
        Some(key) => before_count(entries, key) as int,
        None => entries.len() as int,
    }
}

pub(crate) proof fn lemma_leading(entries: Seq<iter::EntryView>, pred: spec_fn(Seq<u8>) -> bool)
    ensures
        leading(entries, pred) <= entries.len(),
        forall|i: int| 0 <= i < leading(entries, pred) ==> pred(#[trigger] entries[i].key),
        leading(entries, pred) < entries.len() ==> !pred(
            entries[leading(entries, pred) as int].key,
        ),
    decreases entries.len(),
{
    if entries.len() > 0 && pred(entries[0].key) {
        let rest = entries.skip(1);
        lemma_leading(rest, pred);
        assert forall|i: int| 0 <= i < leading(entries, pred) implies pred(
            #[trigger] entries[i].key,
        ) by {
            if i > 0 {
                assert(rest[i - 1].key == entries[i].key);
            }
        }
    }
}

pub(crate) proof fn lemma_leading_is(
    entries: Seq<iter::EntryView>,
    pred: spec_fn(Seq<u8>) -> bool,
    n: int,
)
    requires
        0 <= n <= entries.len(),
        forall|i: int| 0 <= i < n ==> pred(#[trigger] entries[i].key),
        n < entries.len() ==> !pred(entries[n].key),
    ensures
        leading(entries, pred) == n,
{
    lemma_leading(entries, pred);
    let m = leading(entries, pred) as int;
    if m < n {
        assert(pred(entries[m].key));
    }
    if n < m {
        assert(pred(entries[n].key));
    }
}

/// In sorted entries the ones before a key are exactly those in front of
/// the count.
pub(crate) proof fn lemma_before_count(entries: Seq<iter::EntryView>, key: Seq<u8>)
    requires
        sorted(entries),
    ensures
        before_count(entries, key) <= entries.len(),
        forall|i: int|
            0 <= i < entries.len() ==> (order::before(#[trigger] entries[i].key, key) <==> i
                < before_count(entries, key)),
{
    let pred = |k: Seq<u8>| order::before(k, key);
    lemma_leading(entries, pred);
    let n = before_count(entries, key) as int;
    assert forall|i: int| 0 <= i < entries.len() implies (order::before(
        #[trigger] entries[i].key,
        key,
    ) <==> i < n) by {
        if i < n {
            assert(pred(entries[i].key));
        } else if i > n {
            assert(!pred(entries[n].key));
            assert(order::before(entries[n].key, entries[i].key));
            order::lemma_transitive_weak(key, entries[n].key, entries[i].key);
            order::lemma_total(key, entries[i].key);
        } else {
            assert(!pred(entries[n].key));
        }
    }
}

/// As [`lemma_before_count`], for the keys at most `key`.
pub(crate) proof fn lemma_at_most_count(entries: Seq<iter::EntryView>, key: Seq<u8>)
    requires
        sorted(entries),
    ensures
        at_most_count(entries, key) <= entries.len(),
        forall|i: int|
            0 <= i < entries.len() ==> (order::at_most(#[trigger] entries[i].key, key) <==> i
                < at_most_count(entries, key)),
        at_most_count(entries, key) == before_count(entries, key.push(0)),
{
    let next = key.push(0);
    lemma_before_count(entries, next);
    let n = before_count(entries, next) as int;
    assert forall|i: int| 0 <= i < entries.len() implies (order::at_most(
        #[trigger] entries[i].key,
        key,
    ) <==> i < n) by {
        order::law_zero_byte_is_the_next_key(key, entries[i].key);
        assert(order::before(entries[i].key, next) <==> i < n);
    }
    let pred = |k: Seq<u8>| order::at_most(k, key);
    assert forall|i: int| 0 <= i < n implies pred(#[trigger] entries[i].key) by {
        assert(order::at_most(entries[i].key, key));
    }
    if n < entries.len() {
        assert(!order::at_most(entries[n].key, key));
    }
    lemma_leading_is(entries, pred, n);
}

/// The entries of a range stand next to each other.
pub(crate) proof fn lemma_within(entries: Seq<iter::EntryView>, range: bounds::BoundsView)
    requires
        sorted(entries),
    ensures
        ({
            let lo = low(entries, range.start);
            let hi = high(entries, range.end);
            &&& 0 <= lo <= entries.len()
            &&& 0 <= hi <= entries.len()
            &&& forall|i: int|
                0 <= i < entries.len() ==> (range.contains(#[trigger] entries[i].key) <==> lo <= i
                    < hi)
            &&& within(entries, range) == if lo < hi {
                entries.subrange(lo, hi)
            } else {
                Seq::empty()
            }
        }),
{
    let lo = low(entries, range.start);
    let hi = high(entries, range.end);
    if range.start is Some {
        lemma_before_count(entries, range.start->Some_0);
    }
    if range.end is Some {
        lemma_before_count(entries, range.end->Some_0);
    }
    assert forall|i: int| 0 <= i < entries.len() implies (range.contains(
        #[trigger] entries[i].key,
    ) <==> lo <= i < hi) by {
        let key = entries[i].key;
        if range.start is Some {
            assert(order::before(key, range.start->Some_0) <==> i < lo);
        }
        if range.end is Some {
            assert(order::before(key, range.end->Some_0) <==> i < hi);
        }
    }
    let pass = |entry: iter::EntryView| range.contains(entry.key);
    if lo < hi {
        seqs::lemma_middle_passes(entries, pass, lo, hi);
    } else {
        seqs::lemma_nothing_passes(entries, pass);
    }
}

/// Index in `entries` of the entry that stands at index `n` of the walk.
pub open spec fn position(entries: Seq<iter::EntryView>, range: bounds::BoundsView, n: int) -> int {
    if range.reverse {
        high(entries, range.end) - 1 - n
    } else {
        low(entries, range.start) + n
    }
}

/// How the walk stands to the entries it is taken from.
pub(crate) proof fn lemma_walk(entries: Seq<iter::EntryView>, range: bounds::BoundsView)
    requires
        sorted(entries),
    ensures
        ({
            let lo = low(entries, range.start);
            let hi = high(entries, range.end);
            let all = walk(entries, range);
            &&& 0 <= lo <= entries.len()
            &&& 0 <= hi <= entries.len()
            &&& all.len() == if lo < hi {
                hi - lo
            } else {
                0
            }
            &&& forall|n: int|
                0 <= n < all.len() ==> #[trigger] all[n] == entries[position(entries, range, n)]
            &&& forall|i: int|
                0 <= i < entries.len() ==> (range.contains(#[trigger] entries[i].key) <==> lo <= i
                    < hi)
        }),
{
    lemma_within(entries, range);
}

/// The range from `target` on, in the direction of the walk.
pub open spec fn narrowed_to(range: bounds::BoundsView, target: Seq<u8>) -> bounds::BoundsView {
    if range.reverse {
        bounds::BoundsView {
            end: if bounds::below(range.end, target) {
                Some(target.push(0))
            } else {
                range.end
            },
            ..range
        }
    } else {
        bounds::BoundsView {
            start: if bounds::above(range.start, target) {
                Some(target)
            } else {
                range.start
            },
            ..range
        }
    }
}

/// Where a seek lands, by the entries' own indices.
pub(crate) proof fn lemma_seek_index(
    entries: Seq<iter::EntryView>,
    range: bounds::BoundsView,
    target: Seq<u8>,
)
    requires
        sorted(entries),
    ensures
        ({
            let lo = low(entries, range.start);
            let hi = high(entries, range.end);
            let narrowed = narrowed_to(range, target);
            let n = seek_index(entries, range, target) as int;
            let len = walk(entries, range).len() as int;
            if range.reverse {
                let top = high(entries, narrowed.end);
                &&& top <= hi
                &&& n == if lo < top {
                    hi - top
                } else {
                    len
                }
            } else {
                let bottom = low(entries, narrowed.start);
                &&& lo <= bottom
                &&& n == if bottom < hi {
                    bottom - lo
                } else {
                    len
                }
            }
        }),
{
    let lo = low(entries, range.start);
    let hi = high(entries, range.end);
    let all = walk(entries, range);
    let narrowed = narrowed_to(range, target);
    lemma_walk(entries, range);
    lemma_before_count(entries, target);
    lemma_at_most_count(entries, target);
    if range.start is Some {
        lemma_before_count(entries, range.start->Some_0);
    }
    if range.end is Some {
        lemma_before_count(entries, range.end->Some_0);
    }
    if range.reverse {
        let top = high(entries, narrowed.end);
        let pred = short_of(range, target);
        assert(top <= hi) by {
            if range.end is Some && bounds::below(range.end, target) && hi < top {
                // The entry at `hi` would be at most the target, yet not
                // before the end that the target is before.
                assert(order::at_most(entries[hi].key, target));
                assert(!order::before(entries[hi].key, range.end->Some_0));
                order::lemma_transitive_weak(entries[hi].key, target, range.end->Some_0);
            }
        }
        let n = if lo < top {
            hi - top
        } else {
            all.len() as int
        };
        assert forall|i: int| 0 <= i < all.len() implies (pred(#[trigger] all[i].key) <==> i < n)
            by {
            let at = hi - 1 - i;
            assert(all[i] == entries[position(entries, range, i)]);
            if bounds::below(range.end, target) {
                assert(order::at_most(entries[at].key, target) <==> at < top);
            } else {
                assert(order::before(entries[at].key, range.end->Some_0));
                order::lemma_transitive_weak(entries[at].key, range.end->Some_0, target);
                order::lemma_total(entries[at].key, target);
            }
        }
        lemma_leading_is(all, pred, n);
    } else {
        let bottom = low(entries, narrowed.start);
        let pred = short_of(range, target);
        assert(lo <= bottom) by {
            if range.start is Some && bounds::above(range.start, target) && bottom < lo {
                assert(order::before(entries[bottom].key, range.start->Some_0));
                assert(!order::before(entries[bottom].key, target));
                order::lemma_transitive_weak(
                    entries[bottom].key,
                    range.start->Some_0,
                    target,
                );
            }
        }
        let n = if bottom < hi {
            bottom - lo
        } else {
            all.len() as int
        };
        assert forall|i: int| 0 <= i < all.len() implies (pred(#[trigger] all[i].key) <==> i < n)
            by {
            let at = lo + i;
            assert(all[i] == entries[position(entries, range, i)]);
            if bounds::above(range.start, target) {
                assert(order::before(entries[at].key, target) <==> at < bottom);
            } else {
                assert(!order::before(entries[at].key, range.start->Some_0));
                order::lemma_transitive_weak(
                    target,
                    range.start->Some_0,
                    entries[at].key,
                );
                order::lemma_total(entries[at].key, target);
            }
        }
        lemma_leading_is(all, pred, n);
    }
}

/// A seek lands where the walk splits: every entry in front of that index
/// is still short of the target in the direction of the walk, and every one
/// from there on is at it or past it. So a forward seek lands on the
/// smallest key of the range at or above the target, and a reverse one on
/// the greatest at or below it.
pub proof fn law_seek_splits_the_walk(
    entries: Seq<iter::EntryView>,
    range: bounds::BoundsView,
    target: Seq<u8>,
)
    requires
        sorted(entries),
    ensures
        ({
            let all = walk(entries, range);
            let n = seek_index(entries, range, target) as int;
            &&& n <= all.len()
            &&& forall|i: int|
                0 <= i < all.len() ==> (i < n <==> if range.reverse {
                    order::before(target, #[trigger] all[i].key)
                } else {
                    order::before(all[i].key, target)
                })
        }),
{
    let all = walk(entries, range);
    let n = seek_index(entries, range, target) as int;
    lemma_walk(entries, range);
    let short = short_of(range, target);
    lemma_leading(all, short);
    assert forall|i: int| 0 <= i < all.len() implies (i < n <==> if range.reverse {
        order::before(target, #[trigger] all[i].key)
    } else {
        order::before(all[i].key, target)
    }) by {
        if i < n {
            assert(short(all[i].key));
        } else if n < i {
            // What follows the entry at `n` is ordered behind it.
            let (p, q) = (position(entries, range, n), position(entries, range, i));
            assert(all[n] == entries[p]);
            assert(all[i] == entries[q]);
            assert(!short(all[n].key));
            if range.reverse {
                assert(order::before(entries[q].key, entries[p].key));
                order::lemma_transitive_weak(all[i].key, all[n].key, target);
                order::lemma_total(all[i].key, target);
            } else {
                assert(order::before(entries[p].key, entries[q].key));
                order::lemma_transitive_weak(target, all[n].key, all[i].key);
                order::lemma_total(all[i].key, target);
            }
        } else {
            assert(!short(all[n].key));
        }
    }
}

// ---------------------------------------------------------------------
// Parts of a walk.
// ---------------------------------------------------------------------

/// The entry of `key`, if there is one.
pub open spec fn entry_at(entries: Seq<iter::EntryView>, key: Seq<u8>) -> Option<iter::EntryView> {
    if exists|i: int| 0 <= i < entries.len() && (#[trigger] entries[i]).key == key {
        Some(entries[choose|i: int| 0 <= i < entries.len() && (#[trigger] entries[i]).key == key])
    } else {
        None
    }
}

/// Is a scan a walk of the range from somewhere on? Then it runs in its
/// direction and as far as it does.
pub open spec fn fits(range: bounds::BoundsView, scan: iter::ScanView) -> bool {
    &&& scan.direction == range.direction()
    &&& range.reverse ==> scan.start == range.start
    &&& !range.reverse ==> scan.end == range.end
    &&& forall|key: Seq<u8>| #[trigger] scan.contains(key) ==> range.contains(key)
}

/// The keys that a scan does not come to.
pub open spec fn outside(scan: iter::ScanView) -> spec_fn(Seq<u8>) -> bool {
    |key: Seq<u8>| !scan.contains(key)
}

/// Where in the walk of a range a scan that fits it begins.
pub open spec fn entry_point(
    entries: Seq<iter::EntryView>,
    range: bounds::BoundsView,
    scan: iter::ScanView,
) -> nat {
    leading(walk(entries, range), outside(scan))
}

/// The walk is in the order of its direction, and stays in its range.
pub(crate) proof fn lemma_walk_in_order(entries: Seq<iter::EntryView>, range: bounds::BoundsView)
    requires
        sorted(entries),
    ensures
        ({
            let all = walk(entries, range);
            &&& forall|i: int| 0 <= i < all.len() ==> range.contains(#[trigger] all[i].key)
            &&& forall|i: int, j: int|
                0 <= i < j < all.len() ==> written::sooner(
                    range.direction(),
                    #[trigger] all[i].key,
                    #[trigger] all[j].key,
                )
        }),
{
    let all = walk(entries, range);
    lemma_walk(entries, range);
    assert forall|i: int| 0 <= i < all.len() implies range.contains(#[trigger] all[i].key) by {
        assert(all[i] == entries[position(entries, range, i)]);
    }
    assert forall|i: int, j: int| 0 <= i < j < all.len() implies written::sooner(
        range.direction(),
        #[trigger] all[i].key,
        #[trigger] all[j].key,
    ) by {
        assert(all[i] == entries[position(entries, range, i)]);
        assert(all[j] == entries[position(entries, range, j)]);
    }
}

/// A range inside another is walked as that part of it whose keys it holds.
pub(crate) proof fn lemma_part(
    entries: Seq<iter::EntryView>,
    range: bounds::BoundsView,
    part: bounds::BoundsView,
    from: int,
    to: int,
)
    requires
        part.reverse == range.reverse,
        forall|key: Seq<u8>| #[trigger] part.contains(key) ==> range.contains(key),
        0 <= from <= to <= walk(entries, range).len(),
        forall|i: int|
            0 <= i < walk(entries, range).len() ==> (part.contains(
                #[trigger] walk(entries, range)[i].key,
            ) <==> from <= i < to),
    ensures
        walk(entries, part) == walk(entries, range).subrange(from, to),
{
    let all = walk(entries, range);
    let inner = within(entries, range);
    let loose = |entry: iter::EntryView| range.contains(entry.key);
    let strict = |entry: iter::EntryView| part.contains(entry.key);
    seqs::lemma_filter_twice(entries, loose, strict);
    let n = inner.len() as int;
    let (lo, hi) = if range.reverse {
        (n - to, n - from)
    } else {
        (from, to)
    };
    assert forall|i: int| 0 <= i < n implies (strict(#[trigger] inner[i]) <==> lo <= i < hi) by {
        if range.reverse {
            assert(all[n - 1 - i].key == inner[i].key);
        } else {
            assert(all[i].key == inner[i].key);
        }
    }
    seqs::lemma_middle_passes(inner, strict, lo, hi);
    assert(walk(entries, part) =~= all.subrange(from, to));
}

/// What a scan that fits a range comes to is the walk from its entry point
/// on.
pub(crate) proof fn lemma_entry_point(
    entries: Seq<iter::EntryView>,
    range: bounds::BoundsView,
    scan: iter::ScanView,
)
    requires
        sorted(entries),
        fits(range, scan),
    ensures
        ({
            let all = walk(entries, range);
            let from = entry_point(entries, range, scan) as int;
            &&& from <= all.len()
            &&& forall|i: int|
                0 <= i < all.len() ==> (scan.contains(#[trigger] all[i].key) <==> from <= i)
            &&& walk(entries, scan.range()) == all.subrange(from, all.len() as int)
        }),
{
    let all = walk(entries, range);
    let from = entry_point(entries, range, scan) as int;
    let out = outside(scan);
    lemma_leading(all, out);
    lemma_walk_in_order(entries, range);
    assert forall|i: int| 0 <= i < all.len() implies (scan.contains(#[trigger] all[i].key) <==> from
        <= i) by {
        if i < from {
            assert(out(all[i].key));
        } else if from < i {
            assert(!out(all[from].key));
            let (near, far) = (all[from].key, all[i].key);
            assert(written::sooner(range.direction(), near, far));
            assert(range.contains(far));
            if range.reverse {
                if scan.end is Some {
                    order::lemma_transitive_weak(far, near, scan.end->Some_0);
                    order::lemma_total(far, near);
                }
            } else if scan.start is Some {
                order::lemma_transitive_weak(scan.start->Some_0, near, far);
                order::lemma_total(near, far);
            }
        } else {
            assert(!out(all[from].key));
        }
    }
    assert forall|i: int| 0 <= i < all.len() implies (scan.range().contains(
        #[trigger] all[i].key,
    ) <==> from <= i < all.len()) by {
        assert(scan.contains(all[i].key) <==> from <= i);
    }
    assert forall|key: Seq<u8>| #[trigger] scan.range().contains(key) implies range.contains(key) by {
        assert(scan.contains(key));
    }
    lemma_part(entries, range, scan.range(), from, all.len() as int);
}

/// The entry of a key of the range stands in the walk where a seek to the
/// key lands.
proof fn lemma_entry_in_walk(
    entries: Seq<iter::EntryView>,
    range: bounds::BoundsView,
    key: Seq<u8>,
)
    requires
        sorted(entries),
        range.contains(key),
    ensures
        ({
            let all = walk(entries, range);
            let n = leading(all, short_of(range, key)) as int;
            &&& n <= all.len()
            &&& match entry_at(entries, key) {
                Some(entry) => n < all.len() && all[n] == entry && entry.key == key,
                None => n < all.len() ==> all[n].key != key,
            }
        }),
{
    let all = walk(entries, range);
    let n = leading(all, short_of(range, key)) as int;
    lemma_leading(all, short_of(range, key));
    lemma_walk(entries, range);
    match entry_at(entries, key) {
        Some(entry) => {
            let i = choose|i: int| 0 <= i < entries.len() && (#[trigger] entries[i]).key == key;
            assert(range.contains(entries[i].key));
            let m = if range.reverse {
                high(entries, range.end) - 1 - i
            } else {
                i - low(entries, range.start)
            };
            assert(all[m] == entries[position(entries, range, m)]);
            assert(all[m] == entry);
            order::lemma_irreflexive(key);
            lemma_walk_in_order(entries, range);
            assert forall|k: int| 0 <= k < m implies short_of(range, key)(#[trigger] all[k].key) by {
                assert(written::sooner(range.direction(), all[k].key, all[m].key));
            }
            lemma_leading_is(all, short_of(range, key), m);
        },
        None => {
            if n < all.len() {
                assert(all[n] == entries[position(entries, range, n)]);
            }
        },
    }
}

/// The stream up to a key is the walk from the scan's entry point to where
/// the key is or would be.
proof fn lemma_walk_up_to(
    entries: Seq<iter::EntryView>,
    range: bounds::BoundsView,
    scan: iter::ScanView,
    key: Seq<u8>,
)
    requires
        sorted(entries),
        fits(range, scan),
        scan.contains(key),
    ensures
        ({
            let all = walk(entries, range);
            let from = entry_point(entries, range, scan) as int;
            let to = leading(all, short_of(range, key)) as int;
            &&& from <= to <= all.len()
            &&& walk(entries, scan.up_to(key).range()) == all.subrange(from, to)
        }),
{
    let all = walk(entries, range);
    let from = entry_point(entries, range, scan) as int;
    let to = leading(all, short_of(range, key)) as int;
    let near = scan.up_to(key);
    lemma_entry_point(entries, range, scan);
    law_seek_splits_the_walk(entries, range, key);
    // In front of the scan's entry point everything is short of the key.
    assert(from <= to) by {
        if to < from {
            lemma_walk_in_order(entries, range);
            assert(!scan.contains(all[to].key));
            assert(range.contains(all[to].key));
            if range.reverse {
                order::lemma_transitive_weak(all[to].key, key, scan.end->Some_0);
            } else {
                order::lemma_transitive_weak(scan.start->Some_0, key, all[to].key);
            }
        }
    }
    assert forall|i: int| 0 <= i < all.len() implies (near.range().contains(
        #[trigger] all[i].key,
    ) <==> from <= i < to) by {
        written::lemma_split(scan, key, all[i].key);
        assert(scan.contains(all[i].key) <==> from <= i);
        assert(i < to <==> written::sooner(scan.direction, all[i].key, key));
        assert(near.contains(all[i].key) <==> from <= i < to);
    }
    assert forall|k: Seq<u8>| #[trigger] near.range().contains(k) implies range.contains(k) by {
        written::lemma_split(scan, key, k);
        assert(near.contains(k));
        assert(scan.contains(k));
    }
    lemma_part(entries, range, near.range(), from, to);
}

/// Beyond a key the walk goes on behind it.
proof fn lemma_walk_beyond(
    entries: Seq<iter::EntryView>,
    range: bounds::BoundsView,
    scan: iter::ScanView,
    key: Seq<u8>,
)
    requires
        sorted(entries),
        fits(range, scan),
        scan.contains(key),
    ensures
        ({
            let all = walk(entries, range);
            let to = leading(all, short_of(range, key)) as int;
            let rest = scan.beyond(key);
            &&& fits(range, rest)
            &&& entry_point(entries, range, rest) == if to < all.len() && all[to].key == key {
                to + 1
            } else {
                to
            }
        }),
{
    let all = walk(entries, range);
    let to = leading(all, short_of(range, key)) as int;
    let rest = scan.beyond(key);
    assert forall|k: Seq<u8>| #[trigger] rest.contains(k) implies range.contains(k) by {
        written::lemma_split(scan, key, k);
        assert(scan.contains(k));
    }
    lemma_walk_up_to(entries, range, scan, key);
    lemma_entry_point(entries, range, scan);
    law_seek_splits_the_walk(entries, range, key);
    lemma_walk_in_order(entries, range);
    order::lemma_irreflexive(key);
    let out = outside(rest);
    let on = to < all.len() && all[to].key == key;
    let then = if on {
        to + 1
    } else {
        to
    };
    assert forall|i: int| 0 <= i < then implies out(#[trigger] all[i].key) by {
        written::lemma_split(scan, key, all[i].key);
        order::lemma_total(key, all[i].key);
    }
    if then < all.len() {
        written::lemma_split(scan, key, all[then].key);
        order::lemma_total(key, all[then].key);
        assert(scan.contains(all[then].key));
        if on {
            assert(written::sooner(range.direction(), all[to].key, all[then].key));
        }
        assert(!out(all[then].key));
    }
    lemma_leading_is(all, out, then);
}

/// What cutting a scan at a key comes to: the stream up to the key is the
/// walk from the scan's entry point to where the key is or would be, and
/// beyond it the walk goes on.
pub(crate) proof fn lemma_cut_walk(
    entries: Seq<iter::EntryView>,
    range: bounds::BoundsView,
    scan: iter::ScanView,
    key: Seq<u8>,
)
    requires
        sorted(entries),
        fits(range, scan),
        scan.contains(key),
    ensures
        ({
            let all = walk(entries, range);
            let from = entry_point(entries, range, scan) as int;
            let to = leading(all, short_of(range, key)) as int;
            let rest = scan.beyond(key);
            &&& from <= to <= all.len()
            &&& walk(entries, scan.up_to(key).range()) == all.subrange(from, to)
            &&& fits(range, rest)
            &&& match entry_at(entries, key) {
                Some(entry) => to < all.len() && all[to] == entry && entry.key == key
                    && entry_point(entries, range, rest) == to + 1,
                None => entry_point(entries, range, rest) == to,
            }
        }),
{
    assert(range.contains(key));
    lemma_walk_up_to(entries, range, scan, key);
    lemma_walk_beyond(entries, range, scan, key);
    lemma_entry_in_walk(entries, range, key);
}

/// Sorted entries are told apart by what they hold.
proof fn lemma_sorted_same(a: Seq<iter::EntryView>, b: Seq<iter::EntryView>)
    requires
        sorted(a),
        sorted(b),
        forall|entry: iter::EntryView| #[trigger] a.contains(entry) <==> b.contains(entry),
    ensures
        a == b,
    decreases a.len(),
{
    if a.len() == 0 || b.len() == 0 {
        if a.len() > 0 {
            assert(a.contains(a[0]));
        }
        if b.len() > 0 {
            assert(a.contains(b[0]));
        }
        assert(a =~= b);
    } else {
        let (p, q) = (a.last(), b.last());
        assert(a.contains(p) && a.contains(q)) by {
            assert(a[a.len() - 1] == p);
            assert(b[b.len() - 1] == q);
            assert(b.contains(q));
        }
        let i = choose|i: int| 0 <= i < a.len() && a[i] == q;
        let j = choose|j: int| 0 <= j < b.len() && b[j] == p;
        order::lemma_total(p.key, q.key);
        assert(p == q) by {
            if i < a.len() - 1 && j < b.len() - 1 {
                assert(order::before(a[i].key, a[a.len() - 1].key));
                assert(order::before(b[j].key, b[b.len() - 1].key));
            }
        }
        let (x, y) = (a.drop_last(), b.drop_last());
        order::lemma_irreflexive(p.key);
        assert forall|entry: iter::EntryView| #[trigger] x.contains(entry) <==> y.contains(
            entry,
        ) by {
            if x.contains(entry) {
                let k = choose|k: int| 0 <= k < x.len() && x[k] == entry;
                assert(a[k] == entry);
                assert(a.contains(entry));
                assert(order::before(a[k].key, a[a.len() - 1].key));
                let m = choose|m: int| 0 <= m < b.len() && b[m] == entry;
                assert(m != b.len() - 1);
                assert(y[m] == entry);
            }
            if y.contains(entry) {
                let k = choose|k: int| 0 <= k < y.len() && y[k] == entry;
                assert(b[k] == entry);
                assert(a.contains(entry));
                assert(order::before(b[k].key, b[b.len() - 1].key));
                let m = choose|m: int| 0 <= m < a.len() && a[m] == entry;
                assert(m != a.len() - 1);
                assert(x[m] == entry);
            }
        }
        lemma_sorted_same(x, y);
        assert(a =~= x.push(p));
        assert(b =~= y.push(q));
    }
}

/// Two stores that hold the same in a range are walked alike there.
pub(crate) proof fn lemma_same_walk(
    a: Seq<iter::EntryView>,
    b: Seq<iter::EntryView>,
    range: bounds::BoundsView,
)
    requires
        sorted(a),
        sorted(b),
        forall|entry: iter::EntryView| #[trigger]
            range.contains(entry.key) ==> (a.contains(entry) <==> b.contains(entry)),
    ensures
        walk(a, range) == walk(b, range),
{
    let (x, y) = (within(a, range), within(b, range));
    lemma_within(a, range);
    lemma_within(b, range);
    lemma_within_holds(a, range);
    lemma_within_holds(b, range);
    assert forall|entry: iter::EntryView| #[trigger] x.contains(entry) <==> y.contains(entry) by {
        assert(range.contains(entry.key) ==> (a.contains(entry) <==> b.contains(entry)));
    }
    lemma_sorted_same(x, y);
}

/// What of the entries lies in a range.
proof fn lemma_within_holds(entries: Seq<iter::EntryView>, range: bounds::BoundsView)
    requires
        sorted(entries),
    ensures
        sorted(within(entries, range)),
        forall|entry: iter::EntryView| #[trigger]
            within(entries, range).contains(entry) <==> entries.contains(entry) && range.contains(
                entry.key,
            ),
{
    let some = within(entries, range);
    lemma_within(entries, range);
    let (lo, hi) = (low(entries, range.start), high(entries, range.end));
    assert forall|entry: iter::EntryView| #[trigger] some.contains(entry) <==> entries.contains(
        entry,
    ) && range.contains(entry.key) by {
        if some.contains(entry) {
            let i = choose|i: int| 0 <= i < some.len() && some[i] == entry;
            assert(entries[lo + i] == entry);
        }
        if entries.contains(entry) && range.contains(entry.key) {
            let i = choose|i: int| 0 <= i < entries.len() && entries[i] == entry;
            assert(range.contains(entries[i].key));
            assert(some[i - lo] == entry);
        }
    }
}

/// The scan of a seek begins where the seek lands.
pub(crate) proof fn lemma_seek_scan(
    entries: Seq<iter::EntryView>,
    range: bounds::BoundsView,
    target: Seq<u8>,
)
    requires
        sorted(entries),
    ensures
        ({
            let scan = iter::seek_scan(range, target);
            &&& fits(range, scan)
            &&& entry_point(entries, range, scan) == seek_index(entries, range, target)
        }),
{
    let all = walk(entries, range);
    let scan = iter::seek_scan(range, target);
    let short = short_of(range, target);
    let out = outside(scan);
    let n = seek_index(entries, range, target) as int;
    assert forall|key: Seq<u8>| #[trigger] scan.contains(key) implies range.contains(key) by {
        lemma_seek_scan_key(range, target, key);
    }
    lemma_walk_in_order(entries, range);
    lemma_leading(all, short);
    assert forall|i: int| 0 <= i < all.len() implies (out(#[trigger] all[i].key) <==> short(
        all[i].key,
    )) by {
        lemma_seek_scan_key(range, target, all[i].key);
    }
    assert forall|i: int| 0 <= i < n implies out(#[trigger] all[i].key) by {
        assert(short(all[i].key));
    }
    lemma_leading_is(all, out, n);
}

/// The keys that the scan of a seek comes to: those of the range that are
/// not short of the target.
proof fn lemma_seek_scan_key(range: bounds::BoundsView, target: Seq<u8>, key: Seq<u8>)
    ensures
        iter::seek_scan(range, target).contains(key) <==> range.contains(key) && !short_of(
            range,
            target,
        )(key),
{
    order::law_zero_byte_is_the_next_key(target, key);
    order::lemma_total(key, target);
    if range.start is Some {
        let start = range.start->Some_0;
        order::lemma_transitive_weak(start, target, key);
        order::lemma_transitive_weak(target, start, key);
        order::lemma_total(start, target);
    }
    if range.end is Some {
        let end = range.end->Some_0;
        order::lemma_transitive_weak(key, target, end);
        order::lemma_transitive_weak(key, end, target);
        order::lemma_total(end, target);
    }
}

/// The whole of a range is walked from its first entry on.
pub(crate) proof fn lemma_whole_scan(entries: Seq<iter::EntryView>, range: bounds::BoundsView)
    requires
        sorted(entries),
    ensures
        fits(range, iter::whole_range(range)),
        entry_point(entries, range, iter::whole_range(range)) == 0,
{
    let all = walk(entries, range);
    let scan = iter::whole_range(range);
    lemma_walk_in_order(entries, range);
    assert(forall|key: Seq<u8>| #[trigger] scan.contains(key) <==> range.contains(key));
    lemma_leading_is(all, outside(scan), 0);
}

/// What [`entry_at`] finds.
pub(crate) proof fn lemma_entry_at(entries: Seq<iter::EntryView>, key: Seq<u8>)
    requires
        sorted(entries),
    ensures
        match entry_at(entries, key) {
            Some(found) => entries.contains(found) && found.key == key && forall|
                entry: iter::EntryView,
            | #[trigger]
                entries.contains(entry) && entry.key == key ==> entry == found,
            None => forall|entry: iter::EntryView| #[trigger]
                entries.contains(entry) ==> entry.key != key,
        },
{
    if let Some(found) = entry_at(entries, key) {
        let i = choose|i: int| 0 <= i < entries.len() && (#[trigger] entries[i]).key == key;
        order::lemma_irreflexive(key);
        assert forall|entry: iter::EntryView| #[trigger]
            entries.contains(entry) && entry.key == key implies entry == found by {
            let j = choose|j: int| 0 <= j < entries.len() && entries[j] == entry;
            assert(entries[j].key == entries[i].key);
            if i < j {
                assert(order::before(entries[i].key, entries[j].key));
            }
            if j < i {
                assert(order::before(entries[j].key, entries[i].key));
            }
        }
    }
}

/// An entry of the walk is the entry of its key, and stands where a seek to
/// its key lands.
pub(crate) proof fn lemma_place(entries: Seq<iter::EntryView>, range: bounds::BoundsView, n: int)
    requires
        sorted(entries),
        0 <= n < walk(entries, range).len(),
    ensures
        ({
            let entry = walk(entries, range)[n];
            &&& entry_at(entries, entry.key) == Some(entry)
            &&& leading(walk(entries, range), short_of(range, entry.key)) == n
        }),
{
    let all = walk(entries, range);
    let key = all[n].key;
    lemma_walk(entries, range);
    assert(all[n] == entries[position(entries, range, n)]);
    assert(entries.contains(all[n]));
    lemma_entry_at(entries, key);
    lemma_walk_in_order(entries, range);
    order::lemma_irreflexive(key);
    assert forall|k: int| 0 <= k < n implies short_of(range, key)(#[trigger] all[k].key) by {
        assert(written::sooner(range.direction(), all[k].key, all[n].key));
    }
    lemma_leading_is(all, short_of(range, key), n);
}

/// What a walk holds are the entries that lie in its range.
pub(crate) proof fn lemma_walk_holds(
    entries: Seq<iter::EntryView>,
    range: bounds::BoundsView,
    entry: iter::EntryView,
)
    requires
        sorted(entries),
    ensures
        walk(entries, range).contains(entry) <==> entries.contains(entry) && range.contains(
            entry.key,
        ),
{
    let some = within(entries, range);
    let all = walk(entries, range);
    lemma_within_holds(entries, range);
    let n = some.len() as int;
    if range.reverse {
        if some.contains(entry) {
            let i = choose|i: int| 0 <= i < n && some[i] == entry;
            assert(all[n - 1 - i] == entry);
        }
        if all.contains(entry) {
            let i = choose|i: int| 0 <= i < n && all[i] == entry;
            assert(some[n - 1 - i] == entry);
        }
    }
}

} // verus!
