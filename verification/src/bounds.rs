//! The range that an iterator walks.
//!
//! * `end` is exclusive, `start` inclusive.
//! * `prefix` overrides `start` and `end`; it is rewritten to the range
//!   from the prefix to its successor, so the key exactly equal to the
//!   prefix is yielded.
//! * `keys_only` suppresses values entirely.

use vstd::prelude::*;
use vstd::slice::*;

use crate::boundary;
use crate::boundary::in_opt_bytes;
use crate::order;
use crate::order::comes_before;

verus! {

/// Iteration options as a caller hands them over. A byte range is absent
/// when its pointer is null or its length is zero.
pub struct RegolithIterOptions<'a> {
    /// Only yield keys beginning with this. Overrides `start` and `end`.
    pub prefix: Option<&'a [u8]>,
    /// Length of `prefix`.
    pub prefix_len: usize,
    /// Inclusive lower bound.
    pub start: Option<&'a [u8]>,
    /// Length of `start`.
    pub start_len: usize,
    /// Exclusive upper bound.
    pub end: Option<&'a [u8]>,
    /// Length of `end`.
    pub end_len: usize,
    /// Non-zero to walk in descending key order.
    pub reverse: u8,
    /// Non-zero to skip value reads; values then come out empty.
    pub keys_only: u8,
}

impl<'a> RegolithIterOptions<'a> {
    /// Does every length say how many bytes stand behind its pointer?
    pub open spec fn lengths_match(self) -> bool {
        &&& self.prefix is Some ==> self.prefix->Some_0@.len() == self.prefix_len
        &&& self.start is Some ==> self.start->Some_0@.len() == self.start_len
        &&& self.end is Some ==> self.end->Some_0@.len() == self.end_len
    }
}

/// The order a range is walked in.
#[derive(Debug, Clone, Copy, PartialEq, Eq, Structural)]
pub enum ScanDirection {
    Forward,
    Reverse,
}

/// The resolved, owned form of [`RegolithIterOptions`].
pub struct Bounds {
    pub start: Option<Vec<u8>>,
    pub end: Option<Vec<u8>>,
    pub reverse: bool,
    pub keys_only: bool,
}

/// The range and the manner in which it is walked.
#[verifier::ext_equal]
pub struct BoundsView {
    pub start: Option<Seq<u8>>,
    pub end: Option<Seq<u8>>,
    pub reverse: bool,
    pub keys_only: bool,
}

/// The bytes of an owned buffer that may be absent.
pub open spec fn opt_view(bytes: Option<Vec<u8>>) -> Option<Seq<u8>> {
    match bytes {
        Some(found) => Some(found@),
        None => None,
    }
}

impl View for Bounds {
    type V = BoundsView;

    open spec fn view(&self) -> BoundsView {
        BoundsView {
            start: opt_view(self.start),
            end: opt_view(self.end),
            reverse: self.reverse,
            keys_only: self.keys_only,
        }
    }
}

/// Is `key` at or behind `start`?
pub open spec fn above(start: Option<Seq<u8>>, key: Seq<u8>) -> bool {
    start is Some ==> order::at_most(start->Some_0, key)
}

/// Is `key` before `end`?
pub open spec fn below(end: Option<Seq<u8>>, key: Seq<u8>) -> bool {
    end is Some ==> order::before(key, end->Some_0)
}

impl BoundsView {
    /// Is `key` inside `[start, end)`?
    pub open spec fn contains(self, key: Seq<u8>) -> bool {
        above(self.start, key) && below(self.end, key)
    }

    /// The order the range is walked in.
    pub open spec fn direction(self) -> ScanDirection {
        if self.reverse {
            ScanDirection::Reverse
        } else {
            ScanDirection::Forward
        }
    }
}

/// The range that options ask for; no options ask for everything.
pub open spec fn bounds_of(opts: Option<&RegolithIterOptions>) -> BoundsView {
    match opts {
        None => BoundsView { start: None, end: None, reverse: false, keys_only: false },
        Some(given) => {
            let (start, end) = if given.prefix is Some && given.prefix_len > 0 {
                let prefix = given.prefix->Some_0@;
                (Some(prefix), order::prefix_successor(prefix))
            } else {
                (
                    if given.start is Some && given.start_len > 0 {
                        Some(given.start->Some_0@)
                    } else {
                        None
                    },
                    if given.end is Some && given.end_len > 0 {
                        Some(given.end->Some_0@)
                    } else {
                        None
                    },
                )
            };
            BoundsView { start, end, reverse: given.reverse != 0, keys_only: given.keys_only != 0 }
        },
    }
}

impl Bounds {
    /// The order the range is walked in.
    pub fn direction(&self) -> (direction: ScanDirection)
        ensures
            direction == self@.direction(),
    {
        if self.reverse {
            ScanDirection::Reverse
        } else {
            ScanDirection::Forward
        }
    }

    /// Is `key` inside `[start, end)`?
    pub fn contains(&self, key: &[u8]) -> (inside: bool)
        ensures
            inside == self@.contains(key@),
    {
        if let Some(start) = &self.start {
            if comes_before(key, start.as_slice()) {
                return false;
            }
        }
        if let Some(end) = &self.end {
            if !comes_before(key, end.as_slice()) {
                return false;
            }
        }
        true
    }
}

/// The smallest key strictly greater than every key prefixed by `prefix`,
/// or `None` when `prefix` is all `0xff` and no such key exists.
pub fn prefix_end(prefix: &[u8]) -> (end: Option<Vec<u8>>)
    ensures
        opt_view(end) == order::prefix_successor(prefix@),
{
    let mut end = slice_to_vec(prefix);
    while end.len() > 0
        invariant
            order::prefix_successor(prefix@) == order::prefix_successor(end@),
        decreases end@.len(),
    {
        let ghost whole = end@;
        let last: u8 = end[end.len() - 1];
        end.pop();
        assert(end@ =~= whole.drop_last());
        if last != 0xff {
            end.push(last + 1);
            return Some(end);
        }
    }
    None
}

/// A copy of an optional buffer.
pub fn copy_opt(bytes: &Option<Vec<u8>>) -> (copy: Option<Vec<u8>>)
    ensures
        opt_view(copy) == opt_view(*bytes),
{
    match bytes {
        Some(found) => Some(slice_to_vec(found.as_slice())),
        None => None,
    }
}

/// A copy of optional borrowed bytes.
fn to_owned_opt(bytes: Option<&[u8]>) -> (copy: Option<Vec<u8>>)
    ensures
        opt_view(copy) == boundary::opt_bytes(bytes),
{
    match bytes {
        Some(found) => Some(slice_to_vec(found)),
        None => None,
    }
}

/// Read caller-supplied options. `None` means defaults: everything,
/// forward, with values.
pub fn bounds_from(opts: Option<&RegolithIterOptions>) -> (bounds: Bounds)
    requires
        opts is Some ==> opts->Some_0.lengths_match(),
    ensures
        bounds@ == bounds_of(opts),
{
    let given = match opts {
        None => return Bounds { start: None, end: None, reverse: false, keys_only: false },
        Some(given) => given,
    };
    let (start, end) = match in_opt_bytes(given.prefix, given.prefix_len) {
        // Prefix iteration is range iteration over [prefix, prefix_end).
        Some(prefix) => (Some(slice_to_vec(prefix)), prefix_end(prefix)),
        None => (
            to_owned_opt(in_opt_bytes(given.start, given.start_len)),
            to_owned_opt(in_opt_bytes(given.end, given.end_len)),
        ),
    };
    Bounds { start, end, reverse: given.reverse != 0, keys_only: given.keys_only != 0 }
}

// ---------------------------------------------------------------------
// Laws.
// ---------------------------------------------------------------------

/// With a prefix, whatever `start` and `end` are, a key is in the range
/// exactly when it begins with the prefix. Without one, it is exactly when
/// it is not before a start that was given and is before an end that was.
/// Without options, every key is.
pub proof fn law_range_is_what_was_asked_for(opts: &RegolithIterOptions, key: Seq<u8>)
    requires
        opts.lengths_match(),
    ensures
        opts.prefix is Some && opts.prefix_len > 0 ==> (bounds_of(Some(opts)).contains(key)
            <==> opts.prefix->Some_0@.is_prefix_of(key)),
        opts.prefix is None || opts.prefix_len == 0 ==> (bounds_of(Some(opts)).contains(key) <==> {
            &&& opts.start is Some && opts.start_len > 0 ==> !order::before(
                key,
                opts.start->Some_0@,
            )
            &&& opts.end is Some && opts.end_len > 0 ==> order::before(key, opts.end->Some_0@)
        }),
        bounds_of(None).contains(key),
{
    if opts.prefix is Some && opts.prefix_len > 0 {
        order::law_prefix_range_is_the_prefix(opts.prefix->Some_0@, key);
    }
}

/// The walk is in descending order exactly where that was asked for, and
/// leaves values out exactly where that was; without options neither.
pub proof fn law_manner_is_what_was_asked_for(opts: &RegolithIterOptions)
    ensures
        bounds_of(Some(opts)).reverse <==> opts.reverse != 0,
        bounds_of(Some(opts)).keys_only <==> opts.keys_only != 0,
        bounds_of(Some(opts)).direction() is Reverse <==> opts.reverse != 0,
        !bounds_of(None).reverse,
        !bounds_of(None).keys_only,
        bounds_of(None).direction() is Forward,
{
}

/// A range holds the keys that are not before its start and are before its
/// end, and resolved bounds are the bytes they hold.
pub proof fn law_bounds_are_what_they_hold(bounds: Bounds, range: BoundsView, key: Seq<u8>)
    ensures
        range.contains(key) <==> {
            &&& range.start is Some ==> !order::before(key, range.start->Some_0)
            &&& range.end is Some ==> order::before(key, range.end->Some_0)
        },
        bounds@.start is Some <==> bounds.start is Some,
        bounds.start is Some ==> bounds@.start == Some(bounds.start->Some_0@),
        bounds@.end is Some <==> bounds.end is Some,
        bounds.end is Some ==> bounds@.end == Some(bounds.end->Some_0@),
        bounds@.reverse == bounds.reverse,
        bounds@.keys_only == bounds.keys_only,
{
}

/// The end of a prefix's range is the smallest key behind every key that
/// begins with it.
pub proof fn law_prefix_end_is_the_smallest(prefix: Seq<u8>, key: Seq<u8>)
    requires
        order::prefix_successor(prefix) is Some,
    ensures
        ({
            let end = order::prefix_successor(prefix)->Some_0;
            &&& prefix.is_prefix_of(key) ==> order::before(key, end)
            &&& order::before(key, end) && !prefix.is_prefix_of(key) ==> order::before(key, prefix)
            &&& !prefix.is_prefix_of(end)
        }),
{
    let end = order::prefix_successor(prefix)->Some_0;
    order::law_prefix_range_is_the_prefix(prefix, key);
    order::law_prefix_range_is_the_prefix(prefix, end);
    order::lemma_irreflexive(end);
}

} // verus!
