//! The keys a transaction wrote while iterators over it were open.
//!
//! An iterator over a transaction shows the writes that were buffered when
//! it was created, and none made afterwards. The engine has no such view to
//! offer once the transaction went on writing: a stream shows what is
//! buffered when the stream is opened. So, while an iterator is open, the
//! caller keeps for every key it writes what stood there before, and the
//! key is noted here. A stream is then never opened across a noted key: it
//! is cut there, and what was kept is taken in its place.
//!
//! A transaction that does not write while it is iterated over notes
//! nothing, and no stream over it is cut.

use vstd::prelude::*;
use vstd::slice::*;

use crate::bounds::ScanDirection;
use crate::iter;
use crate::iter::{next_key, Scan};
use crate::order;
use crate::order::{comes_before, same_bytes};

verus! {

/// The keys written while iterators were open, in the order they were
/// written, and where in that order each iterator that is open began.
pub struct WriteLog {
    keys: Vec<Vec<u8>>,
    marks: Vec<usize>,
}

/// What a [`WriteLog`] holds.
#[verifier::ext_equal]
pub struct LogView {
    pub keys: Seq<Seq<u8>>,
    pub marks: Seq<nat>,
}

impl View for WriteLog {
    type V = LogView;

    closed spec fn view(&self) -> LogView {
        LogView {
            keys: self.keys@.map_values(|key: Vec<u8>| key@),
            marks: self.marks@.map_values(|mark: usize| mark as nat),
        }
    }
}

/// Where a stream is cut: at a noted key.
pub struct Cut {
    /// Number of the note.
    index: usize,
    key: Vec<u8>,
    /// What lies beyond the key.
    rest: Scan,
}

/// Where a stream is cut.
#[verifier::ext_equal]
pub struct CutView {
    pub index: nat,
    pub key: Seq<u8>,
    pub rest: iter::ScanView,
}

impl View for Cut {
    type V = CutView;

    closed spec fn view(&self) -> CutView {
        CutView { index: self.index as nat, key: self.key@, rest: self.rest@ }
    }
}

impl Cut {
    /// Number of the note that the cut is made for.
    pub fn index(&self) -> (index: usize)
        ensures
            index == self@.index,
    {
        self.index
    }

    /// What lies beyond the cut.
    pub fn rest(&self) -> (rest: Scan)
        ensures
            rest@ == self@.rest,
    {
        self.rest.copy()
    }
}

/// Was `key` noted since `mark`?
pub open spec fn noted_since(log: LogView, mark: nat, key: Seq<u8>) -> bool {
    exists|i: int| mark <= i < log.keys.len() && #[trigger] log.keys[i] == key
}

/// Is there an iterator open that `key` was not noted for?
pub open spec fn is_news(log: LogView, key: Seq<u8>) -> bool {
    exists|m: int|
        0 <= m < log.marks.len() && !noted_since(log, #[trigger] log.marks[m], key)
}

/// The log once `key` is about to be written.
pub open spec fn noted(log: LogView, key: Seq<u8>) -> LogView {
    if is_news(log, key) {
        LogView { keys: log.keys.push(key), ..log }
    } else {
        log
    }
}

/// The log with one more iterator open, which begins here.
pub open spec fn with_iterator(log: LogView) -> LogView {
    LogView { marks: log.marks.push(log.keys.len()), ..log }
}

/// The log with an iterator that began at `mark` closed. With the last one
/// nothing stays noted.
pub open spec fn without_iterator(log: LogView, mark: nat) -> LogView {
    let marks = if log.marks.contains(mark) {
        log.marks.remove(log.marks.index_of_first(mark)->Some_0)
    } else {
        log.marks
    };
    LogView {
        keys: if marks.len() == 0 {
            Seq::empty()
        } else {
            log.keys
        },
        marks,
    }
}

/// Does a walk in this direction come to `a` before it comes to `b`?
pub open spec fn sooner(direction: ScanDirection, a: Seq<u8>, b: Seq<u8>) -> bool {
    match direction {
        ScanDirection::Forward => order::before(a, b),
        ScanDirection::Reverse => order::before(b, a),
    }
}

/// The first note since `mark` of the key that a scan comes to first, of
/// those that it comes to.
pub open spec fn first_noted(keys: Seq<Seq<u8>>, mark: nat, scan: iter::ScanView) -> Option<nat>
    decreases keys.len(),
{
    if keys.len() <= mark {
        None
    } else {
        let best = first_noted(keys.drop_last(), mark, scan);
        let last = (keys.len() - 1) as nat;
        if !scan.contains(keys.last()) {
            best
        } else {
            match best {
                Some(i) if !sooner(scan.direction, keys.last(), keys[i as int]) => best,
                _ => Some(last),
            }
        }
    }
}

/// A scan up to the first key in it that was noted since `mark`, and where
/// that cuts it.
pub open spec fn cut(keys: Seq<Seq<u8>>, mark: nat, scan: iter::ScanView) -> (
    iter::ScanView,
    Option<CutView>,
) {
    match first_noted(keys, mark, scan) {
        None => (scan, None),
        Some(index) => {
            let key = keys[index as int];
            (scan.up_to(key), Some(CutView { index, key, rest: scan.beyond(key) }))
        },
    }
}

impl WriteLog {
    /// A log with no iterator open.
    pub fn new() -> (log: WriteLog)
        ensures
            log@ == (LogView { keys: Seq::empty(), marks: Seq::empty() }),
    {
        let log = WriteLog { keys: Vec::new(), marks: Vec::new() };
        assert(log@ =~= (LogView { keys: Seq::empty(), marks: Seq::empty() }));
        log
    }

    /// An iterator is opened. Gives where it begins.
    pub fn iterator_opened(&mut self) -> (mark: usize)
        ensures
            mark == old(self)@.keys.len(),
            final(self)@ == with_iterator(old(self)@),
    {
        let mark: usize = self.keys.len();
        self.marks.push(mark);
        assert(self@ =~= with_iterator(old(self)@));
        mark
    }

    /// `key` is about to be written. Says whether it was noted now: then
    /// the caller keeps what stands there, under the number of the note,
    /// which is how many there were before.
    pub fn note(&mut self, key: &[u8]) -> (news: bool)
        ensures
            news == is_news(old(self)@, key@),
            final(self)@ == noted(old(self)@, key@),
    {
        let ghost log = self@;
        if self.marks.len() == 0 {
            return false;
        }
        let mut newest: usize = self.marks[0];
        let ghost mut at: int = 0;
        let mut m: usize = 1;
        while m < self.marks.len()
            invariant
                log == self@,
                1 <= m <= self.marks.len(),
                0 <= at < self.marks.len(),
                newest == self.marks[at],
                forall|i: int| 0 <= i < m ==> self.marks[i] <= newest,
            decreases self.marks.len() - m,
        {
            if self.marks[m] > newest {
                newest = self.marks[m];
                proof {
                    at = m as int;
                }
            }
            m += 1;
        }
        assert(log.marks[at] == newest as nat);
        let mut i: usize = newest;
        while i < self.keys.len()
            invariant
                log == self@,
                log.keys.len() == self.keys.len(),
                newest <= i,
                forall|m: int| 0 <= m < self.marks.len() ==> self.marks[m] <= newest,
                forall|j: int| newest <= j < i && j < self.keys.len() ==> log.keys[j] != key@,
            decreases self.keys.len() - i,
        {
            assert(log.keys[i as int] == self.keys[i as int]@);
            if same_bytes(self.keys[i].as_slice(), key) {
                proof {
                    assert(log.keys[i as int] == key@);
                    assert forall|m: int| 0 <= m < log.marks.len() implies noted_since(
                        log,
                        #[trigger] log.marks[m],
                        key@,
                    ) by {
                        assert(log.marks[m] == self.marks[m] as nat);
                    }
                }
                return false;
            }
            i += 1;
        }
        assert(!noted_since(log, log.marks[at], key@));
        self.keys.push(slice_to_vec(key));
        assert(self@ =~= noted(log, key@));
        true
    }

    /// An iterator that began at `mark` is closed. Says whether nothing is
    /// noted any more: then nothing that was kept is needed.
    pub fn iterator_closed(&mut self, mark: usize) -> (idle: bool)
        ensures
            final(self)@ == without_iterator(old(self)@, mark as nat),
            idle == (final(self)@.marks.len() == 0),
    {
        let ghost log = self@;
        let mut m: usize = 0;
        while m < self.marks.len() && self.marks[m] != mark
            invariant
                log == self@,
                log.marks.len() == self.marks.len(),
                m <= self.marks.len(),
                forall|i: int| 0 <= i < m ==> log.marks[i] != mark as nat,
            decreases self.marks.len() - m,
        {
            assert(log.marks[m as int] == self.marks[m as int] as nat);
            m += 1;
        }
        if m < self.marks.len() {
            assert(log.marks[m as int] == mark as nat);
            assert(log.marks.contains(mark as nat));
            proof {
                log.marks.index_of_first_ensures(mark as nat);
            }
            self.marks.remove(m);
            assert(self@.marks =~= log.marks.remove(m as int));
        }
        let idle = self.marks.len() == 0;
        if idle {
            self.keys.clear();
        }
        assert(self@ =~= without_iterator(log, mark as nat));
        idle
    }

    /// Cut a scan at the first key in it that was noted since `mark`.
    pub fn cut(&self, mark: usize, scan: Scan) -> (result: (Scan, Option<Cut>))
        ensures
            (result.0@, cut_view(result.1)) == cut(self@.keys, mark as nat, scan@),
    {
        let ghost keys = self@.keys;
        let mut best: Option<usize> = None;
        let mut i: usize = 0;
        while i < self.keys.len()
            invariant
                keys == self@.keys,
                keys.len() == self.keys.len(),
                i <= self.keys.len(),
                match best {
                    Some(at) => first_noted(keys.take(i as int), mark as nat, scan@) == Some(
                        at as nat,
                    ) && at < i,
                    None => first_noted(keys.take(i as int), mark as nat, scan@) is None,
                },
            decreases self.keys.len() - i,
        {
            let key = self.keys[i].as_slice();
            assert(keys[i as int] == key@);
            proof {
                let upto = keys.take(i + 1);
                assert(upto.drop_last() =~= keys.take(i as int));
                assert(upto.last() == key@);
                if let Some(at) = best {
                    assert(upto[at as int] == keys[at as int]);
                }
                if i < mark {
                    assert(first_noted(keys.take(i as int), mark as nat, scan@) is None);
                }
            }
            if i >= mark && scan.contains(key) {
                let first = match best {
                    None => true,
                    Some(at) => match scan.direction {
                        ScanDirection::Forward => comes_before(key, self.keys[at].as_slice()),
                        ScanDirection::Reverse => comes_before(self.keys[at].as_slice(), key),
                    },
                };
                if first {
                    best = Some(i);
                }
            }
            i += 1;
        }
        assert(keys.take(i as int) =~= keys);
        match best {
            None => (scan, None),
            Some(index) => {
                let key = slice_to_vec(self.keys[index].as_slice());
                assert(keys[index as int] == key@);
                let rest = scan.beyond(key.as_slice());
                let near = scan.up_to(key.as_slice());
                let cut = Cut { index, key, rest };
                (near, Some(cut))
            },
        }
    }
}

/// The scan that comes to `key` alone: what to keep of it is what this
/// yields before the key is written.
pub fn only(key: &[u8]) -> (scan: Scan)
    ensures
        forall|other: Seq<u8>| #[trigger] scan@.contains(other) <==> other == key@,
{
    let scan = Scan {
        start: Some(slice_to_vec(key)),
        end: Some(next_key(key)),
        direction: ScanDirection::Forward,
    };
    proof {
        assert forall|other: Seq<u8>| #[trigger] scan@.contains(other) <==> other == key@ by {
            order::law_zero_byte_is_the_next_key(key@, other);
            order::lemma_total(other, key@);
        }
    }
    scan
}

/// What is seen of a cut that may not be there.
pub open spec fn cut_view(cut: Option<Cut>) -> Option<CutView> {
    match cut {
        Some(found) => Some(found@),
        None => None,
    }
}

/// How many of the notes since `mark` are of keys that a scan comes to.
pub open spec fn count_noted(keys: Seq<Seq<u8>>, mark: nat, scan: iter::ScanView) -> nat
    decreases keys.len(),
{
    if keys.len() <= mark {
        0
    } else {
        let others = count_noted(keys.drop_last(), mark, scan);
        if scan.contains(keys.last()) {
            others + 1
        } else {
            others
        }
    }
}

/// Which note [`first_noted`] finds.
pub(crate) proof fn lemma_first_noted(keys: Seq<Seq<u8>>, mark: nat, scan: iter::ScanView)
    ensures
        match first_noted(keys, mark, scan) {
            None => forall|i: int| mark <= i < keys.len() ==> !scan.contains(#[trigger] keys[i]),
            Some(n) => {
                &&& mark <= n < keys.len()
                &&& scan.contains(keys[n as int])
                &&& forall|i: int|
                    mark <= i < keys.len() && scan.contains(#[trigger] keys[i]) ==> !sooner(
                        scan.direction,
                        keys[i],
                        keys[n as int],
                    )
                &&& forall|i: int| mark <= i < n ==> #[trigger] keys[i] != keys[n as int]
            },
        },
    decreases keys.len(),
{
    if keys.len() > mark {
        let (front, last) = (keys.drop_last(), keys.last());
        lemma_first_noted(front, mark, scan);
        assert(forall|i: int| 0 <= i < front.len() ==> front[i] == keys[i]);
        let best = first_noted(front, mark, scan);
        let found = first_noted(keys, mark, scan);
        order::lemma_irreflexive(last);
        if found is Some {
            let n = found->Some_0 as int;
            assert forall|i: int|
                mark <= i < keys.len() && scan.contains(#[trigger] keys[i]) implies !sooner(
                scan.direction,
                keys[i],
                keys[n],
            ) by {
                if i < front.len() && n == front.len() && best is Some {
                    let b = keys[best->Some_0 as int];
                    assert(front[i] == keys[i]);
                    order::lemma_transitive_weak(keys[i], last, b);
                    order::lemma_transitive_weak(b, last, keys[i]);
                    order::lemma_total(keys[i], last);
                    order::lemma_total(b, last);
                    order::lemma_total(keys[i], b);
                }
            }
            assert forall|i: int| mark <= i < n implies #[trigger] keys[i] != keys[n] by {
                assert(front[i] == keys[i]);
                if n == front.len() && keys[i] == last {
                    assert(scan.contains(front[i]));
                    assert(!sooner(scan.direction, front[i], front[best->Some_0 as int]));
                }
            }
        }
    }
}

/// A scan that comes to no key that another does not, and not to one of the
/// notes that the other comes to, comes to fewer of them.
pub(crate) proof fn lemma_fewer_noted(
    keys: Seq<Seq<u8>>,
    mark: nat,
    part: iter::ScanView,
    whole: iter::ScanView,
    missed: Option<int>,
)
    requires
        forall|key: Seq<u8>| #[trigger] part.contains(key) ==> whole.contains(key),
        missed is Some ==> mark <= missed->Some_0 < keys.len() && whole.contains(
            keys[missed->Some_0],
        ) && !part.contains(keys[missed->Some_0]),
    ensures
        count_noted(keys, mark, part) <= count_noted(keys, mark, whole),
        missed is Some ==> count_noted(keys, mark, part) < count_noted(keys, mark, whole),
    decreases keys.len(),
{
    if keys.len() > mark {
        let front = keys.drop_last();
        if missed is Some && missed->Some_0 < front.len() {
            assert(front[missed->Some_0] == keys[missed->Some_0]);
            lemma_fewer_noted(front, mark, part, whole, missed);
        } else {
            lemma_fewer_noted(front, mark, part, whole, None);
        }
    }
}

/// Beyond a key there are the keys behind it, and up to it those before it,
/// in the direction of the scan.
pub(crate) proof fn lemma_split(scan: iter::ScanView, at: Seq<u8>, key: Seq<u8>)
    requires
        scan.contains(at),
    ensures
        scan.up_to(at).contains(key) <==> scan.contains(key) && sooner(scan.direction, key, at),
        scan.beyond(at).contains(key) <==> scan.contains(key) && sooner(scan.direction, at, key),
{
    order::law_zero_byte_is_the_next_key(at, key);
    order::lemma_total(key, at);
    if scan.start is Some {
        let start = scan.start->Some_0;
        order::lemma_transitive_weak(start, at, key);
        order::lemma_transitive_weak(at, key, start);
    }
    if scan.end is Some {
        let end = scan.end->Some_0;
        order::lemma_transitive_weak(key, at, end);
    }
}

/// Beyond a cut there are fewer notes to come.
pub(crate) proof fn lemma_cut_leaves_fewer(keys: Seq<Seq<u8>>, mark: nat, scan: iter::ScanView)
    ensures
        match cut(keys, mark, scan).1 {
            Some(found) => count_noted(keys, mark, found.rest) < count_noted(keys, mark, scan),
            None => true,
        },
{
    lemma_first_noted(keys, mark, scan);
    if let Some(n) = first_noted(keys, mark, scan) {
        let at = keys[n as int];
        let rest = scan.beyond(at);
        assert forall|key: Seq<u8>| #[trigger] rest.contains(key) implies scan.contains(key) by {
            lemma_split(scan, at, key);
        }
        lemma_split(scan, at, at);
        order::lemma_irreflexive(at);
        lemma_fewer_noted(keys, mark, rest, scan, Some(n as int));
    }
}

// ---------------------------------------------------------------------
// Laws.
// ---------------------------------------------------------------------

/// Once a key is about to be written it is noted for every iterator that is
/// open. What was noted before keeps its number.
pub proof fn law_a_write_is_noted_for_every_iterator(log: LogView, key: Seq<u8>, m: int)
    requires
        0 <= m < log.marks.len(),
        log.marks[m] <= log.keys.len(),
    ensures
        noted_since(noted(log, key), log.marks[m], key),
        noted(log, key).marks == log.marks,
        log.keys.is_prefix_of(noted(log, key).keys),
{
    let after = noted(log, key);
    if is_news(log, key) {
        assert(after.keys[log.keys.len() as int] == key);
        assert(log.keys =~= after.keys.take(log.keys.len() as int));
    } else {
        assert(log.keys =~= log.keys.take(log.keys.len() as int));
    }
}

/// Without an iterator open nothing is noted, and an iterator that nothing
/// was noted for since it was opened reads streams that are not cut.
pub proof fn law_nothing_noted_cuts_nothing(log: LogView, key: Seq<u8>, scan: iter::ScanView)
    ensures
        log.marks.len() == 0 ==> noted(log, key) == log,
        cut(log.keys, log.keys.len(), scan) == (scan, None::<CutView>),
{
}

/// A stream up to its cut comes to no key that was noted since `mark`; and
/// what lies on either side of the cut is all of the scan but the key.
pub proof fn law_a_cut_stream_shows_nothing_noted(
    keys: Seq<Seq<u8>>,
    mark: nat,
    scan: iter::ScanView,
    key: Seq<u8>,
)
    ensures
        ({
            let (part, found) = cut(keys, mark, scan);
            &&& forall|i: int|
                mark <= i < keys.len() ==> !part.contains(#[trigger] keys[i])
            &&& match found {
                None => part == scan,
                Some(at) => {
                    &&& mark <= at.index < keys.len()
                    &&& keys[at.index as int] == at.key
                    &&& forall|i: int| mark <= i < at.index ==> #[trigger] keys[i] != at.key
                    &&& scan.contains(at.key)
                    &&& scan.contains(key) <==> part.contains(key) || key == at.key
                        || at.rest.contains(key)
                    &&& !part.contains(at.key)
                    &&& !at.rest.contains(at.key)
                },
            }
        }),
{
    lemma_first_noted(keys, mark, scan);
    if let Some(n) = first_noted(keys, mark, scan) {
        let at = keys[n as int];
        lemma_split(scan, at, key);
        lemma_split(scan, at, at);
        order::lemma_irreflexive(at);
        order::lemma_total(at, key);
        assert forall|i: int| mark <= i < keys.len() implies !scan.up_to(at).contains(
            #[trigger] keys[i],
        ) by {
            lemma_split(scan, at, keys[i]);
        }
    }
}

/// Opening an iterator adds one mark, at the end of what is noted so far,
/// and closing one takes one mark away: the one of an iterator that began
/// there, if there is one. Every other iterator that is open keeps its own,
/// also one that began at the same place.
pub proof fn law_each_iterator_has_its_own_mark(log: LogView, mark: nat)
    ensures
        with_iterator(log).marks.to_multiset() == log.marks.to_multiset().insert(log.keys.len()),
        with_iterator(log).keys == log.keys,
        without_iterator(log, mark).marks.to_multiset() == log.marks.to_multiset().remove(mark),
        forall|other: nat| #[trigger]
            without_iterator(log, mark).marks.to_multiset().count(other)
                == log.marks.to_multiset().count(other) - if other == mark && log.marks.contains(
                mark,
            ) {
                1int
            } else {
                0int
            },
{
    broadcast use vstd::seq_lib::group_to_multiset_ensures;

    log.marks.index_of_first_ensures(mark);
    if log.marks.contains(mark) {
        let at = log.marks.index_of_first(mark)->Some_0;
        assert(log.marks.remove(at).to_multiset() =~= log.marks.to_multiset().remove(mark));
    } else {
        assert(log.marks.to_multiset().count(mark) == 0);
        assert(log.marks.to_multiset().remove(mark) =~= log.marks.to_multiset());
    }
}

/// Nothing noted is given up while an iterator is open, and everything is
/// with the last.
pub proof fn law_notes_last_as_long_as_iterators(log: LogView, mark: nat)
    ensures
        without_iterator(log, mark).marks.len() > 0 ==> without_iterator(log, mark).keys
            == log.keys,
        without_iterator(log, mark).marks.len() == 0 ==> without_iterator(log, mark).keys.len()
            == 0,
        without_iterator(log, mark).marks.len() == 0 <==> log.marks.len() == 0 || log.marks
            == seq![mark],
{
    law_each_iterator_has_its_own_mark(log, mark);
    log.marks.index_of_first_ensures(mark);
    if log.marks.contains(mark) && log.marks.len() == 1 {
        assert(log.marks =~= seq![mark]);
    }
    if log.marks == seq![mark] {
        assert(log.marks[0] == mark);
        assert(log.marks.contains(mark));
    }
}

/// An iterator that was opened and then closed leaves the log as it was,
/// if others are open.
pub proof fn law_opening_and_closing_cancel(log: LogView)
    requires
        log.marks.len() > 0,
    ensures
        ({
            let after = without_iterator(with_iterator(log), log.keys.len());
            after.keys == log.keys && after.marks.to_multiset() == log.marks.to_multiset()
        }),
{
    let open = with_iterator(log);
    let mark = log.keys.len();
    law_each_iterator_has_its_own_mark(log, mark);
    law_each_iterator_has_its_own_mark(open, mark);
    law_notes_last_as_long_as_iterators(open, mark);
    assert(open.marks.len() >= 2);
    assert(log.marks.to_multiset().insert(mark).remove(mark) =~= log.marks.to_multiset());
}

/// A key that was noted is not noted again before another iterator is
/// opened, and one that some iterator has not got is noted behind all
/// others.
pub proof fn law_a_key_is_noted_once(log: LogView, key: Seq<u8>)
    requires
        forall|m: int| 0 <= m < log.marks.len() ==> #[trigger] log.marks[m] <= log.keys.len(),
    ensures
        !is_news(noted(log, key), key),
        noted(noted(log, key), key) == noted(log, key),
        noted(log, key).marks == log.marks,
        noted(log, key).keys == log.keys || noted(log, key).keys == log.keys.push(key),
        is_news(log, key) <==> noted(log, key).keys.len() == log.keys.len() + 1,
        (forall|m: int|
            0 <= m < log.marks.len() ==> noted_since(log, #[trigger] log.marks[m], key)) ==> noted(
            log,
            key,
        ) == log,
        forall|mark: nat| #[trigger]
            noted_since(log, mark, key) <==> mark <= log.keys.len() && log.keys.skip(
                mark as int,
            ).contains(key),
{
    let after = noted(log, key);
    assert forall|m: int| 0 <= m < after.marks.len() implies noted_since(
        after,
        #[trigger] after.marks[m],
        key,
    ) by {
        law_a_write_is_noted_for_every_iterator(log, key, m);
    }
    assert forall|mark: nat| #[trigger]
        noted_since(log, mark, key) <==> mark <= log.keys.len() && log.keys.skip(
            mark as int,
        ).contains(key) by {
        if noted_since(log, mark, key) {
            let i = choose|i: int| mark <= i < log.keys.len() && #[trigger] log.keys[i] == key;
            assert(log.keys.skip(mark as int)[i - mark] == key);
        }
        if mark <= log.keys.len() && log.keys.skip(mark as int).contains(key) {
            let rest = log.keys.skip(mark as int);
            let j = choose|j: int| 0 <= j < rest.len() && rest[j] == key;
            assert(log.keys[mark + j] == key);
        }
    }
}

/// A cut is made at the key that the scan comes to first of those noted,
/// and never in front of it: up to it the scan comes to everything.
pub proof fn law_a_cut_is_made_no_sooner_than_needed(
    keys: Seq<Seq<u8>>,
    mark: nat,
    scan: iter::ScanView,
    key: Seq<u8>,
)
    ensures
        ({
            let (part, found) = cut(keys, mark, scan);
            &&& found is None <==> forall|i: int|
                mark <= i < keys.len() ==> !scan.contains(#[trigger] keys[i])
            &&& found is None ==> part == scan
            &&& found is Some ==> {
                &&& part.contains(key) <==> scan.contains(key) && if scan.direction is Forward {
                    order::before(key, found->Some_0.key)
                } else {
                    order::before(found->Some_0.key, key)
                }
                &&& found->Some_0.rest.contains(key) <==> scan.contains(key)
                    && if scan.direction is Forward {
                    order::before(found->Some_0.key, key)
                } else {
                    order::before(key, found->Some_0.key)
                }
                &&& part.direction == scan.direction
                &&& found->Some_0.rest.direction == scan.direction
            }
        }),
{
    lemma_first_noted(keys, mark, scan);
    if let Some(n) = first_noted(keys, mark, scan) {
        lemma_split(scan, keys[n as int], key);
    }
}

/// A log and a cut are what they hold.
proof fn law_a_log_is_what_it_holds(log: WriteLog, found: Cut, i: int)
    ensures
        log@.keys.len() == log.keys@.len(),
        log@.marks.len() == log.marks@.len(),
        0 <= i < log.keys@.len() ==> log@.keys[i] == log.keys@[i]@,
        0 <= i < log.marks@.len() ==> log@.marks[i] == log.marks@[i],
        found@.index == found.index,
        found@.key == found.key@,
        found@.rest == found.rest@,
        cut_view(Some(found)) == Some(found@),
        cut_view(None) is None,
{
}

} // verus!
