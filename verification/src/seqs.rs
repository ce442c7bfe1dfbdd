//! Facts about filtered sequences.

use vstd::prelude::*;

verus! {

/// A filter that nothing passes leaves nothing.
pub(crate) proof fn lemma_nothing_passes<T>(s: Seq<T>, pass: spec_fn(T) -> bool)
    requires
        forall|i: int| 0 <= i < s.len() ==> !pass(#[trigger] s[i]),
    ensures
        s.filter(pass) == Seq::<T>::empty(),
    decreases s.len(),
{
    reveal(Seq::filter);
    if s.len() > 0 {
        assert forall|i: int| 0 <= i < s.drop_last().len() implies !pass(
            #[trigger] s.drop_last()[i],
        ) by {
            assert(s.drop_last()[i] == s[i]);
        }
        lemma_nothing_passes(s.drop_last(), pass);
        assert(!pass(s[s.len() - 1]));
    }
}

/// A filter that everything passes changes nothing.
pub(crate) proof fn lemma_everything_passes<T>(s: Seq<T>, pass: spec_fn(T) -> bool)
    requires
        forall|i: int| 0 <= i < s.len() ==> pass(#[trigger] s[i]),
    ensures
        s.filter(pass) == s,
    decreases s.len(),
{
    reveal(Seq::filter);
    if s.len() > 0 {
        assert forall|i: int| 0 <= i < s.drop_last().len() implies pass(
            #[trigger] s.drop_last()[i],
        ) by {
            assert(s.drop_last()[i] == s[i]);
        }
        lemma_everything_passes(s.drop_last(), pass);
        assert(pass(s[s.len() - 1]));
        assert(s.drop_last().push(s.last()) =~= s);
    }
}

/// A filter that exactly the elements from `lo` to `hi` pass leaves those.
pub(crate) proof fn lemma_middle_passes<T>(s: Seq<T>, pass: spec_fn(T) -> bool, lo: int, hi: int)
    requires
        0 <= lo <= hi <= s.len(),
        forall|i: int| 0 <= i < s.len() ==> (pass(#[trigger] s[i]) <==> lo <= i < hi),
    ensures
        s.filter(pass) == s.subrange(lo, hi),
{
    let front = s.subrange(0, lo);
    let middle = s.subrange(lo, hi);
    let back = s.subrange(hi, s.len() as int);
    assert(s =~= (front + middle) + back);
    Seq::filter_distributes_over_add(front + middle, back, pass);
    Seq::filter_distributes_over_add(front, middle, pass);
    assert forall|i: int| 0 <= i < front.len() implies !pass(#[trigger] front[i]) by {
        assert(front[i] == s[i]);
    }
    assert forall|i: int| 0 <= i < middle.len() implies pass(#[trigger] middle[i]) by {
        assert(middle[i] == s[lo + i]);
    }
    assert forall|i: int| 0 <= i < back.len() implies !pass(#[trigger] back[i]) by {
        assert(back[i] == s[hi + i]);
    }
    lemma_nothing_passes(front, pass);
    lemma_everything_passes(middle, pass);
    lemma_nothing_passes(back, pass);
    assert((Seq::empty() + middle) + Seq::empty() =~= middle);
}

/// Filtering once more by what is stricter is filtering by that alone.
pub(crate) proof fn lemma_filter_twice<T>(
    s: Seq<T>,
    loose: spec_fn(T) -> bool,
    strict: spec_fn(T) -> bool,
)
    requires
        forall|x: T| #[trigger] strict(x) ==> loose(x),
    ensures
        s.filter(loose).filter(strict) == s.filter(strict),
    decreases s.len(),
{
    reveal(Seq::filter);
    if s.len() > 0 {
        let (front, last) = (s.drop_last(), s.last());
        lemma_filter_twice(front, loose, strict);
        if loose(last) {
            let some = front.filter(loose);
            assert(some.push(last).drop_last() =~= some);
        } else {
            assert(!strict(last));
        }
    }
}

} // verus!
