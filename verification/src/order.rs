//! Byte strings in the order the engine keeps its keys in.

use vstd::prelude::*;

verus! {

/// Does `a` come before `b`? A byte string comes after each of its proper
/// prefixes; otherwise the first byte in which the two differ decides.
pub open spec fn before(a: Seq<u8>, b: Seq<u8>) -> bool
    decreases a.len(),
{
    if a.len() == 0 || b.len() == 0 {
        b.len() > 0
    } else if a[0] == b[0] {
        before(a.skip(1), b.skip(1))
    } else {
        a[0] < b[0]
    }
}

/// Is `a` at or before `b`?
pub open spec fn at_most(a: Seq<u8>, b: Seq<u8>) -> bool {
    !before(b, a)
}

/// The order of two byte strings whose first `n` bytes agree is that of
/// what follows.
proof fn lemma_common_bytes(a: Seq<u8>, b: Seq<u8>, n: int)
    requires
        0 <= n <= a.len(),
        n <= b.len(),
        a.take(n) == b.take(n),
    ensures
        before(a, b) == before(a.skip(n), b.skip(n)),
    decreases n,
{
    if n == 0 {
        assert(a.skip(0) =~= a);
        assert(b.skip(0) =~= b);
    } else {
        assert(a[0] == a.take(n)[0]);
        assert(b[0] == b.take(n)[0]);
        let (c, d) = (a.skip(1), b.skip(1));
        assert(c.take(n - 1) =~= a.take(n).skip(1));
        assert(d.take(n - 1) =~= b.take(n).skip(1));
        lemma_common_bytes(c, d, n - 1);
        assert(c.skip(n - 1) =~= a.skip(n));
        assert(d.skip(n - 1) =~= b.skip(n));
    }
}

proof fn lemma_single_byte(a: Seq<u8>, byte: u8)
    ensures
        before(a, seq![byte]) <==> a.len() == 0 || a[0] < byte,
{
    reveal_with_fuel(before, 2);
}

/// No byte string comes before itself.
pub(crate) proof fn lemma_irreflexive(a: Seq<u8>)
    ensures
        !before(a, a),
    decreases a.len(),
{
    if a.len() > 0 {
        lemma_irreflexive(a.skip(1));
    }
}

/// Of two different byte strings exactly one comes before the other.
pub(crate) proof fn lemma_total(a: Seq<u8>, b: Seq<u8>)
    ensures
        a != b ==> before(a, b) != before(b, a),
        a == b ==> !before(a, b),
    decreases a.len(),
{
    if a.len() > 0 && b.len() > 0 {
        lemma_total(a.skip(1), b.skip(1));
        if a[0] == b[0] && a.skip(1) == b.skip(1) {
            assert(a =~= seq![a[0]] + a.skip(1));
            assert(b =~= seq![b[0]] + b.skip(1));
        }
    } else if a.len() == 0 && b.len() == 0 {
        assert(a =~= b);
    }
}

/// The order is transitive.
pub(crate) proof fn lemma_transitive(a: Seq<u8>, b: Seq<u8>, c: Seq<u8>)
    requires
        before(a, b),
        before(b, c),
    ensures
        before(a, c),
    decreases a.len(),
{
    if a.len() > 0 && b.len() > 0 && c.len() > 0 && a[0] == b[0] && b[0] == c[0] {
        lemma_transitive(a.skip(1), b.skip(1), c.skip(1));
    }
}

/// As [`lemma_transitive`], where one of the two may be an equality.
pub(crate) proof fn lemma_transitive_weak(a: Seq<u8>, b: Seq<u8>, c: Seq<u8>)
    ensures
        at_most(a, b) && at_most(b, c) ==> at_most(a, c),
        before(a, b) && at_most(b, c) ==> before(a, c),
        at_most(a, b) && before(b, c) ==> before(a, c),
{
    lemma_total(a, b);
    lemma_total(b, c);
    lemma_total(a, c);
    if before(a, b) && before(b, c) {
        lemma_transitive(a, b, c);
    }
}

/// Does `a` come before `b`?
pub fn comes_before(a: &[u8], b: &[u8]) -> (result: bool)
    ensures
        result == before(a@, b@),
{
    let mut at: usize = 0;
    while at < a.len() && at < b.len()
        invariant
            at <= a@.len(),
            at <= b@.len(),
            a@.take(at as int) =~= b@.take(at as int),
        decreases a@.len() - at,
    {
        let (x, y): (u8, u8) = (a[at], b[at]);
        if x != y {
            proof {
                lemma_common_bytes(a@, b@, at as int);
                assert(a@.skip(at as int)[0] == x);
                assert(b@.skip(at as int)[0] == y);
            }
            return x < y;
        }
        assert(a@.take(at + 1) =~= a@.take(at as int).push(x));
        assert(b@.take(at + 1) =~= b@.take(at as int).push(y));
        at += 1;
    }
    proof {
        lemma_common_bytes(a@, b@, at as int);
    }
    at < b.len()
}

/// Do `a` and `b` hold the same bytes?
pub fn same_bytes(a: &[u8], b: &[u8]) -> (result: bool)
    ensures
        result == (a@ == b@),
{
    if a.len() != b.len() {
        return false;
    }
    let mut at: usize = 0;
    while at < a.len()
        invariant
            at <= a@.len(),
            a@.len() == b@.len(),
            forall|i: int| 0 <= i < at ==> a@[i] == b@[i],
        decreases a@.len() - at,
    {
        if a[at] != b[at] {
            return false;
        }
        at += 1;
    }
    assert(a@ =~= b@);
    true
}

/// The smallest key behind every key that begins with `prefix`: the prefix
/// without its trailing `0xff` bytes, its last byte one higher. There is
/// none where nothing is left of the prefix.
pub open spec fn prefix_successor(prefix: Seq<u8>) -> Option<Seq<u8>>
    decreases prefix.len(),
{
    if prefix.len() == 0 {
        None
    } else if prefix.last() == 0xff {
        prefix_successor(prefix.drop_last())
    } else {
        Some(prefix.drop_last().push((prefix.last() + 1) as u8))
    }
}

/// A key that does not begin with `prefix` is ordered against a
/// continuation of it as against `prefix` itself.
proof fn lemma_outside_prefix(prefix: Seq<u8>, more: Seq<u8>, key: Seq<u8>)
    requires
        !prefix.is_prefix_of(key),
    ensures
        before(key, prefix + more) == before(key, prefix),
    decreases prefix.len(),
{
    if prefix.len() == 0 {
        assert(prefix.is_prefix_of(key));
    } else if key.len() > 0 {
        assert((prefix + more).skip(1) =~= prefix.skip(1) + more);
        if key[0] == prefix[0] {
            if prefix.skip(1).is_prefix_of(key.skip(1)) {
                assert forall|i: int| 0 <= i < prefix.len() implies prefix[i] == key[i] by {
                    if i > 0 {
                        assert(prefix.skip(1)[i - 1] == key.skip(1)[i - 1]);
                    }
                }
                assert(prefix =~= key.subrange(0, prefix.len() as int));
            }
            lemma_outside_prefix(prefix.skip(1), more, key.skip(1));
        }
    }
}

/// The keys from `prefix` on and before its successor are exactly those
/// that begin with `prefix`, the key equal to it included.
pub proof fn law_prefix_range_is_the_prefix(prefix: Seq<u8>, key: Seq<u8>)
    ensures
        prefix.is_prefix_of(key) <==> at_most(prefix, key) && match prefix_successor(prefix) {
            Some(end) => before(key, end),
            None => true,
        },
    decreases prefix.len(),
{
    if prefix.len() == 0 {
        assert(prefix =~= key.subrange(0, 0));
    } else {
        let (head, last) = (prefix.drop_last(), prefix.last());
        let n = head.len() as int;
        assert(prefix =~= head + seq![last]);
        law_prefix_range_is_the_prefix(head, key);
        if head.is_prefix_of(key) {
            let rest = key.skip(n);
            assert(head.take(n) =~= head);
            assert(key.take(n) =~= head);
            assert(prefix.take(n) =~= head);
            assert(prefix.skip(n) =~= seq![last]);
            lemma_common_bytes(key, prefix, n);
            lemma_single_byte(rest, last);
            assert(prefix.is_prefix_of(key) <==> rest.len() > 0 && rest[0] == last) by {
                if rest.len() > 0 && rest[0] == last {
                    assert(prefix =~= key.subrange(0, n + 1));
                }
            }
            if last != 0xff {
                let next = (last + 1) as u8;
                let end = head.push(next);
                assert(end.take(n) =~= head);
                assert(end.skip(n) =~= seq![next]);
                lemma_common_bytes(key, end, n);
                lemma_single_byte(rest, next);
            }
        } else {
            lemma_outside_prefix(head, seq![last], key);
            if prefix.is_prefix_of(key) {
                assert(head =~= key.subrange(0, n));
            }
            if last != 0xff {
                let next = (last + 1) as u8;
                assert(head.push(next) =~= head + seq![next]);
                lemma_outside_prefix(head, seq![next], key);
            }
        }
    }
}

/// Only a prefix of nothing but `0xff` bytes has no successor.
pub proof fn law_no_successor_means_all_ones(prefix: Seq<u8>)
    ensures
        prefix_successor(prefix) is None <==> forall|i: int|
            0 <= i < prefix.len() ==> prefix[i] == 0xff,
    decreases prefix.len(),
{
    if prefix.len() > 0 {
        let head = prefix.drop_last();
        law_no_successor_means_all_ones(head);
        if prefix.last() == 0xff {
            if forall|i: int| 0 <= i < head.len() ==> head[i] == 0xff {
                assert forall|i: int| 0 <= i < prefix.len() implies prefix[i] == 0xff by {
                    if i < head.len() {
                        assert(head[i] == prefix[i]);
                    }
                }
            } else {
                let i = choose|i: int| 0 <= i < head.len() && head[i] != 0xff;
                assert(prefix[i] != 0xff);
            }
        } else {
            assert(prefix[prefix.len() - 1] != 0xff);
        }
    }
}

/// No key lies between a key and the same key with a zero byte behind it.
pub proof fn law_zero_byte_is_the_next_key(key: Seq<u8>, other: Seq<u8>)
    ensures
        before(other, key.push(0)) <==> at_most(other, key),
{
    let next = key.push(0);
    let n = key.len() as int;
    assert(next =~= key + seq![0u8]);
    if key.is_prefix_of(other) {
        assert(other.take(n) =~= key);
        assert(next.take(n) =~= key);
        assert(key.take(n) =~= key);
        lemma_common_bytes(other, next, n);
        lemma_common_bytes(key, other, n);
        assert(next.skip(n) =~= seq![0u8]);
        assert(key.skip(n) =~= Seq::<u8>::empty());
        lemma_single_byte(other.skip(n), 0);
    } else {
        lemma_outside_prefix(key, seq![0u8], other);
        lemma_total(key, other);
        if key == other {
            assert(key =~= other.subrange(0, n));
        }
    }
}

/// Where two byte strings part decides their order: at the first byte in
/// which they differ the smaller byte comes first, and a byte string comes
/// after what it continues.
pub proof fn law_first_difference_decides(a: Seq<u8>, b: Seq<u8>, n: int)
    requires
        0 <= n <= a.len(),
        n <= b.len(),
        a.take(n) == b.take(n),
    ensures
        n < a.len() && n < b.len() && a[n] != b[n] ==> (before(a, b) <==> a[n] < b[n]),
        n == a.len() ==> (before(a, b) <==> n < b.len()),
        n == b.len() ==> !before(a, b),
{
    lemma_common_bytes(a, b, n);
    if n < a.len() {
        assert(a.skip(n)[0] == a[n]);
    }
    if n < b.len() {
        assert(b.skip(n)[0] == b[n]);
    }
}

/// The order is a strict total order: of two different byte strings exactly
/// one comes before the other, none comes before itself, and it carries
/// over.
pub proof fn law_order_is_total(a: Seq<u8>, b: Seq<u8>, c: Seq<u8>)
    ensures
        !before(a, a),
        a != b ==> before(a, b) != before(b, a),
        before(a, b) && before(b, c) ==> before(a, c),
        at_most(a, b) <==> before(a, b) || a == b,
{
    lemma_irreflexive(a);
    lemma_total(a, b);
    if before(a, b) && before(b, c) {
        lemma_transitive(a, b, c);
    }
}

} // verus!
