//! The order of byte strings, and of the keys that are made of them.
use vstd::prelude::*;
use vstd::utf8::*;

use crate::bytes;

verus! {

/// Whether two byte strings differ at a place that both of them have.
pub open spec fn diverge(a: Seq<u8>, b: Seq<u8>) -> bool {
    exists|i: int| 0 <= i < a.len() && i < b.len() && #[trigger] a[i] != #[trigger] b[i]
}

/// No byte string comes before itself.
pub proof fn lemma_irreflexive(a: Seq<u8>)
    ensures
        !bytes::precedes(a, a),
    decreases a.len(),
{
    if a.len() > 0 {
        lemma_irreflexive(a.drop_first());
    }
}

/// What comes before something comes before everything after that.
pub proof fn lemma_transitive(a: Seq<u8>, b: Seq<u8>, c: Seq<u8>)
    requires
        bytes::precedes(a, b),
        bytes::precedes(b, c),
    ensures
        bytes::precedes(a, c),
    decreases a.len(),
{
    if a.len() > 0 && a[0] == b[0] && b[0] == c[0] {
        lemma_transitive(a.drop_first(), b.drop_first(), c.drop_first());
    }
}

/// Of two different byte strings exactly one comes before the other.
pub proof fn lemma_total(a: Seq<u8>, b: Seq<u8>)
    ensures
        a == b || bytes::precedes(a, b) || bytes::precedes(b, a),
        !(bytes::precedes(a, b) && bytes::precedes(b, a)),
        a == b ==> !bytes::precedes(a, b),
    decreases a.len(),
{
    if a.len() > 0 && b.len() > 0 {
        lemma_total(a.drop_first(), b.drop_first());
        if a[0] == b[0] && a.drop_first() == b.drop_first() {
            assert(a =~= seq![a[0]] + a.drop_first());
            assert(b =~= seq![b[0]] + b.drop_first());
        }
    } else {
        assert(a.len() == 0 && b.len() == 0 ==> a =~= b);
    }
}

/// Behind the place where two byte strings differ, nothing decides which comes first.
pub proof fn lemma_diverged(a: Seq<u8>, b: Seq<u8>, x: Seq<u8>, y: Seq<u8>)
    requires
        diverge(a, b),
    ensures
        bytes::precedes(a + x, b + y) == bytes::precedes(a, b),
        diverge(a + x, b + y),
    decreases a.len(),
{
    let i = choose|i: int| 0 <= i < a.len() && i < b.len() && #[trigger] a[i] != #[trigger] b[i];
    assert((a + x)[i] != (b + y)[i]);
    assert((a + x).drop_first() =~= a.drop_first() + x);
    assert((b + y).drop_first() =~= b.drop_first() + y);
    if a[0] == b[0] {
        assert(a.drop_first()[i - 1] != b.drop_first()[i - 1]);
        lemma_diverged(a.drop_first(), b.drop_first(), x, y);
    }
}

/// What two byte strings begin with in common does not decide which comes first.
pub proof fn lemma_common_prefix(prefix: Seq<u8>, a: Seq<u8>, b: Seq<u8>)
    ensures
        bytes::precedes(prefix + a, prefix + b) == bytes::precedes(a, b),
    decreases prefix.len(),
{
    if prefix.len() > 0 {
        assert((prefix + a).drop_first() =~= prefix.drop_first() + a);
        assert((prefix + b).drop_first() =~= prefix.drop_first() + b);
        lemma_common_prefix(prefix.drop_first(), a, b);
    } else {
        assert(prefix + a =~= a);
        assert(prefix + b =~= b);
    }
}

/// A byte string comes before everything that goes on from it.
pub proof fn lemma_extension(a: Seq<u8>, x: Seq<u8>)
    ensures
        !bytes::precedes(a + x, a),
        x.len() > 0 ==> bytes::precedes(a, a + x),
{
    lemma_common_prefix(a, x, Seq::empty());
    lemma_common_prefix(a, Seq::empty(), x);
    assert(a + Seq::<u8>::empty() =~= a);
}

/// Different byte strings of one length diverge.
pub proof fn lemma_same_length(a: Seq<u8>, b: Seq<u8>)
    requires
        a.len() == b.len(),
        a != b,
    ensures
        diverge(a, b),
{
    if !diverge(a, b) {
        assert(a =~= b);
    }
}

/// Of two byte strings with one more byte each, the byte decides where the
/// strings are equal.
pub proof fn lemma_push(a: Seq<u8>, b: Seq<u8>, x: u8, y: u8)
    requires
        a.len() == b.len(),
    ensures
        bytes::precedes(a.push(x), b.push(y)) == (bytes::precedes(a, b) || (a == b && x < y)),
{
    assert(a.push(x) =~= a + seq![x]);
    assert(b.push(y) =~= b + seq![y]);
    if a == b {
        lemma_common_prefix(a, seq![x], seq![y]);
        lemma_irreflexive(a);
        assert(!bytes::precedes(seq![x].drop_first(), seq![y].drop_first()));
    } else {
        lemma_same_length(a, b);
        lemma_diverged(a, b, seq![x], seq![y]);
    }
}

/// Whether `len` bytes can hold the number `n`.
pub open spec fn holds(n: nat, len: nat) -> bool
    decreases len,
{
    if len == 0 {
        n == 0
    } else {
        holds(n / 256, (len - 1) as nat)
    }
}

/// Numbers of `len` bytes stand in the order of the numbers.
pub proof fn lemma_big_endian(m: nat, n: nat, len: nat)
    requires
        holds(m, len),
        holds(n, len),
    ensures
        bytes::big_endian(m, len).len() == len,
        bytes::big_endian(n, len).len() == len,
        bytes::precedes(bytes::big_endian(m, len), bytes::big_endian(n, len)) == (m < n),
        (bytes::big_endian(m, len) == bytes::big_endian(n, len)) == (m == n),
    decreases len,
{
    if len > 0 {
        let a = bytes::big_endian(m / 256, (len - 1) as nat);
        let b = bytes::big_endian(n / 256, (len - 1) as nat);
        lemma_big_endian(m / 256, n / 256, (len - 1) as nat);
        lemma_push(a, b, (m % 256) as u8, (n % 256) as u8);
        if a.push((m % 256) as u8) == b.push((n % 256) as u8) {
            assert(a =~= a.push((m % 256) as u8).drop_last());
            assert(b =~= b.push((n % 256) as u8).drop_last());
            assert(a.push((m % 256) as u8).last() == b.push((n % 256) as u8).last());
        }
    }
}

/// The width of a machine integer holds its values.
pub proof fn lemma_holds(n: nat)
    ensures
        n < 0x100 ==> holds(n, 1),
        n < 0x1_0000 ==> holds(n, 2),
        n < 0x1_0000_0000_0000_0000 ==> holds(n, 8),
        n < 0x1_0000_0000_0000_0000_0000_0000_0000_0000 ==> holds(n, 16),
{
    reveal_with_fuel(holds, 17);
}

/// Components of keys are equal or diverge, if their lengths are given with them.
pub proof fn lemma_length_prefixed(a: Seq<u8>, b: Seq<u8>)
    requires
        a.len() <= bytes::MAX_COMPONENT,
        b.len() <= bytes::MAX_COMPONENT,
    ensures
        bytes::length_prefixed(a).len() == a.len() + 2,
        a != b ==> diverge(bytes::length_prefixed(a), bytes::length_prefixed(b)),
        (bytes::length_prefixed(a) == bytes::length_prefixed(b)) == (a == b),
        bytes::precedes(bytes::length_prefixed(a), bytes::length_prefixed(b)) == (a.len() < b.len()
            || (a.len() == b.len() && bytes::precedes(a, b))),
{
    let m = bytes::big_endian(a.len(), 2);
    let n = bytes::big_endian(b.len(), 2);
    lemma_holds(a.len());
    lemma_holds(b.len());
    lemma_big_endian(a.len(), b.len(), 2);
    if a.len() == b.len() {
        lemma_common_prefix(m, a, b);
        if a != b {
            lemma_same_length(a, b);
            let i = choose|i: int|
                0 <= i < a.len() && i < b.len() && #[trigger] a[i] != #[trigger] b[i];
            assert((m + a)[i + 2] != (n + b)[i + 2]);
        }
    } else {
        lemma_same_length(m, n);
        lemma_diverged(m, n, a, b);
    }
}

/// Below the increment of a byte string comes what begins with no more than
/// it, and nothing else that is as long as it.
pub proof fn lemma_increment(s: Seq<u8>, t: Seq<u8>)
    requires
        exists|i: int| 0 <= i < s.len() && #[trigger] s[i] != 255,
        t.len() >= s.len(),
    ensures
        bytes::increment(s).len() == s.len(),
        bytes::precedes(t, bytes::increment(s)) == !bytes::precedes(s, t.take(s.len() as int)),
    decreases s.len(),
{
    let n = s.len() as int;
    let head = s.drop_last();
    let lead = t.take(n - 1);
    let rest = t.skip(n);
    let next = bytes::increment(head);
    assert(s =~= head.push(s.last()));
    assert(t.take(n) =~= lead.push(t[n - 1]));
    assert(t =~= lead.push(t[n - 1]) + rest);
    lemma_total(head, lead);
    lemma_push(head, lead, s.last(), t[n - 1]);
    if s.last() == 255 {
        let i = choose|i: int| 0 <= i < s.len() && #[trigger] s[i] != 255;
        assert(head[i] != 255);
        lemma_increment(head, lead);
        assert(lead.take(n - 1) =~= lead);
        lemma_increment(head, next);
        assert(next.take(n - 1) =~= next);
        lemma_irreflexive(next);
        lemma_below(lead, next, t[n - 1], 0, rest);
    } else {
        lemma_below(lead, head, t[n - 1], (s.last() + 1) as u8, rest);
    }
}

/// What follows a byte string of the same length does not bring it below the other.
proof fn lemma_below(a: Seq<u8>, b: Seq<u8>, x: u8, y: u8, rest: Seq<u8>)
    requires
        a.len() == b.len(),
    ensures
        bytes::precedes(a.push(x) + rest, b.push(y)) == (bytes::precedes(a, b) || (a == b && x < y)),
{
    let low = a.push(x);
    let high = b.push(y);
    lemma_push(a, b, x, y);
    if low == high {
        lemma_extension(low, rest);
        lemma_irreflexive(low);
    } else {
        lemma_same_length(low, high);
        lemma_diverged(low, high, rest, Seq::empty());
        assert(high + Seq::<u8>::empty() =~= high);
    }
}

/// Below the increment of one of a number of byte strings that are equal or
/// diverge comes what begins with no more than it.
pub proof fn lemma_increment_head(g: Seq<u8>, h: Seq<u8>, x: Seq<u8>)
    requires
        g == h || diverge(g, h),
        g.len() > 0 && g.last() != 255 || g.len() == h.len() && exists|i: int|
            0 <= i < g.len() && #[trigger] g[i] != 255,
    ensures
        bytes::precedes(h + x, bytes::increment(g)) == !bytes::precedes(g, h),
{
    let n = g.len() as int;
    lemma_total(g, h);
    if h.len() < n {
        let head = g.drop_last();
        let i = choose|i: int| 0 <= i < g.len() && i < h.len() && #[trigger] g[i] != #[trigger] h[i];
        assert(h[i] != head[i]);
        let next = seq![(g.last() + 1) as u8];
        assert(bytes::increment(g) =~= head + next);
        assert(g =~= head + seq![g.last()]);
        assert(h =~= h + Seq::empty());
        lemma_diverged(h, head, x, next);
        lemma_diverged(h, head, Seq::empty(), seq![g.last()]);
    } else {
        assert(g.last() != 255 ==> g[n - 1] != 255);
        lemma_increment(g, h + x);
        assert((h + x).take(n) =~= h.take(n));
        if g != h {
            let i = choose|i: int|
                0 <= i < g.len() && i < h.len() && #[trigger] g[i] != #[trigger] h[i];
            assert(g[i] != h.take(n)[i]);
            assert(h =~= h.take(n) + h.skip(n));
            assert(g =~= g + Seq::empty());
            lemma_diverged(g, h.take(n), Seq::empty(), h.skip(n));
        } else {
            assert(h.take(n) =~= g);
        }
    }
}

/// Keys with the same number of leading bytes stand in the order of those,
/// and then in the order of the contract numbers.
pub proof fn lemma_key_order(g: Seq<u8>, i: u64, h: Seq<u8>, j: u64)
    requires
        g == h || diverge(g, h),
    ensures
        bytes::precedes(
            g + bytes::big_endian(i as nat, 8),
            h + bytes::big_endian(j as nat, 8),
        ) == (bytes::precedes(g, h) || (g == h && i < j)),
        bytes::precedes(g + bytes::big_endian(i as nat, 8), h) == bytes::precedes(g, h),
{
    let x = bytes::big_endian(i as nat, 8);
    let y = bytes::big_endian(j as nat, 8);
    lemma_holds(i as nat);
    lemma_holds(j as nat);
    lemma_big_endian(i as nat, j as nat, 8);
    if g == h {
        lemma_common_prefix(g, x, y);
        lemma_irreflexive(g);
        lemma_extension(g, x);
    } else {
        lemma_diverged(g, h, x, y);
        lemma_diverged(g, h, x, Seq::empty());
        assert(h + Seq::<u8>::empty() =~= h);
    }
}

/// No text ends in a byte of 255.
pub proof fn lemma_text_end(text: Seq<char>)
    ensures
        encode_utf8(text).len() == 0 || encode_utf8(text).last() != 255,
{
    encode_utf8_valid_utf8(text);
    if encode_utf8(text).len() > 0 {
        valid_utf8_last(encode_utf8(text));
        assert(is_continuation_byte(encode_utf8(text).last()) || is_leading_byte_width_1(
            encode_utf8(text).last(),
        ));
    }
}

/// Different texts have different bytes.
pub proof fn lemma_texts_differ(a: Seq<char>, b: Seq<char>)
    requires
        encode_utf8(a) == encode_utf8(b),
    ensures
        a == b,
{
    encode_utf8_decode_utf8(a);
    encode_utf8_decode_utf8(b);
}

} // verus!
