//! Byte strings as an ordered key-value store sees them: their order, the
//! encoding of composite keys, and the records that a range of keys selects.
use vstd::prelude::*;
use vstd::utf8::*;

use crate::models::Order;

verus! {

/// The longest component of a composite key, in bytes: its length is stored in two bytes.
pub const MAX_COMPONENT: usize = 0xFFFF;

/// The `len` low-order bytes of `n`, most significant byte first.
pub open spec fn big_endian(n: nat, len: nat) -> Seq<u8>
    decreases len,
{
    if len == 0 {
        Seq::empty()
    } else {
        big_endian(n / 256, (len - 1) as nat).push((n % 256) as u8)
    }
}

/// A component of a composite key, preceded by its length in two bytes.
pub open spec fn length_prefixed(component: Seq<u8>) -> Seq<u8> {
    big_endian(component.len(), 2) + component
}

/// The key of a pair: the first component with its length, then the eight bytes of `id`.
pub open spec fn pair_key(first: Seq<u8>, id: u64) -> Seq<u8> {
    length_prefixed(first) + big_endian(id as nat, 8)
}

/// The key of a triple: the first two components with their lengths, then the eight bytes of `id`.
pub open spec fn triple_key(first: Seq<u8>, second: Seq<u8>, id: u64) -> Seq<u8> {
    length_prefixed(first) + length_prefixed(second) + big_endian(id as nat, 8)
}

/// Whether a text can be a component of a composite key.
pub open spec fn fits(text: Seq<char>) -> bool {
    encode_utf8(text).len() <= MAX_COMPONENT
}

/// Tells whether a text can be a component of a composite key.
pub fn fits_key(text: &str) -> (is_fitting: bool)
    ensures
        is_fitting == fits(text@),
{
    text.as_bytes().len() <= MAX_COMPONENT
}

/// Lexicographic order: `a` comes strictly before `b`.
pub open spec fn precedes(a: Seq<u8>, b: Seq<u8>) -> bool
    decreases a.len(),
{
    if b.len() == 0 {
        false
    } else if a.len() == 0 {
        true
    } else {
        a[0] < b[0] || (a[0] == b[0] && precedes(a.drop_first(), b.drop_first()))
    }
}

/// `bytes` with its last byte incremented; a last byte of 255 becomes 0 and
/// carries into the byte before it.
pub open spec fn increment(bytes: Seq<u8>) -> Seq<u8>
    decreases bytes.len(),
{
    if bytes.len() == 0 {
        bytes
    } else if bytes.last() == 255 {
        increment(bytes.drop_last()).push(0)
    } else {
        bytes.drop_last().push((bytes.last() + 1) as u8)
    }
}

/// Counts up the last byte of `bytes`.
pub fn count_up(bytes: Vec<u8>) -> (counted: Vec<u8>)
    ensures
        counted@ == increment(bytes@),
{
    let mut counted = bytes;
    let ghost all = bytes@;
    let mut left: usize = counted.len();
    assert(all.take(left as int) =~= all);
    while left > 0
        invariant_except_break
            increment(all) == increment(all.take(left as int)) + counted@.skip(left as int),
            counted@.take(left as int) == all.take(left as int),
        invariant
            left <= all.len(),
            counted@.len() == all.len(),
        ensures
            counted@ == increment(all),
        decreases left,
    {
        left -= 1;
        let ghost before = counted@;
        let ghost head = all.take(left as int);
        let byte: u8 = counted[left];
        proof {
            assert(all.take(left + 1).drop_last() =~= head);
            assert(all.take(left + 1).last() == before.take(left + 1)[left as int]);
            assert(byte == all[left as int]);
        }
        if byte == 255 {
            counted.set(left, 0);
            proof {
                assert(increment(head).push(0) + before.skip(left + 1) =~= increment(head)
                    + counted@.skip(left as int));
                assert(counted@.take(left as int) =~= head) by {
                    assert forall|i: int| 0 <= i < left implies #[trigger] counted@[i] == all[i] by {
                        assert(before.take(left + 1)[i] == all.take(left + 1)[i]);
                    }
                }
                if left == 0 {
                    assert(head =~= Seq::empty());
                    assert(increment(head) + counted@.skip(0) =~= counted@);
                }
            }
        } else {
            counted.set(left, byte + 1);
            proof {
                assert forall|i: int| 0 <= i < left implies #[trigger] counted@[i] == all[i] by {
                    assert(before.take(left + 1)[i] == all.take(left + 1)[i]);
                }
                assert(head.push((byte + 1) as u8) + before.skip(left + 1) =~= counted@);
            }
            break;
        }
    }
    counted
}

/// One end of a range of keys.
#[verifier::ext_equal]
pub enum Edge {
    Inclusive(Seq<u8>),
    Exclusive(Seq<u8>),
}

/// Whether `key` lies on or above the lower end `lower`; no end admits every key.
pub open spec fn above(lower: Option<Edge>, key: Seq<u8>) -> bool {
    match lower {
        None => true,
        Some(Edge::Inclusive(edge)) => !precedes(key, edge),
        Some(Edge::Exclusive(edge)) => precedes(edge, key),
    }
}

/// Whether `key` lies on or below the upper end `upper`; no end admits every key.
pub open spec fn below(upper: Option<Edge>, key: Seq<u8>) -> bool {
    match upper {
        None => true,
        Some(Edge::Inclusive(edge)) => !precedes(edge, key),
        Some(Edge::Exclusive(edge)) => precedes(key, edge),
    }
}

/// A stored record: its key within a namespace, and its value.
pub type Record = (Seq<u8>, Seq<u8>);

/// Whether a walk in the given order comes to `a` before it comes to `b`.
pub open spec fn comes_before(order: Order, a: Seq<u8>, b: Seq<u8>) -> bool {
    match order {
        Order::Ascending => precedes(a, b),
        Order::Descending => precedes(b, a),
    }
}

/// Whether the keys stand in the given order, each of them once.
pub open spec fn sorted(keys: Seq<Seq<u8>>, order: Order) -> bool {
    forall|i: int, j: int|
        0 <= i < j < keys.len() ==> comes_before(order, #[trigger] keys[i], #[trigger] keys[j])
}

/// The records whose keys lie between the two ends, in ascending order of
/// keys, or, for `Order::Descending`, in descending order.
pub open spec fn between(
    records: Seq<Record>,
    lower: Option<Edge>,
    upper: Option<Edge>,
    order: Order,
) -> Seq<Record> {
    let selected = records.filter(|record: Record| above(lower, record.0) && below(upper, record.0));
    match order {
        Order::Ascending => selected,
        Order::Descending => selected.reverse(),
    }
}

/// The keys of `records`, in their order.
pub open spec fn keys_of(records: Seq<Record>) -> Seq<Seq<u8>> {
    records.map_values(|record: Record| record.0)
}

/// The value of the record under `key`, if there is one.
pub open spec fn lookup(records: Seq<Record>, key: Seq<u8>) -> Option<Seq<u8>> {
    if exists|i: int| 0 <= i < records.len() && #[trigger] records[i].0 == key {
        let i = choose|i: int| 0 <= i < records.len() && #[trigger] records[i].0 == key;
        Some(records[i].1)
    } else {
        None
    }
}

/// What a filter keeps of a sequence stands in the sequence, and passes the filter.
pub proof fn lemma_filtered<A>(items: Seq<A>, keep: spec_fn(A) -> bool, i: int)
    requires
        0 <= i < items.filter(keep).len(),
    ensures
        items.contains(items.filter(keep)[i]),
        keep(items.filter(keep)[i]),
    decreases items.len(),
{
    reveal(Seq::filter);
    let rest = items.drop_last().filter(keep);
    if i < rest.len() {
        lemma_filtered(items.drop_last(), keep, i);
        let j = choose|j: int| 0 <= j < items.len() - 1 && items.drop_last()[j] == rest[i];
        assert(items[j] == rest[i]);
    } else {
        assert(items[items.len() - 1] == items.filter(keep)[i]);
    }
}

} // verus!
