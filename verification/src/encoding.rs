//! Big-endian integers as byte strings.

use vstd::prelude::*;

verus! {

/// The natural number that `bytes` denotes when read big-endian.
pub open spec fn be_value(bytes: Seq<u8>) -> nat
    decreases bytes.len(),
{
    if bytes.len() == 0 {
        0
    } else {
        be_value(bytes.drop_last()) * 256 + bytes.last() as nat
    }
}

/// The `len`-byte big-endian encoding of `value` (of its low `8 * len` bits
/// when it does not fit).
pub open spec fn be_bytes(value: nat, len: nat) -> Seq<u8>
    decreases len,
{
    if len == 0 {
        Seq::<u8>::empty()
    } else {
        be_bytes(value / 256, (len - 1) as nat).push((value % 256) as u8)
    }
}

/// `256^len`: the number of values that `len` bytes can encode.
pub open spec fn radix_pow(len: nat) -> nat
    decreases len,
{
    if len == 0 {
        1
    } else {
        256 * radix_pow((len - 1) as nat)
    }
}

/// An encoding at length `len` has `len` bytes.
pub proof fn lemma_be_bytes_len(value: nat, len: nat)
    ensures
        be_bytes(value, len).len() == len,
    decreases len,
{
    if len > 0 {
        lemma_be_bytes_len(value / 256, (len - 1) as nat);
    }
}

/// Encoding the value of a byte string at its own length gives it back.
pub proof fn lemma_be_bytes_of_value(bytes: Seq<u8>)
    ensures
        be_bytes(be_value(bytes), bytes.len()) == bytes,
    decreases bytes.len(),
{
    if bytes.len() > 0 {
        let head = bytes.drop_last();
        lemma_be_bytes_of_value(head);
        assert(be_value(bytes) / 256 == be_value(head));
        assert(be_value(bytes) % 256 == bytes.last() as nat);
        assert(head.push(bytes.last()) =~= bytes);
    }
}

/// Decoding the `len`-byte encoding of a value that fits gives it back.
pub proof fn lemma_be_value_of_bytes(value: nat, len: nat)
    requires
        value < radix_pow(len),
    ensures
        be_value(be_bytes(value, len)) == value,
    decreases len,
{
    if len > 0 {
        let rest = be_bytes(value / 256, (len - 1) as nat);
        lemma_be_value_of_bytes(value / 256, (len - 1) as nat);
        assert(be_bytes(value, len).drop_last() =~= rest);
    }
}

/// Byte strings of one length with one value are equal.
pub proof fn lemma_be_value_injective(a: Seq<u8>, b: Seq<u8>)
    requires
        a.len() == b.len(),
        be_value(a) == be_value(b),
    ensures
        a == b,
{
    lemma_be_bytes_of_value(a);
    lemma_be_bytes_of_value(b);
}

/// Where two byte strings of one length agree before index `i` and differ
/// at `i`, the one with the smaller byte there has the smaller value.
pub proof fn lemma_be_value_order(a: Seq<u8>, b: Seq<u8>, i: int)
    requires
        a.len() == b.len(),
        0 <= i < a.len(),
        a.subrange(0, i) == b.subrange(0, i),
        a[i] < b[i],
    ensures
        be_value(a) < be_value(b),
    decreases a.len(),
{
    let n = a.len() as int;
    let ha = a.drop_last();
    let hb = b.drop_last();
    if i == n - 1 {
        assert(ha =~= a.subrange(0, i));
        assert(hb =~= b.subrange(0, i));
    } else {
        assert(ha.subrange(0, i) =~= a.subrange(0, i));
        assert(hb.subrange(0, i) =~= b.subrange(0, i));
        lemma_be_value_order(ha, hb, i);
    }
}

/// Whether `a` denotes a smaller number than `b`, both read big-endian and
/// of one length.
pub(crate) fn be_less(a: &[u8], b: &[u8]) -> (less: bool)
    requires
        a@.len() == b@.len(),
    ensures
        less == (be_value(a@) < be_value(b@)),
{
    let n = a.len();
    let mut i: usize = 0;
    while i < n
        invariant
            n == a@.len(),
            n == b@.len(),
            i <= n,
            a@.subrange(0, i as int) == b@.subrange(0, i as int),
        decreases n - i,
    {
        if a[i] < b[i] {
            proof {
                lemma_be_value_order(a@, b@, i as int);
            }
            return true;
        }
        if a[i] > b[i] {
            proof {
                lemma_be_value_order(b@, a@, i as int);
            }
            return false;
        }
        proof {
            assert(a@.subrange(0, i + 1) =~= a@.subrange(0, i as int).push(a@[i as int]));
            assert(b@.subrange(0, i + 1) =~= b@.subrange(0, i as int).push(b@[i as int]));
        }
        i += 1;
    }
    proof {
        assert(a@ =~= a@.subrange(0, n as int));
        assert(b@ =~= b@.subrange(0, n as int));
    }
    false
}

} // verus!
