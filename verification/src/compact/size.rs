//! File sizes in seven bytes of seven bits each, the lowest bits first.

use vstd::prelude::*;

use crate::compact::response::ErrorTransfer;

verus! {

/// Payload bytes that one chunk of the compact protocol carries.
pub const COMPACT_PAYLOAD: u64 = 32757;

/// The number that bytes of seven bits spell, the lowest bits first; the eighth bits say nothing.
pub open spec fn size_value(bytes: Seq<u8>) -> nat
    decreases bytes.len(),
{
    if bytes.len() == 0 {
        0
    } else {
        (bytes[0] % 128) as nat + 128 * size_value(bytes.skip(1))
    }
}

/// The `7 n` low bits of a number in `n` bytes, the lowest first.
pub open spec fn size_bytes(v: nat, n: nat) -> Seq<u8>
    decreases n,
{
    if n == 0 {
        Seq::empty()
    } else {
        seq![(v % 128) as u8] + size_bytes(v / 128, (n - 1) as nat)
    }
}

/// 128 to the power of `n`.
pub open spec fn pow128(n: nat) -> nat
    decreases n,
{
    if n == 0 {
        1
    } else {
        128 * pow128((n - 1) as nat)
    }
}

proof fn lemma_value_bound(bytes: Seq<u8>)
    ensures
        size_value(bytes) < pow128(bytes.len()),
    decreases bytes.len(),
{
    if bytes.len() > 0 {
        lemma_value_bound(bytes.skip(1));
    }
}

proof fn lemma_pow128()
    ensures
        pow128(6) == 0x400_0000_0000,
        pow128(7) == 0x2_0000_0000_0000,
{
    reveal_with_fuel(pow128, 8);
}

/// Decodes a file's size; it takes seven bytes.
pub fn decode_size(bytes: &[u8]) -> (size: Result<u64, ErrorTransfer>)
    ensures
        match size {
            Ok(v) => bytes@.len() == 7 && v == size_value(bytes@),
            Err(e) => bytes@.len() != 7 && e == ErrorTransfer::InvalidLength,
        },
{
    if bytes.len() != 7 {
        return Err(ErrorTransfer::InvalidLength);
    }
    let mut value: u64 = 0;
    let mut i: usize = 7;
    assert(bytes@.skip(7) =~= Seq::<u8>::empty());
    while i > 0
        invariant
            i <= 7,
            bytes@.len() == 7,
            value == size_value(bytes@.skip(i as int)),
        decreases i,
    {
        proof {
            let tail = bytes@.skip(i as int);
            lemma_value_bound(tail);
            lemma_pow_grows(tail.len(), 6);
            lemma_pow128();
            let more = bytes@.skip(i - 1);
            assert(more.skip(1) =~= tail);
        }
        i -= 1;
        value = (bytes[i] % 128) as u64 + 128 * value;
    }
    assert(bytes@.skip(0) =~= bytes@);
    Ok(value)
}

proof fn lemma_pow_grows(m: nat, n: nat)
    requires
        m <= n,
    ensures
        pow128(m) <= pow128(n),
    decreases n,
{
    if m < n {
        lemma_pow_grows(m, (n - 1) as nat);
    }
}

/// Encodes the low forty-nine bits of a file's size.
pub fn encode_file_size(value: u64) -> (out: [u8; 7])
    ensures
        out@ == size_bytes(value as nat, 7),
{
    let mut out: [u8; 7] = [0u8; 7];
    let mut rest: u64 = value;
    let mut i: usize = 0;
    assert(out@.take(0) + size_bytes(rest as nat, 7) =~= size_bytes(value as nat, 7));
    while i < 7
        invariant
            i <= 7,
            out@.len() == 7,
            out@.take(i as int) + size_bytes(rest as nat, (7 - i) as nat) == size_bytes(
                value as nat,
                7,
            ),
        decreases 7 - i,
    {
        let ghost before = out@;
        let ghost tail = size_bytes(rest as nat, (7 - i) as nat);
        out[i] = (rest % 128) as u8;
        proof {
            assert(out@.take(i + 1) =~= before.take(i as int).push((rest % 128) as u8));
            assert(tail =~= seq![(rest % 128) as u8] + size_bytes(
                rest as nat / 128,
                (7 - i - 1) as nat,
            ));
            assert(out@.take(i + 1) + size_bytes(rest as nat / 128, (7 - i - 1) as nat)
                =~= before.take(i as int) + tail);
        }
        rest = rest / 128;
        i += 1;
    }
    assert(out@.take(7) + size_bytes(rest as nat, 0) =~= out@);
    out
}

/// A size that fits into forty-nine bits is decoded as it was encoded.
pub proof fn sizes_are_read_back(v: u64)
    requires
        v < 0x2_0000_0000_0000,
    ensures
        size_bytes(v as nat, 7).len() == 7,
        size_value(size_bytes(v as nat, 7)) == v,
{
    lemma_pow128();
    lemma_size_roundtrip(v as nat, 7);
}

proof fn lemma_size_roundtrip(v: nat, n: nat)
    requires
        v < pow128(n),
    ensures
        size_bytes(v, n).len() == n,
        size_value(size_bytes(v, n)) == v,
    decreases n,
{
    if n > 0 {
        let m = (n - 1) as nat;
        lemma_size_roundtrip(v / 128, m);
        let s = size_bytes(v, n);
        assert(s.skip(1) =~= size_bytes(v / 128, m));
        assert(((v % 128) as u8 % 128) as nat == v % 128);
    }
}

} // verus!
