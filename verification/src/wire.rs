//! Protocol constants and the big-endian integers that every message is built from.

use vstd::arithmetic::power::{lemma_pow1, lemma_pow_adds, pow};
use vstd::prelude::*;

verus! {

/// Size of a first message, and of one chunk together with its framing.
pub const CHUNK_SIZE: usize = 32768;

/// Framing of one chunk: type (1), chunk id (8), payload length (8).
pub const OVERHEAD: usize = 17;

/// Payload bytes that one chunk carries.
pub const PAYLOAD: u64 = 32751;

pub const MSG_ACK_OK: u8 = 20;

pub const MSG_ACK_FAIL: u8 = 44;

pub const MSG_CHUNK: u8 = 2;

pub const MSG_COMPLETION_REQUEST: u8 = 3;

pub const MSG_COMPLETION_RESPONSE: u8 = 23;

pub const MSG_HASH_REQUEST: u8 = 4;

pub const MSG_HASH_RESPONSE: u8 = 24;

/// The number that `s` spells, most significant byte first.
pub open spec fn be_value(s: Seq<u8>) -> nat
    decreases s.len(),
{
    if s.len() == 0 {
        0
    } else {
        be_value(s.drop_last()) * 256 + s.last() as nat
    }
}

/// The `n` low bytes of `v`, most significant byte first.
pub open spec fn be_bytes(v: nat, n: nat) -> Seq<u8>
    decreases n,
{
    if n == 0 {
        Seq::empty()
    } else {
        be_bytes(v / 256, (n - 1) as nat).push((v % 256) as u8)
    }
}

/// The two's complement reading of a 64-bit pattern.
pub open spec fn signed(v: nat) -> int {
    if v < 0x8000_0000_0000_0000 {
        v as int
    } else {
        v - 0x1_0000_0000_0000_0000
    }
}

/// The 64-bit two's complement pattern of `v`.
pub open spec fn unsigned(v: i64) -> nat {
    if v >= 0 {
        v as nat
    } else {
        (v + 0x1_0000_0000_0000_0000) as nat
    }
}

pub broadcast proof fn lemma_be_bytes_len(v: nat, n: nat)
    ensures
        #[trigger] be_bytes(v, n).len() == n,
    decreases n,
{
    if n > 0 {
        lemma_be_bytes_len(v / 256, (n - 1) as nat);
    }
}

/// Every byte string spells a number below 256 to the power of its length.
pub proof fn lemma_be_value_bound(s: Seq<u8>)
    ensures
        be_value(s) < pow(256, s.len()),
    decreases s.len(),
{
    if s.len() == 0 {
        lemma_pow0();
    } else {
        lemma_be_value_bound(s.drop_last());
        lemma_pow_adds(256, (s.len() - 1) as nat, 1);
        lemma_pow1(256);
    }
}

proof fn lemma_pow0()
    ensures
        pow(256, 0) == 1,
{
    vstd::arithmetic::power::lemma_pow0(256);
}

/// The powers of 256 by which numbers on the wire are bounded.
pub proof fn lemma_powers()
    ensures
        pow(256, 1) == 0x100,
        pow(256, 2) == 0x1_0000,
        pow(256, 4) == 0x1_0000_0000,
        pow(256, 8) == 0x1_0000_0000_0000_0000,
{
    lemma_pow1(256);
    lemma_pow_adds(256, 1, 1);
    lemma_pow_adds(256, 2, 2);
    lemma_pow_adds(256, 4, 4);
    assert(0x1_0000int * 0x1_0000 == 0x1_0000_0000) by (nonlinear_arith);
    assert(0x1_0000_0000int * 0x1_0000_0000 == 0x1_0000_0000_0000_0000) by (nonlinear_arith);
}

/// Writing a number that fits and reading it back gives the number.
pub proof fn lemma_be_roundtrip(v: nat, n: nat)
    requires
        v < pow(256, n),
    ensures
        be_value(be_bytes(v, n)) == v,
    decreases n,
{
    if n == 0 {
        lemma_pow0();
    } else {
        let m = (n - 1) as nat;
        lemma_pow_adds(256, m, 1);
        lemma_pow1(256);
        assert(v / 256 < pow(256, m)) by (nonlinear_arith)
            requires
                v < pow(256, m) * 256,
        ;
        lemma_be_roundtrip(v / 256, m);
        let s = be_bytes(v, n);
        assert(s.drop_last() =~= be_bytes(v / 256, m));
    }
}

/// Reading a byte string and writing the number at the same width gives the byte string.
pub proof fn lemma_be_roundtrip_bytes(s: Seq<u8>)
    ensures
        be_bytes(be_value(s), s.len()) == s,
    decreases s.len(),
{
    if s.len() > 0 {
        let rest = s.drop_last();
        lemma_be_roundtrip_bytes(rest);
        let v = be_value(s);
        assert(v / 256 == be_value(rest) && v % 256 == s.last() as nat);
        assert(be_bytes(v, s.len()) =~= rest.push(s.last()));
        assert(rest.push(s.last()) =~= s);
    } else {
        assert(be_bytes(be_value(s), 0) =~= s);
    }
}

/// The 64-bit integers survive the wire: what is written in eight bytes reads back unchanged.
pub proof fn lemma_u64_roundtrip(v: u64)
    ensures
        be_value(be_bytes(v as nat, 8)) == v,
{
    lemma_powers();
    lemma_be_roundtrip(v as nat, 8);
}

/// The 16-bit integers survive the wire.
pub proof fn lemma_u16_roundtrip(v: u16)
    ensures
        be_value(be_bytes(v as nat, 2)) == v,
{
    lemma_powers();
    lemma_be_roundtrip(v as nat, 2);
}

/// The 32-bit integers survive the wire.
pub proof fn lemma_u32_roundtrip(v: u32)
    ensures
        be_value(be_bytes(v as nat, 4)) == v,
{
    lemma_powers();
    lemma_be_roundtrip(v as nat, 4);
}

/// The signed 64-bit integers survive the wire.
pub proof fn lemma_i64_roundtrip(v: i64)
    ensures
        signed(be_value(be_bytes(unsigned(v), 8))) == v,
{
    lemma_powers();
    lemma_be_roundtrip(unsigned(v), 8);
}

proof fn lemma_be_step(s: Seq<u8>, i: int)
    requires
        0 <= i < s.len(),
    ensures
        be_value(s.take(i + 1)) == be_value(s.take(i)) * 256 + s[i] as nat,
{
    assert(s.take(i + 1).drop_last() =~= s.take(i));
}

/// Reads up to eight bytes as one big-endian number.
pub fn read_be(bytes: &[u8]) -> (v: u64)
    requires
        bytes@.len() <= 8,
    ensures
        v == be_value(bytes@),
        v < pow(256, bytes@.len()),
{
    let mut v: u64 = 0;
    let mut i: usize = 0;
    assert(bytes@.take(0) =~= Seq::<u8>::empty());
    while i < bytes.len()
        invariant
            i <= bytes@.len() <= 8,
            v == be_value(bytes@.take(i as int)),
        decreases bytes@.len() - i,
    {
        proof {
            let head = bytes@.take(i as int);
            lemma_be_value_bound(head);
            vstd::arithmetic::power::lemma_pow_increases(256, i as nat, 7);
            lemma_powers();
            lemma_pow_adds(256, 4, 2);
            lemma_pow_adds(256, 6, 1);
            assert(0x1_0000_0000int * 0x1_0000 == 0x1_0000_0000_0000) by (nonlinear_arith);
            assert(0x1_0000_0000_0000int * 0x100 == 0x100_0000_0000_0000) by (nonlinear_arith);
            lemma_be_step(bytes@, i as int);
        }
        v = v * 256 + bytes[i] as u64;
        i += 1;
    }
    assert(bytes@.take(bytes@.len() as int) =~= bytes@);
    proof {
        lemma_be_value_bound(bytes@);
    }
    v
}

/// Reads eight bytes of `bytes` from `at`.
pub fn read_u64(bytes: &[u8], at: usize) -> (v: u64)
    requires
        at + 8 <= bytes.len(),
    ensures
        v == be_value(bytes@.subrange(at as int, at + 8)),
{
    read_be(vstd::slice::slice_subrange(bytes, at, at + 8))
}

/// Reads two bytes of `bytes` from `at`.
pub fn read_u16(bytes: &[u8], at: usize) -> (v: u16)
    requires
        at + 2 <= bytes.len(),
    ensures
        v == be_value(bytes@.subrange(at as int, at + 2)),
{
    proof {
        lemma_powers();
    }
    read_be(vstd::slice::slice_subrange(bytes, at, at + 2)) as u16
}

/// Reads four bytes of `bytes` from `at`.
pub fn read_u32(bytes: &[u8], at: usize) -> (v: u32)
    requires
        at + 4 <= bytes.len(),
    ensures
        v == be_value(bytes@.subrange(at as int, at + 4)),
{
    proof {
        lemma_powers();
    }
    read_be(vstd::slice::slice_subrange(bytes, at, at + 4)) as u32
}

/// Reads eight bytes of `bytes` from `at` as a two's complement number.
pub fn read_i64(bytes: &[u8], at: usize) -> (v: i64)
    requires
        at + 8 <= bytes.len(),
    ensures
        v == signed(be_value(bytes@.subrange(at as int, at + 8))),
{
    let raw: u64 = read_u64(bytes, at);
    if raw < 0x8000_0000_0000_0000 {
        raw as i64
    } else {
        (raw - 0x8000_0000_0000_0000) as i64 + i64::MIN
    }
}

/// Appends the `n` low bytes of `v`, most significant first.
pub fn push_be(out: &mut Vec<u8>, v: u64, n: usize)
    ensures
        final(out)@ == old(out)@ + be_bytes(v as nat, n as nat),
    decreases n,
{
    if n > 0 {
        push_be(out, v / 256, n - 1);
        out.push((v % 256) as u8);
    }
    assert(out@ =~= old(out)@ + be_bytes(v as nat, n as nat));
}

/// Appends `v` in eight bytes.
pub fn push_u64(out: &mut Vec<u8>, v: u64)
    ensures
        final(out)@ == old(out)@ + be_bytes(v as nat, 8),
{
    push_be(out, v, 8);
}

/// Appends `v` in eight bytes, in two's complement.
pub fn push_i64(out: &mut Vec<u8>, v: i64)
    ensures
        final(out)@ == old(out)@ + be_bytes(unsigned(v), 8),
{
    let raw: u64 = if v >= 0 {
        v as u64
    } else {
        (v - i64::MIN) as u64 + 0x8000_0000_0000_0000
    };
    push_be(out, raw, 8);
}

/// Appends all of `bytes`.
pub fn push_all(out: &mut Vec<u8>, bytes: &[u8])
    ensures
        final(out)@ == old(out)@ + bytes@,
{
    out.extend_from_slice(bytes);
    assert(out@ =~= old(out)@ + bytes@);
}

/// A vector of `n` zero bytes.
pub open spec fn zeros(n: nat) -> Seq<u8> {
    Seq::new(n, |i: int| 0u8)
}

/// Copies `bytes[from..to]`.
pub fn copy_range(bytes: &[u8], from: usize, to: usize) -> (out: Vec<u8>)
    requires
        from <= to <= bytes@.len(),
    ensures
        out@ == bytes@.subrange(from as int, to as int),
{
    vstd::slice::slice_to_vec(vstd::slice::slice_subrange(bytes, from, to))
}

} // verus!
