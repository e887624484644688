//! Little-endian encoding of fixed-size integers into byte buffers.
use vstd::prelude::*;

verus! {

/// The `n` low-order bytes of `v`, least significant byte first.
/// For a negative `v` these are the bytes of its two's complement.
pub open spec fn le_bytes(v: int, n: nat) -> Seq<u8>
    decreases n,
{
    if n == 0 {
        Seq::empty()
    } else {
        seq![(v % 256) as u8] + le_bytes(v / 256, (n - 1) as nat)
    }
}

/// `le_bytes(v, n)` has `n` bytes.
pub proof fn lemma_le_bytes_len(v: int, n: nat)
    ensures
        le_bytes(v, n).len() == n,
    decreases n,
{
    if n > 0 {
        lemma_le_bytes_len(v / 256, (n - 1) as nat);
    }
}

proof fn lemma_low_byte(v: u128)
    ensures
        (v & 0xff) as int == v as int % 256,
        (v >> 8u32) as int == v as int / 256,
        (v & 0xff) < 256,
{
    assert((v & 0xff) == v % 256) by (bit_vector);
    assert((v >> 8u32) == v / 256) by (bit_vector);
    assert((v & 0xff) < 256) by (bit_vector);
}

/// `v` shifted right by `i` bytes.
pub open spec fn shift_bytes(v: int, i: nat) -> int
    decreases i,
{
    if i == 0 {
        v
    } else {
        shift_bytes(v / 256, (i - 1) as nat)
    }
}

proof fn lemma_shift_step(v: int, i: nat)
    ensures
        shift_bytes(v, i + 1) == shift_bytes(v, i) / 256,
    decreases i,
{
    if i > 0 {
        lemma_shift_step(v / 256, (i - 1) as nat);
        assert(shift_bytes(v, i + 1) == shift_bytes(v / 256, i));
        assert(shift_bytes(v, i) == shift_bytes(v / 256, (i - 1) as nat));
    } else {
        assert(shift_bytes(v, 1) == shift_bytes(v / 256, 0));
    }
}

proof fn lemma_le_bytes_split(v: int, i: nat, k: nat)
    ensures
        le_bytes(v, i + k) == le_bytes(v, i) + le_bytes(shift_bytes(v, i), k),
    decreases i,
{
    if i > 0 {
        lemma_le_bytes_split(v / 256, (i - 1) as nat, k);
        assert(le_bytes(v, i + k) == seq![(v % 256) as u8] + le_bytes(v / 256, (i - 1 + k) as nat));
        assert(le_bytes(v, i + k) =~= le_bytes(v, i) + le_bytes(shift_bytes(v, i), k));
    } else {
        assert(le_bytes(v, i + k) =~= le_bytes(v, i) + le_bytes(shift_bytes(v, i), k));
    }
}

/// Appends the `n` low-order bytes of `v` to `buffer`, least significant first.
pub fn push_le_bytes(buffer: &mut Vec<u8>, v: u128, n: usize)
    ensures
        final(buffer)@ == old(buffer)@ + le_bytes(v as int, n as nat),
{
    let ghost start = buffer@;
    let mut rest = v;
    let mut i: usize = 0;
    while i < n
        invariant
            i <= n,
            rest as int == shift_bytes(v as int, i as nat),
            buffer@ == start + le_bytes(v as int, i as nat),
        decreases n - i,
    {
        proof {
            lemma_low_byte(rest);
            lemma_le_bytes_split(v as int, i as nat, 1);
            lemma_shift_step(v as int, i as nat);
            assert(le_bytes(rest as int / 256, 0) =~= Seq::<u8>::empty());
            assert(le_bytes(rest as int, 1) =~= seq![(rest as int % 256) as u8]);
        }
        let byte = (rest & 0xff) as u8;
        buffer.push(byte);
        rest = rest >> 8u32;
        i = i + 1;
        assert(buffer@ =~= start + le_bytes(v as int, i as nat));
    }
    assert(i == n);
}

/// `256` to the power `n`.
pub open spec fn pow256(n: nat) -> int
    decreases n,
{
    if n == 0 {
        1
    } else {
        256 * pow256((n - 1) as nat)
    }
}

pub proof fn lemma_le_bytes_periodic(x: int, k: int, n: nat)
    ensures
        le_bytes(x + k * pow256(n), n) == le_bytes(x, n),
    decreases n,
{
    if n > 0 {
        let m = k * pow256((n - 1) as nat);
        assert(k * pow256(n) == 256 * m) by (nonlinear_arith)
            requires
                pow256(n) == 256 * pow256((n - 1) as nat),
                m == k * pow256((n - 1) as nat),
        ;
        vstd::arithmetic::div_mod::lemma_mod_multiples_vanish(m, x, 256);
        vstd::arithmetic::div_mod::lemma_hoist_over_denominator(x, m, 256);
        assert((x + 256 * m) / 256 == x / 256 + m);
        lemma_le_bytes_periodic(x / 256, k, (n - 1) as nat);
    }
}

pub proof fn lemma_pow256_values()
    ensures
        pow256(1) == 0x100,
        pow256(2) == 0x1_0000,
        pow256(4) == 0x1_0000_0000,
        pow256(8) == 0x1_0000_0000_0000_0000,
        pow256(16) == 0x1_0000_0000_0000_0000_0000_0000_0000_0000,
{
    reveal_with_fuel(pow256, 17);
}

/// Appends `v` as one byte.
pub fn append_u8(buffer: &mut Vec<u8>, v: u8)
    ensures
        final(buffer)@ == old(buffer)@ + seq![v],
{
    push_le_bytes(buffer, v as u128, 1);
    proof {
        reveal_with_fuel(le_bytes, 2);
    }
    assert(le_bytes(v as int, 1) =~= seq![v]);
}

/// Appends the two's complement byte of `v`.
pub fn append_i8(buffer: &mut Vec<u8>, v: i8)
    ensures
        final(buffer)@ == old(buffer)@ + le_bytes(v as int, 1),
{
    proof {
        lemma_pow256_values();
        lemma_le_bytes_periodic(v as int, 1, 1);
        if v < 0 {
            assert((v as u8) as int == v as int + 256) by (bit_vector)
                requires v < 0;
        }
    }
    push_le_bytes(buffer, (v as u8) as u128, 1);
}

/// Appends `v` in little-endian byte order (2 bytes).
pub fn append_u16(buffer: &mut Vec<u8>, v: u16)
    ensures
        final(buffer)@ == old(buffer)@ + le_bytes(v as int, 2),
{
    push_le_bytes(buffer, v as u128, 2);
}

/// Appends `v` in little-endian two's complement (2 bytes).
pub fn append_i16(buffer: &mut Vec<u8>, v: i16)
    ensures
        final(buffer)@ == old(buffer)@ + le_bytes(v as int, 2),
{
    proof {
        lemma_pow256_values();
        lemma_le_bytes_periodic(v as int, 1, 2);
        if v < 0 {
            assert((v as u16) as int == v as int + 65536) by (bit_vector)
                requires v < 0;
        }
    }
    push_le_bytes(buffer, (v as u16) as u128, 2);
}

/// Appends `v` in little-endian byte order (4 bytes).
pub fn append_u32(buffer: &mut Vec<u8>, v: u32)
    ensures
        final(buffer)@ == old(buffer)@ + le_bytes(v as int, 4),
{
    push_le_bytes(buffer, v as u128, 4);
}

/// Appends `v` in little-endian two's complement (4 bytes).
pub fn append_i32(buffer: &mut Vec<u8>, v: i32)
    ensures
        final(buffer)@ == old(buffer)@ + le_bytes(v as int, 4),
{
    proof {
        lemma_pow256_values();
        lemma_le_bytes_periodic(v as int, 1, 4);
        if v < 0 {
            assert((v as u32) as int == v as int + 4294967296) by (bit_vector)
                requires v < 0;
        }
    }
    push_le_bytes(buffer, (v as u32) as u128, 4);
}

/// Appends `v` in little-endian byte order (8 bytes).
pub fn append_u64(buffer: &mut Vec<u8>, v: u64)
    ensures
        final(buffer)@ == old(buffer)@ + le_bytes(v as int, 8),
{
    push_le_bytes(buffer, v as u128, 8);
}

/// Appends `v` in little-endian two's complement (8 bytes).
pub fn append_i64(buffer: &mut Vec<u8>, v: i64)
    ensures
        final(buffer)@ == old(buffer)@ + le_bytes(v as int, 8),
{
    proof {
        lemma_pow256_values();
        lemma_le_bytes_periodic(v as int, 1, 8);
        if v < 0 {
            assert((v as u64) as int == v as int + 18446744073709551616) by (bit_vector)
                requires v < 0;
        }
    }
    push_le_bytes(buffer, (v as u64) as u128, 8);
}

/// Appends `v` in little-endian byte order (16 bytes).
pub fn append_u128(buffer: &mut Vec<u8>, v: u128)
    ensures
        final(buffer)@ == old(buffer)@ + le_bytes(v as int, 16),
{
    push_le_bytes(buffer, v, 16);
}

/// Appends `v` in little-endian two's complement (16 bytes).
pub fn append_i128(buffer: &mut Vec<u8>, v: i128)
    ensures
        final(buffer)@ == old(buffer)@ + le_bytes(v as int, 16),
{
    proof {
        lemma_pow256_values();
        lemma_le_bytes_periodic(v as int, 1, 16);
        if v < 0 {
            assert((v as u128) as int == v as int + 340282366920938463463374607431768211456) by (bit_vector)
                requires v < 0;
        }
    }
    push_le_bytes(buffer, v as u128, 16);
}

/// Appends a 32-bit float given by its IEEE 754 bit pattern (4 bytes, little-endian).
pub fn append_f32_bits(buffer: &mut Vec<u8>, bits: u32)
    ensures
        final(buffer)@ == old(buffer)@ + le_bytes(bits as int, 4),
{
    push_le_bytes(buffer, bits as u128, 4);
}

/// Appends a 64-bit float given by its IEEE 754 bit pattern (8 bytes, little-endian).
pub fn append_f64_bits(buffer: &mut Vec<u8>, bits: u64)
    ensures
        final(buffer)@ == old(buffer)@ + le_bytes(bits as int, 8),
{
    push_le_bytes(buffer, bits as u128, 8);
}


/// The unsigned value of little-endian bytes.
pub open spec fn le_unsigned(b: Seq<u8>) -> int
    decreases b.len(),
{
    if b.len() == 0 {
        0
    } else {
        b[0] as int + 256 * le_unsigned(b.drop_first())
    }
}

/// The two's complement value of little-endian bytes.
pub open spec fn le_signed(b: Seq<u8>) -> int {
    let u = le_unsigned(b);
    if 2 * u >= pow256(b.len()) {
        u - pow256(b.len())
    } else {
        u
    }
}

/// `pow256(n)` is positive.
proof fn lemma_pow256_positive(n: nat)
    ensures
        pow256(n) >= 1,
    decreases n,
{
    if n > 0 {
        lemma_pow256_positive((n - 1) as nat);
    }
}

/// Reading back the `n` bytes written for a value below `256^n` gives the value.
pub proof fn lemma_le_unsigned_round_trip(v: int, n: nat)
    requires
        0 <= v < pow256(n),
    ensures
        le_unsigned(le_bytes(v, n)) == v,
    decreases n,
{
    if n > 0 {
        let rest = le_bytes(v / 256, (n - 1) as nat);
        assert(le_bytes(v, n).drop_first() =~= rest);
        assert(v / 256 < pow256((n - 1) as nat)) by {
            assert(v < 256 * pow256((n - 1) as nat));
        }
        lemma_le_unsigned_round_trip(v / 256, (n - 1) as nat);
    }
}

/// Reading back, as a two's complement number, the `n` bytes written for a value that fits
/// in `n` signed bytes gives the value.
pub proof fn lemma_le_signed_round_trip(v: int, n: nat)
    requires
        n > 0,
        -pow256(n) <= 2 * v < pow256(n),
    ensures
        le_signed(le_bytes(v, n)) == v,
{
    lemma_le_bytes_len(v, n);
    lemma_pow256_positive(n);
    if v >= 0 {
        lemma_le_unsigned_round_trip(v, n);
    } else {
        lemma_le_bytes_periodic(v, 1, n);
        lemma_le_unsigned_round_trip(v + pow256(n), n);
    }
}

} // verus!
