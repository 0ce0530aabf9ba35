//! CRC-16/CCITT-FALSE: polynomial `0x1021`, initial register `0xFFFF`, no bit
//! reflection and no final XOR.

use vstd::prelude::*;

verus! {

/// Generator polynomial, without its leading `x^16` term.
pub const CRC_POLY: u16 = 0x1021;

/// Register contents before the first byte is fed.
pub const CRC_INIT: u16 = 0xFFFF;

/// One clock of the shift register with a zero input bit.
pub open spec fn crc_shift(reg: u16) -> u16 {
    if reg & 0x8000 != 0 {
        (reg << 1) ^ 0x1021
    } else {
        reg << 1
    }
}

/// `n` clocks of the shift register.
pub open spec fn crc_shifts(reg: u16, n: nat) -> u16
    decreases n,
{
    if n == 0 {
        reg
    } else {
        crc_shift(crc_shifts(reg, (n - 1) as nat))
    }
}

/// The register after one more message byte, most significant bit first.
pub open spec fn crc_feed(reg: u16, byte: u8) -> u16 {
    crc_shifts(reg ^ ((byte as u16) << 8), 8)
}

/// The register after all of `data` was fed, starting from `reg`.
pub open spec fn crc16_from(reg: u16, data: Seq<u8>) -> u16
    decreases data.len(),
{
    if data.len() == 0 {
        reg
    } else {
        crc_feed(crc16_from(reg, data.drop_last()), data.last())
    }
}

/// CRC-16/CCITT-FALSE of `data`.
pub open spec fn crc16_spec(data: Seq<u8>) -> u16 {
    crc16_from(0xFFFF, data)
}

/// Feeds one byte into the register.
pub fn crc16_update(reg: u16, byte: u8) -> (next: u16)
    ensures
        next == crc_feed(reg, byte),
{
    let mut cur: u16 = reg ^ ((byte as u16) << 8);
    let mut k: u8 = 0;
    while k < 8
        invariant
            k <= 8,
            cur == crc_shifts(reg ^ ((byte as u16) << 8), k as nat),
        decreases 8 - k,
    {
        if cur & 0x8000 != 0 {
            cur = (cur << 1) ^ 0x1021;
        } else {
            cur = cur << 1;
        }
        k = k + 1;
    }
    cur
}

/// Computes the CRC-16/CCITT-FALSE checksum of `data`.
pub fn crc16(data: &[u8]) -> (sum: u16)
    ensures
        sum == crc16_spec(data@),
{
    let mut reg: u16 = CRC_INIT;
    let mut i: usize = 0;
    while i < data.len()
        invariant
            i <= data.len(),
            reg == crc16_from(0xFFFF, data@.subrange(0, i as int)),
        decreases data.len() - i,
    {
        assert(data@.subrange(0, i + 1).drop_last() =~= data@.subrange(0, i as int));
        reg = crc16_update(reg, data[i]);
        i = i + 1;
    }
    assert(data@.subrange(0, i as int) =~= data@);
    reg
}

proof fn lemma_shift_xor(a: u16, b: u16)
    by (bit_vector)
    ensures
        crc_shift(a ^ b) == crc_shift(a) ^ crc_shift(b),
{
}

proof fn lemma_shift_keeps_nonzero(a: u16)
    by (bit_vector)
    requires
        a != 0,
    ensures
        crc_shift(a) != 0,
{
}

proof fn lemma_xor_zero_iff_equal(a: u16, b: u16)
    by (bit_vector)
    ensures
        a ^ b == 0 <==> a == b,
{
}

proof fn lemma_xor_cancels(a: u16, b: u16, c: u16)
    by (bit_vector)
    ensures
        (a ^ c) ^ (b ^ c) == a ^ b,
{
}

proof fn lemma_high_byte_distinct(x: u8, y: u8)
    by (bit_vector)
    requires
        x != y,
    ensures
        (x as u16) << 8 != (y as u16) << 8,
{
}

/// Clocking the register distributes over XOR.
pub proof fn lemma_shifts_xor(a: u16, b: u16, n: nat)
    ensures
        crc_shifts(a ^ b, n) == crc_shifts(a, n) ^ crc_shifts(b, n),
    decreases n,
{
    if n > 0 {
        lemma_shifts_xor(a, b, (n - 1) as nat);
        lemma_shift_xor(crc_shifts(a, (n - 1) as nat), crc_shifts(b, (n - 1) as nat));
    }
}

/// Clocking the register never turns a non-zero register into zero: the
/// generator polynomial has a non-zero constant term.
pub proof fn lemma_shifts_keep_nonzero(a: u16, n: nat)
    requires
        a != 0,
    ensures
        crc_shifts(a, n) != 0,
    decreases n,
{
    if n > 0 {
        lemma_shifts_keep_nonzero(a, (n - 1) as nat);
        lemma_shift_keeps_nonzero(crc_shifts(a, (n - 1) as nat));
    }
}

/// Clocking the register is injective.
pub proof fn lemma_shifts_injective(a: u16, b: u16, n: nat)
    requires
        a != b,
    ensures
        crc_shifts(a, n) != crc_shifts(b, n),
{
    lemma_xor_zero_iff_equal(a, b);
    lemma_shifts_keep_nonzero(a ^ b, n);
    lemma_shifts_xor(a, b, n);
    lemma_xor_zero_iff_equal(crc_shifts(a, n), crc_shifts(b, n));
}

/// Feeding the same byte into two different registers leaves them different.
pub proof fn lemma_feed_injective_in_register(a: u16, b: u16, byte: u8)
    requires
        a != b,
    ensures
        crc_feed(a, byte) != crc_feed(b, byte),
{
    let c: u16 = (byte as u16) << 8;
    lemma_xor_cancels(a, b, c);
    lemma_xor_zero_iff_equal(a, b);
    lemma_xor_zero_iff_equal(a ^ c, b ^ c);
    lemma_shifts_injective(a ^ c, b ^ c, 8);
}

/// Feeding two different bytes into the same register gives different
/// registers.
pub proof fn lemma_feed_injective_in_byte(reg: u16, x: u8, y: u8)
    requires
        x != y,
    ensures
        crc_feed(reg, x) != crc_feed(reg, y),
{
    let cx: u16 = (x as u16) << 8;
    let cy: u16 = (y as u16) << 8;
    lemma_high_byte_distinct(x, y);
    lemma_xor_cancels(cx, cy, reg);
    lemma_xor_zero_iff_equal(cx, cy);
    lemma_xor_zero_iff_equal(cx ^ reg, cy ^ reg);
    assert(reg ^ cx == cx ^ reg && reg ^ cy == cy ^ reg) by (bit_vector);
    lemma_shifts_injective(reg ^ cx, reg ^ cy, 8);
}

/// Two messages of one length that differ in exactly one byte never share a
/// checksum, whatever the register they start from. A single flipped bit is
/// the special case in which the two bytes differ in one bit.
pub proof fn lemma_crc_detects_single_byte_change(reg: u16, a: Seq<u8>, b: Seq<u8>, at: int)
    requires
        a.len() == b.len(),
        0 <= at < a.len(),
        a[at] != b[at],
        forall|j: int| 0 <= j < a.len() && j != at ==> a[j] == b[j],
    ensures
        crc16_from(reg, a) != crc16_from(reg, b),
    decreases a.len(),
{
    if at == a.len() - 1 {
        assert(a.drop_last() =~= b.drop_last());
        lemma_feed_injective_in_byte(crc16_from(reg, a.drop_last()), a.last(), b.last());
    } else {
        lemma_crc_detects_single_byte_change(reg, a.drop_last(), b.drop_last(), at);
        lemma_feed_injective_in_register(
            crc16_from(reg, a.drop_last()),
            crc16_from(reg, b.drop_last()),
            a.last(),
        );
    }
}

} // verus!
