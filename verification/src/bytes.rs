//! Little-endian numbers.

use vstd::prelude::*;

verus! {

/// The number that a little-endian byte sequence stands for.
pub open spec fn le_value(bytes: Seq<u8>) -> nat
    decreases bytes.len(),
{
    if bytes.len() == 0 {
        0
    } else {
        bytes[0] as nat + 256 * le_value(bytes.drop_first())
    }
}

pub proof fn lemma_le_value_push(bytes: Seq<u8>, byte: u8)
    ensures
        le_value(bytes.push(byte)) == le_value(bytes) + byte as nat * scale(bytes.len()),
    decreases bytes.len(),
{
    if bytes.len() == 0 {
        assert(bytes.push(byte).drop_first() =~= bytes);
        assert(le_value(bytes) == 0);
        let weight = scale(bytes.len());
        assert(byte as nat * weight == byte) by (nonlinear_arith)
            requires
                weight == 1,
        ;
    } else {
        lemma_le_value_push(bytes.drop_first(), byte);
        assert(bytes.push(byte).drop_first() =~= bytes.drop_first().push(byte));
        let rest = bytes.drop_first();
        let weight = scale(rest.len());
        let wider = scale(bytes.len());
        assert(256 * (byte as nat * weight) == byte as nat * wider) by (nonlinear_arith)
            requires
                wider == 256 * weight,
        ;
    }
}

/// The weight of the byte at position `index`.
pub open spec fn scale(index: nat) -> nat
    decreases index,
{
    if index == 0 {
        1
    } else {
        256 * scale((index - 1) as nat)
    }
}

pub proof fn lemma_le_value_bound(bytes: Seq<u8>)
    ensures
        le_value(bytes) < scale(bytes.len()),
    decreases bytes.len(),
{
    if bytes.len() > 0 {
        lemma_le_value_bound(bytes.drop_first());
    }
}

pub(crate) proof fn lemma_scale_values()
    ensures
        scale(0) == 1,
        scale(1) == 0x100,
        scale(2) == 0x1_0000,
        scale(3) == 0x100_0000,
        scale(4) == 0x1_0000_0000,
        scale(5) == 0x100_0000_0000,
        scale(6) == 0x1_0000_0000_0000,
        scale(7) == 0x100_0000_0000_0000,
        scale(8) == 0x1_0000_0000_0000_0000,
{
    reveal_with_fuel(scale, 9);
}

/// Reads at most eight bytes as a little-endian number.
pub fn read_le(bytes: &[u8]) -> (value: u64)
    requires
        bytes@.len() <= 8,
    ensures
        value == le_value(bytes@),
        bytes@.len() == 1 ==> value <= u8::MAX,
        bytes@.len() == 2 ==> value <= u16::MAX,
        bytes@.len() == 4 ==> value <= u32::MAX,
{
    let mut value: u64 = 0;
    let mut weight: u64 = 1;
    let mut i: usize = 0;
    proof {
        lemma_scale_values();
        assert(bytes@.take(0) =~= seq![]);
    }
    while i < bytes.len()
        invariant
            i <= bytes@.len() <= 8,
            value == le_value(bytes@.take(i as int)),
            value < scale(i as nat),
            i < bytes@.len() ==> weight == scale(i as nat),
        decreases bytes@.len() - i,
    {
        proof {
            lemma_scale_values();
            lemma_le_value_push(bytes@.take(i as int), bytes@[i as int]);
            assert(bytes@.take(i as int).push(bytes@[i as int]) =~= bytes@.take(i + 1));
            lemma_le_value_bound(bytes@.take(i + 1));
            assert(scale((i + 1) as nat) == 256 * scale(i as nat));
            assert(scale((i + 1) as nat) <= scale(8)) by {
                if i == 0 {
                } else if i == 1 {
                } else if i == 2 {
                } else if i == 3 {
                } else if i == 4 {
                } else if i == 5 {
                } else if i == 6 {
                } else {
                }
            }
        }
        let byte: u64 = bytes[i] as u64;
        assert(byte * weight <= 255 * weight) by (nonlinear_arith)
            requires
                byte <= 255,
        ;
        value = value + byte * weight;
        i += 1;
        if i < bytes.len() {
            weight = weight * 256;
        }
    }
    assert(bytes@.take(bytes@.len() as int) =~= bytes@);
    proof {
        lemma_scale_values();
    }
    value
}

/// The two's complement reading of a `bits`-bit number.
pub open spec fn signed(value: nat, bits: nat) -> int {
    if bits == 8 {
        if value < 0x80 { value as int } else { value - 0x100 }
    } else if bits == 16 {
        if value < 0x8000 { value as int } else { value - 0x1_0000 }
    } else if bits == 32 {
        if value < 0x8000_0000 { value as int } else { value - 0x1_0000_0000 }
    } else {
        if value < 0x8000_0000_0000_0000 { value as int } else { value - 0x1_0000_0000_0000_0000 }
    }
}

/// Reads a byte as a two's complement number.
pub fn signed_byte(value: u8) -> (result: i8)
    ensures
        result == signed(value as nat, 8),
{
    assert(value < 0x80 ==> value as i8 == value) by (bit_vector);
    assert(value >= 0x80 ==> value as i8 == value - 0x100) by (bit_vector);
    value as i8
}

/// The `width` little-endian bytes of a number.
pub open spec fn le_bytes(value: nat, width: nat) -> Seq<u8>
    decreases width,
{
    if width == 0 {
        seq![]
    } else {
        seq![(value % 256) as u8] + le_bytes(value / 256, (width - 1) as nat)
    }
}

/// A number that fits is read back from its bytes.
pub proof fn lemma_le_bytes_value(value: nat, width: nat)
    requires
        value < scale(width),
    ensures
        le_value(le_bytes(value, width)) == value,
        le_bytes(value, width).len() == width,
    decreases width,
{
    if width > 0 {
        let tail = le_bytes(value / 256, (width - 1) as nat);
        lemma_le_bytes_value(value / 256, (width - 1) as nat);
        assert(le_bytes(value, width).drop_first() =~= tail);
    }
}

/// Appends bytes.
pub fn push_bytes(out: &mut Vec<u8>, bytes: &[u8])
    ensures
        final(out)@ == old(out)@ + bytes@,
{
    let ghost start = out@;
    let mut i: usize = 0;
    while i < bytes.len()
        invariant
            i <= bytes@.len(),
            out@ == start + bytes@.take(i as int),
        decreases bytes@.len() - i,
    {
        out.push(bytes[i]);
        i += 1;
        assert(out@ =~= start + bytes@.take(i as int));
    }
    assert(out@ =~= start + bytes@);
}

/// Appends the eight little-endian bytes of a number.
pub fn push_le_bytes(out: &mut Vec<u8>, value: u64)
    ensures
        final(out)@ == old(out)@ + le_bytes(value as nat, 8),
{
    let ghost start = out@;
    let mut rest: u64 = value;
    let mut left: usize = 8;
    while left > 0
        invariant
            left <= 8,
            start + le_bytes(value as nat, 8) == out@ + le_bytes(
                rest as nat,
                left as nat,
            ),
        decreases left,
    {
        let ghost before = out@;
        let ghost tail = le_bytes((rest / 256) as nat, (left - 1) as nat);
        let byte: u8 = (rest % 256) as u8;
        out.push(byte);
        assert(out@ + tail =~= before + (seq![byte] + tail));
        rest = rest / 256;
        left = left - 1;
    }
    assert(out@ + le_bytes(rest as nat, 0) =~= out@);
}

} // verus!
