//! The layouts of stored weights: which bits of a block make up which weight.

use vstd::prelude::*;

use crate::bytes;
use crate::model::half;
use crate::model::term::Term;

verus! {

/// The number of weights and of bytes in one block of a quantized format.
pub open spec fn quantized_layout(code: u32) -> Option<(nat, nat)> {
    match code {
        2 => Some((32, 18)),
        3 => Some((32, 20)),
        6 => Some((32, 22)),
        7 => Some((32, 24)),
        8 => Some((32, 34)),
        10 => Some((256, 84)),
        11 => Some((256, 110)),
        12 => Some((256, 144)),
        13 => Some((256, 176)),
        14 => Some((256, 210)),
        15 => Some((256, 292)),
        _ => None,
    }
}

/// The number of weights and of bytes in one block of a format that can be
/// decoded.
pub open spec fn layout_of(code: u32) -> Option<(nat, nat)> {
    match code {
        0 => Some((1, 4)),
        1 => Some((1, 2)),
        30 => Some((1, 2)),
        _ => quantized_layout(code),
    }
}

/// The half-precision number at a place, as the bits of a single-precision
/// one.
pub open spec fn half_at(data: Seq<u8>, at: int) -> u32 {
    half::single_of((data[at] + 256 * data[at + 1]) as u16) as u32
}

/// The lower or the upper half of a byte.
pub open spec fn nibble(byte: u8, upper: bool) -> int {
    if upper {
        byte as int / 16
    } else {
        byte as int % 16
    }
}

/// The value of bit `index` of a byte.
pub open spec fn place(index: int) -> int {
    if index == 0 {
        1
    } else if index == 1 {
        2
    } else if index == 2 {
        4
    } else if index == 3 {
        8
    } else if index == 4 {
        16
    } else if index == 5 {
        32
    } else if index == 6 {
        64
    } else {
        128
    }
}

/// Bit `index` of a byte.
pub open spec fn bit(byte: u8, index: int) -> int {
    (byte as int / place(index)) % 2
}

/// The pair of bits of a byte that starts at bit `index`.
pub open spec fn bit_pair(byte: u8, index: int) -> int {
    (byte as int / place(index)) % 4
}

/// The two's complement value of a byte.
pub open spec fn signed(byte: u8) -> int {
    bytes::signed(byte as nat, 8)
}

/// F32: a single-precision number.
pub open spec fn f32_at(data: Seq<u8>, at: int) -> Term {
    Term::Plain { bits: bytes::le_value(data.subrange(at, at + 4)) as u32 }
}

/// F16: a half-precision number.
pub open spec fn f16_at(data: Seq<u8>, at: int) -> Term {
    Term::Plain { bits: half_at(data, at) }
}

/// BF16: the upper half of a single-precision number.
pub open spec fn bf16_at(data: Seq<u8>, at: int) -> Term {
    Term::Plain { bits: ((data[at] + 256 * data[at + 1]) * 65_536) as u32 }
}

/// Q4_0: a scale, and four bits for each weight, centered on eight. The lower
/// halves of the bytes hold the first half of the weights.
pub open spec fn q4_0_at(data: Seq<u8>, at: int, offset: int) -> Term {
    Term::Centered {
        quantized: (nibble(data[at + 2 + offset % 16], offset >= 16) - 8) as i32,
        scale: half_at(data, at),
    }
}

/// Q4_1: a scale and a minimum, and four bits for each weight.
pub open spec fn q4_1_at(data: Seq<u8>, at: int, offset: int) -> Term {
    Term::Raised {
        scale: half_at(data, at),
        quantized: nibble(data[at + 4 + offset % 16], offset >= 16) as i32,
        minimum: half_at(data, at + 2),
    }
}

/// Q5_0: a scale, a fifth bit for each weight, and the four lower ones. The
/// weights are centered on sixteen.
pub open spec fn q5_0_at(data: Seq<u8>, at: int, offset: int) -> Term {
    let low = nibble(data[at + 6 + offset % 16], offset >= 16);
    let high = bit(data[at + 2 + offset / 8], offset % 8);
    Term::Centered { quantized: (low + 16 * high - 16) as i32, scale: half_at(data, at) }
}

/// Q5_1: a scale and a minimum, a fifth bit for each weight, and the four lower
/// ones.
pub open spec fn q5_1_at(data: Seq<u8>, at: int, offset: int) -> Term {
    let low = nibble(data[at + 8 + offset % 16], offset >= 16);
    let high = bit(data[at + 4 + offset / 8], offset % 8);
    Term::Raised {
        scale: half_at(data, at),
        quantized: (low + 16 * high) as i32,
        minimum: half_at(data, at + 2),
    }
}

/// Q8_0: a scale, and a signed byte for each weight.
pub open spec fn q8_0_at(data: Seq<u8>, at: int, offset: int) -> Term {
    Term::Centered { quantized: signed(data[at + 2 + offset]) as i32, scale: half_at(data, at) }
}

/// Q2_K: for each group of sixteen weights a scale and a minimum of four bits,
/// two bits for each weight, and what the scales and minimums are multiplied
/// with.
pub open spec fn q2_k_at(data: Seq<u8>, at: int, offset: int) -> Term {
    let group = offset / 16;
    let scales = data[at + group];
    let packed = data[at + 16 + (group / 8) * 32 + (group % 2) * 16 + offset % 16];
    Term::GroupedLess {
        scale: half_at(data, at + 80),
        group: nibble(scales, false) as i32,
        quantized: bit_pair(packed, ((group % 8) / 2) * 2) as i32,
        minimum: half_at(data, at + 82),
        group_minimum: nibble(scales, true) as i32,
    }
}

/// The six-bit scale of a group, whose lower and upper bits are stored apart.
pub open spec fn q3_k_scale(data: Seq<u8>, at: int, group: int) -> int {
    let low = nibble(data[at + 96 + group % 8], group >= 8);
    let high = bit_pair(data[at + 104 + group / 4], (group % 4) * 2);
    low + 16 * high - 32
}

/// Q3_K: a third bit for each weight, the two lower ones, for each group of
/// sixteen weights a scale of six bits, and what the scales are multiplied
/// with. A third bit that is not set takes four off.
pub open spec fn q3_k_at(data: Seq<u8>, at: int, offset: int) -> Term {
    let group = offset / 16;
    let half = (group % 2) * 16 + offset % 16;
    let low = bit_pair(data[at + 32 + (group / 8) * 32 + half], ((group % 8) / 2) * 2);
    let high = bit(data[at + half], group / 2);
    Term::Grouped {
        scale: half_at(data, at + 108),
        group: q3_k_scale(data, at, group) as i32,
        quantized: (low - 4 * (1 - high)) as i32,
    }
}

/// The six-bit scale of a group of 32 weights.
pub open spec fn k_scale(data: Seq<u8>, at: int, group: int) -> int {
    if group < 4 {
        data[at + group] as int % 64
    } else {
        nibble(data[at + group + 4], false) + (data[at + group - 4] as int / 64) * 16
    }
}

/// The six-bit minimum of a group of 32 weights.
pub open spec fn k_minimum(data: Seq<u8>, at: int, group: int) -> int {
    if group < 4 {
        data[at + group + 4] as int % 64
    } else {
        nibble(data[at + group + 4], true) + (data[at + group] as int / 64) * 16
    }
}

/// Q4_K: what scales and minimums are multiplied with, for each group of 32
/// weights a scale and a minimum of six bits, and four bits for each weight.
pub open spec fn q4_k_at(data: Seq<u8>, at: int, offset: int) -> Term {
    let group = offset / 32;
    Term::GroupedLess {
        scale: half_at(data, at),
        group: k_scale(data, at + 4, group) as i32,
        quantized: nibble(
            data[at + 16 + (group / 2) * 32 + offset % 32],
            group % 2 == 1,
        ) as i32,
        minimum: half_at(data, at + 2),
        group_minimum: k_minimum(data, at + 4, group) as i32,
    }
}

/// Q5_K: as Q4_K, with a fifth bit for each weight before the four lower ones.
pub open spec fn q5_k_at(data: Seq<u8>, at: int, offset: int) -> Term {
    let group = offset / 32;
    let low = nibble(data[at + 48 + (group / 2) * 32 + offset % 32], group % 2 == 1);
    let high = bit(data[at + 16 + offset % 32], group);
    Term::GroupedLess {
        scale: half_at(data, at),
        group: k_scale(data, at + 4, group) as i32,
        quantized: (low + 16 * high) as i32,
        minimum: half_at(data, at + 2),
        group_minimum: k_minimum(data, at + 4, group) as i32,
    }
}

/// Q6_K: the four lower and the two upper bits of each weight, for each group of
/// sixteen weights a signed scale, and what the scales are multiplied with. The
/// weights are centered on 32.
pub open spec fn q6_k_at(data: Seq<u8>, at: int, offset: int) -> Term {
    let chunk = offset / 128;
    let lane = (offset % 128) / 32;
    let l = offset % 32;
    let low = nibble(data[at + chunk * 64 + (lane % 2) * 32 + l], lane >= 2);
    let high = bit_pair(data[at + 128 + chunk * 32 + l], lane * 2);
    Term::Grouped {
        scale: half_at(data, at + 208),
        group: signed(data[at + 192 + chunk * 8 + lane * 2 + l / 16]) as i32,
        quantized: (low + 16 * high - 32) as i32,
    }
}

/// Q8_K: a single-precision scale, and a signed byte for each weight.
pub open spec fn q8_k_at(data: Seq<u8>, at: int, offset: int) -> Term {
    Term::Scaled {
        scale: bytes::le_value(data.subrange(at, at + 4)) as u32,
        quantized: signed(data[at + 4 + offset]) as i32,
    }
}

/// Weight number `offset` of the block that starts at `at`.
#[verifier::opaque]
pub open spec fn block_term(code: u32, data: Seq<u8>, at: int, offset: int) -> Term {
    match code {
        0 => f32_at(data, at),
        1 => f16_at(data, at),
        30 => bf16_at(data, at),
        2 => q4_0_at(data, at, offset),
        3 => q4_1_at(data, at, offset),
        6 => q5_0_at(data, at, offset),
        7 => q5_1_at(data, at, offset),
        8 => q8_0_at(data, at, offset),
        10 => q2_k_at(data, at, offset),
        11 => q3_k_at(data, at, offset),
        12 => q4_k_at(data, at, offset),
        13 => q5_k_at(data, at, offset),
        14 => q6_k_at(data, at, offset),
        _ => q8_k_at(data, at, offset),
    }
}

/// Weight number `index` of a tensor.
pub open spec fn term_at(code: u32, data: Seq<u8>, index: int) -> Term {
    let (values, size) = layout_of(code)->0;
    block_term(code, data, (index / values as int) * size, index % values as int)
}

fn read_half(data: &[u8], at: usize) -> (single: u32)
    requires
        at + 2 <= data@.len(),
    ensures
        single == half_at(data@, at as int),
{
    assert(data.len() == data@.len());
    let bits: u16 = data[at] as u16 + 256 * data[at + 1] as u16;
    half::f16_to_f32(bits)
}

fn read_word(data: &[u8], at: usize) -> (word: u32)
    requires
        at + 4 <= data@.len(),
    ensures
        word == bytes::le_value(data@.subrange(at as int, at + 4)),
{
    assert(data.len() == data@.len());
    let chunk = &data[at..at + 4];
    proof {
        bytes::lemma_le_value_bound(chunk@);
        assert(bytes::scale(4) == 4_294_967_296) by {
            reveal_with_fuel(bytes::scale, 5);
        }
    }
    bytes::read_le(chunk) as u32
}

fn read_nibble(byte: u8, upper: bool) -> (value: i32)
    ensures
        value == nibble(byte, upper),
        0 <= value < 16,
{
    if upper {
        byte as i32 / 16
    } else {
        byte as i32 % 16
    }
}

fn read_place(index: usize) -> (value: i32)
    ensures
        value == place(index as int),
        1 <= value <= 128,
{
    match index {
        0 => 1,
        1 => 2,
        2 => 4,
        3 => 8,
        4 => 16,
        5 => 32,
        6 => 64,
        _ => 128,
    }
}

fn read_bit(byte: u8, index: usize) -> (value: i32)
    ensures
        value == bit(byte, index as int),
        0 <= value < 2,
{
    (byte as i32 / read_place(index)) % 2
}

fn read_bit_pair(byte: u8, index: usize) -> (value: i32)
    ensures
        value == bit_pair(byte, index as int),
        0 <= value < 4,
{
    (byte as i32 / read_place(index)) % 4
}

fn read_signed(byte: u8) -> (value: i32)
    ensures
        value == signed(byte),
{
    bytes::signed_byte(byte) as i32
}

/// Reads a four-bit weight around eight.
fn q4_0_term(data: &[u8], at: usize, offset: usize) -> (term: Term)
    requires
        at + 18 <= data@.len(),
        offset < 32,
    ensures
        term == q4_0_at(data@, at as int, offset as int),
{
    assert(data.len() == data@.len());
    let quantized: i32 = read_nibble(data[at + 2 + offset % 16], offset >= 16);
    Term::Centered { quantized: quantized - 8, scale: read_half(data, at) }
}

/// Reads a four-bit weight above a minimum.
fn q4_1_term(data: &[u8], at: usize, offset: usize) -> (term: Term)
    requires
        at + 20 <= data@.len(),
        offset < 32,
    ensures
        term == q4_1_at(data@, at as int, offset as int),
{
    assert(data.len() == data@.len());
    Term::Raised {
        scale: read_half(data, at),
        quantized: read_nibble(data[at + 4 + offset % 16], offset >= 16),
        minimum: read_half(data, at + 2),
    }
}

/// Reads a five-bit weight around sixteen.
fn q5_0_term(data: &[u8], at: usize, offset: usize) -> (term: Term)
    requires
        at + 22 <= data@.len(),
        offset < 32,
    ensures
        term == q5_0_at(data@, at as int, offset as int),
{
    assert(data.len() == data@.len());
    let low: i32 = read_nibble(data[at + 6 + offset % 16], offset >= 16);
    let high: i32 = read_bit(data[at + 2 + offset / 8], offset % 8);
    Term::Centered { quantized: low + 16 * high - 16, scale: read_half(data, at) }
}

/// Reads a five-bit weight above a minimum.
fn q5_1_term(data: &[u8], at: usize, offset: usize) -> (term: Term)
    requires
        at + 24 <= data@.len(),
        offset < 32,
    ensures
        term == q5_1_at(data@, at as int, offset as int),
{
    assert(data.len() == data@.len());
    let low: i32 = read_nibble(data[at + 8 + offset % 16], offset >= 16);
    let high: i32 = read_bit(data[at + 4 + offset / 8], offset % 8);
    Term::Raised {
        scale: read_half(data, at),
        quantized: low + 16 * high,
        minimum: read_half(data, at + 2),
    }
}

/// Reads an eight-bit weight.
fn q8_0_term(data: &[u8], at: usize, offset: usize) -> (term: Term)
    requires
        at + 34 <= data@.len(),
        offset < 32,
    ensures
        term == q8_0_at(data@, at as int, offset as int),
{
    assert(data.len() == data@.len());
    Term::Centered {
        quantized: read_signed(data[at + 2 + offset]),
        scale: read_half(data, at),
    }
}

/// Reads a two-bit weight of a group of sixteen.
fn q2_k_term(data: &[u8], at: usize, offset: usize) -> (term: Term)
    requires
        at + 84 <= data@.len(),
        offset < 256,
    ensures
        term == q2_k_at(data@, at as int, offset as int),
{
    assert(data.len() == data@.len());
    let group: usize = offset / 16;
    let scales = data[at + group];
    let packed = data[at + 16 + (group / 8) * 32 + (group % 2) * 16 + offset % 16];
    Term::GroupedLess {
        scale: read_half(data, at + 80),
        group: read_nibble(scales, false),
        quantized: read_bit_pair(packed, ((group % 8) / 2) * 2),
        minimum: read_half(data, at + 82),
        group_minimum: read_nibble(scales, true),
    }
}

/// Reads a three-bit weight of a group of sixteen.
fn q3_k_term(data: &[u8], at: usize, offset: usize) -> (term: Term)
    requires
        at + 110 <= data@.len(),
        offset < 256,
    ensures
        term == q3_k_at(data@, at as int, offset as int),
{
    assert(data.len() == data@.len());
    let group: usize = offset / 16;
    let half: usize = (group % 2) * 16 + offset % 16;
    let scale_low: i32 = read_nibble(data[at + 96 + group % 8], group >= 8);
    let scale_high: i32 = read_bit_pair(data[at + 104 + group / 4], (group % 4) * 2);
    let low: i32 = read_bit_pair(
        data[at + 32 + (group / 8) * 32 + half],
        ((group % 8) / 2) * 2,
    );
    let high: i32 = read_bit(data[at + half], group / 2);
    Term::Grouped {
        scale: read_half(data, at + 108),
        group: scale_low + 16 * scale_high - 32,
        quantized: low - 4 * (1 - high),
    }
}

/// Reads the scale and the minimum of a group of 32 weights.
fn q4_k_scale_min(data: &[u8], at: usize, group: usize) -> (pair: (i32, i32))
    requires
        at + 12 <= data@.len(),
        group < 8,
    ensures
        pair.0 == k_scale(data@, at as int, group as int),
        pair.1 == k_minimum(data@, at as int, group as int),
{
    assert(data.len() == data@.len());
    if group < 4 {
        (data[at + group] as i32 % 64, data[at + group + 4] as i32 % 64)
    } else {
        let shared = data[at + group + 4];
        (
            read_nibble(shared, false) + (data[at + group - 4] as i32 / 64) * 16,
            read_nibble(shared, true) + (data[at + group] as i32 / 64) * 16,
        )
    }
}

/// Reads a four-bit weight of a group of 32.
fn q4_k_term(data: &[u8], at: usize, offset: usize) -> (term: Term)
    requires
        at + 144 <= data@.len(),
        offset < 256,
    ensures
        term == q4_k_at(data@, at as int, offset as int),
{
    assert(data.len() == data@.len());
    let group: usize = offset / 32;
    let (scale, minimum) = q4_k_scale_min(data, at + 4, group);
    Term::GroupedLess {
        scale: read_half(data, at),
        group: scale,
        quantized: read_nibble(data[at + 16 + (group / 2) * 32 + offset % 32], group % 2 == 1),
        minimum: read_half(data, at + 2),
        group_minimum: minimum,
    }
}

/// Reads a five-bit weight of a group of 32.
fn q5_k_term(data: &[u8], at: usize, offset: usize) -> (term: Term)
    requires
        at + 176 <= data@.len(),
        offset < 256,
    ensures
        term == q5_k_at(data@, at as int, offset as int),
{
    assert(data.len() == data@.len());
    let group: usize = offset / 32;
    let (scale, minimum) = q4_k_scale_min(data, at + 4, group);
    let low: i32 = read_nibble(data[at + 48 + (group / 2) * 32 + offset % 32], group % 2 == 1);
    let high: i32 = read_bit(data[at + 16 + offset % 32], group);
    Term::GroupedLess {
        scale: read_half(data, at),
        group: scale,
        quantized: low + 16 * high,
        minimum: read_half(data, at + 2),
        group_minimum: minimum,
    }
}

/// Reads a six-bit weight of a group of sixteen.
fn q6_k_term(data: &[u8], at: usize, offset: usize) -> (term: Term)
    requires
        at + 210 <= data@.len(),
        offset < 256,
    ensures
        term == q6_k_at(data@, at as int, offset as int),
{
    assert(data.len() == data@.len());
    let chunk: usize = offset / 128;
    let lane: usize = (offset % 128) / 32;
    let l: usize = offset % 32;
    let low: i32 = read_nibble(data[at + chunk * 64 + (lane % 2) * 32 + l], lane >= 2);
    let high: i32 = read_bit_pair(data[at + 128 + chunk * 32 + l], lane * 2);
    Term::Grouped {
        scale: read_half(data, at + 208),
        group: read_signed(data[at + 192 + chunk * 8 + lane * 2 + l / 16]),
        quantized: low + 16 * high - 32,
    }
}

/// Reads an eight-bit weight of a long block.
fn q8_k_term(data: &[u8], at: usize, offset: usize) -> (term: Term)
    requires
        at + 292 <= data@.len(),
        offset < 256,
    ensures
        term == q8_k_at(data@, at as int, offset as int),
{
    assert(data.len() == data@.len());
    Term::Scaled { scale: read_word(data, at), quantized: read_signed(data[at + 4 + offset]) }
}

/// Reads weight number `offset` of the block that starts at `at`.
pub(crate) fn read_term(code: u32, data: &[u8], at: usize, offset: usize) -> (term: Term)
    requires
        layout_of(code) matches Some(layout) && at + layout.1 <= data@.len() && offset < layout.0,
    ensures
        term == block_term(code, data@, at as int, offset as int),
{
    reveal(block_term);
    assert(data.len() == data@.len());
    match code {
        0 => Term::Plain { bits: read_word(data, at) },
        1 => Term::Plain { bits: read_half(data, at) },
        30 => Term::Plain { bits: (data[at] as u32 + 256 * data[at + 1] as u32) * 65_536 },
        2 => q4_0_term(data, at, offset),
        3 => q4_1_term(data, at, offset),
        6 => q5_0_term(data, at, offset),
        7 => q5_1_term(data, at, offset),
        8 => q8_0_term(data, at, offset),
        10 => q2_k_term(data, at, offset),
        11 => q3_k_term(data, at, offset),
        12 => q4_k_term(data, at, offset),
        13 => q5_k_term(data, at, offset),
        14 => q6_k_term(data, at, offset),
        _ => q8_k_term(data, at, offset),
    }
}

/// Returns the number of weights and of bytes in one block of a quantized
/// format.
pub(crate) fn quantized_block_layout(code: u32) -> (layout: Option<(usize, usize)>)
    ensures
        match layout {
            Some(layout) => quantized_layout(code) == Some((layout.0 as nat, layout.1 as nat)),
            None => quantized_layout(code) is None,
        },
{
    match code {
        2 => Some((32, 18)),
        3 => Some((32, 20)),
        6 => Some((32, 22)),
        7 => Some((32, 24)),
        8 => Some((32, 34)),
        10 => Some((256, 84)),
        11 => Some((256, 110)),
        12 => Some((256, 144)),
        13 => Some((256, 176)),
        14 => Some((256, 210)),
        15 => Some((256, 292)),
        _ => None,
    }
}

/// Returns the number of weights and of bytes in one block of a format that
/// can be decoded.
pub(crate) fn block_layout(code: u32) -> (layout: Option<(usize, usize)>)
    ensures
        match layout {
            Some(layout) => layout_of(code) == Some((layout.0 as nat, layout.1 as nat)),
            None => layout_of(code) is None,
        },
{
    match code {
        0 => Some((1, 4)),
        1 => Some((1, 2)),
        30 => Some((1, 2)),
        _ => quantized_block_layout(code),
    }
}

} // verus!
