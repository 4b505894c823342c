//! 256-bit words stored big-endian in 32 bytes, used as bitmaps over tick chunks.

use vstd::prelude::*;

verus! {

use crate::constants::{MAX_TICK, MIN_TICK, TICKS_PER_CHUNK};

/// Bit `k` (0 = least significant) of a byte.
pub open spec fn byte_bit(b: u8, k: u8) -> bool {
    (b >> k) & 1u8 == 1u8
}

/// Bit `i` of a big-endian 256-bit word: byte 0 holds bits 255..248, byte 31 bits 7..0.
pub open spec fn word_bit(word: [u8; 32], i: int) -> bool {
    0 <= i < 256 && byte_bit(word@[31 - i / 8], (i % 8) as u8)
}

proof fn lemma_byte_set(b: u8, k: u8, j: u8)
    requires
        k < 8,
        j < 8,
    ensures
        byte_bit(b | (1u8 << k), j) == (j == k || byte_bit(b, j)),
        byte_bit(b & !(1u8 << k), j) == (j != k && byte_bit(b, j)),
        byte_bit(b & (1u8 << k), j) == (j == k && byte_bit(b, j)),
        ((b & (1u8 << k)) != 0u8) == byte_bit(b, k),
{
    assert(((b & (1u8 << k)) != 0u8) == ((b >> k) & 1u8 == 1u8)) by (bit_vector)
        requires k < 8;
    assert(((b | (1u8 << k)) >> j) & 1u8 == 1u8 <==> (j == k || (b >> j) & 1u8 == 1u8))
        by (bit_vector)
        requires k < 8, j < 8;
    assert(((b & !(1u8 << k)) >> j) & 1u8 == 1u8 <==> (j != k && (b >> j) & 1u8 == 1u8))
        by (bit_vector)
        requires k < 8, j < 8;
    assert(((b & (1u8 << k)) >> j) & 1u8 == 1u8 <==> (j == k && (b >> j) & 1u8 == 1u8))
        by (bit_vector)
        requires k < 8, j < 8;
}

/// Whether bit `bit_pos` of the word is set; false past bit 255.
pub fn bit_is_set(word: &[u8; 32], bit_pos: u32) -> (r: bool)
    ensures
        r == word_bit(*word, bit_pos as int),
{
    if bit_pos >= 256 {
        return false;
    }
    let byte_idx = 31usize - (bit_pos / 8) as usize;
    let bit_idx = (bit_pos % 8) as u8;
    proof {
        lemma_byte_set(word@[byte_idx as int], bit_idx, bit_idx);
    }
    (word[byte_idx] & (1u8 << bit_idx)) != 0
}

/// Sets bit `bit_pos` to `value`; positions past 255 leave the word unchanged.
pub fn set_bit(word: &mut [u8; 32], bit_pos: u32, value: bool)
    ensures
        forall|j: int| #[trigger] word_bit(*final(word), j)
            == (if j == bit_pos as int { value && bit_pos < 256 } else { word_bit(*old(word), j) }),
{
    if bit_pos >= 256 {
        return;
    }
    let byte_idx = 31usize - (bit_pos / 8) as usize;
    let bit_idx = (bit_pos % 8) as u8;
    let mask = 1u8 << bit_idx;
    let ghost before = *word;
    let b = word[byte_idx];
    if value {
        word[byte_idx] = b | mask;
    } else {
        word[byte_idx] = b & !mask;
    }
    proof {
        assert forall|j: int| #[trigger] word_bit(*word, j)
            == (if j == bit_pos as int { value && bit_pos < 256 } else { word_bit(before, j) }) by {
            if 0 <= j < 256 {
                if 31 - j / 8 == byte_idx as int {
                    lemma_byte_set(b, bit_idx, (j % 8) as u8);
                } else {
                    assert(word@[31 - j / 8] == before@[31 - j / 8]);
                }
            }
        }
    }
}

/// The highest set bit of `b` at or below bit `k`.
fn top_bit_at_most(b: u8, k: u32) -> (r: Option<u32>)
    requires
        k < 8,
    ensures
        r matches Some(t) ==> t <= k && byte_bit(b, t as u8)
            && forall|j: u8| t < j <= k ==> !#[trigger] byte_bit(b, j),
        r is None ==> forall|j: u8| j <= k ==> !#[trigger] byte_bit(b, j),
{
    let mut t: u32 = k + 1;
    while t > 0
        invariant
            t <= k + 1,
            k < 8,
            forall|j: u8| t <= j <= k ==> !#[trigger] byte_bit(b, j),
        decreases t,
    {
        let c = t - 1;
        if (b >> (c as u8)) & 1 == 1 {
            return Some(c);
        }
        t = c;
    }
    None
}

/// The lowest set bit of `b` at or above bit `k`.
fn low_bit_at_least(b: u8, k: u32) -> (r: Option<u32>)
    requires
        k < 8,
    ensures
        r matches Some(t) ==> k <= t < 8 && byte_bit(b, t as u8)
            && forall|j: u8| k <= j < t ==> !#[trigger] byte_bit(b, j),
        r is None ==> forall|j: u8| k <= j < 8 ==> !#[trigger] byte_bit(b, j),
{
    let mut t: u32 = k;
    while t < 8
        invariant
            k <= t <= 8,
            forall|j: u8| k <= j < t ==> !#[trigger] byte_bit(b, j),
        decreases 8 - t,
    {
        if (b >> (t as u8)) & 1 == 1 {
            return Some(t);
        }
        t = t + 1;
    }
    None
}

/// The highest set bit at or below `min(from_bit, 255)`.
pub fn find_prev_set_bit(word: &[u8; 32], from_bit: u32) -> (r: Option<u32>)
    ensures
        ({
            let f: int = if from_bit < 255 { from_bit as int } else { 255 };
            &&& r matches Some(i) ==> i <= f && word_bit(*word, i as int)
                && forall|j: int| i < j <= f ==> !#[trigger] word_bit(*word, j)
            &&& r is None ==> forall|j: int| 0 <= j <= f ==> !#[trigger] word_bit(*word, j)
        }),
{
    let fb = if from_bit < 255 { from_bit } else { 255 };
    let start_byte = (255 - fb) / 8;
    let start_bit_in_byte = fb % 8;
    let ghost f = fb as int;
    assert(start_byte as int == 31 - f / 8);
    match top_bit_at_most(word[start_byte as usize], start_bit_in_byte) {
        Some(t) => {
            let i = (31 - start_byte) * 8 + t;
            proof {
                assert(31 - (i as int) / 8 == start_byte as int);
                assert((i as int) % 8 == t as int);
                assert forall|j: int| i < j <= f implies !#[trigger] word_bit(*word, j) by {
                    assert(31 - j / 8 == start_byte as int);
                    assert(t < ((j % 8) as u8) && ((j % 8) as u8) <= start_bit_in_byte);
                }
            }
            return Some(i);
        },
        None => {},
    }
    let mut byte_idx = start_byte + 1;
    while byte_idx < 32
        invariant
            start_byte < byte_idx <= 32,
            start_byte == 31 - f / 8,
            0 <= f <= 255,
            f == (if from_bit < 255 { from_bit as int } else { 255 }),
            start_bit_in_byte == f % 8,
            forall|j: int| (31 - byte_idx) * 8 + 8 <= j <= f ==> !#[trigger] word_bit(*word, j),
        decreases 32 - byte_idx,
    {
        match top_bit_at_most(word[byte_idx as usize], 7) {
            Some(t) => {
                let i = (31 - byte_idx) * 8 + t;
                proof {
                    assert(31 - (i as int) / 8 == byte_idx as int);
                    assert((i as int) % 8 == t as int);
                    assert forall|j: int| i < j <= f implies !#[trigger] word_bit(*word, j) by {
                        if j < (31 - byte_idx) * 8 + 8 {
                            assert(31 - j / 8 == byte_idx as int);
                            assert(t < ((j % 8) as u8) && ((j % 8) as u8) <= 7);
                        }
                    }
                }
                return Some(i);
            },
            None => {
                proof {
                    assert forall|j: int| (31 - (byte_idx + 1)) * 8 + 8 <= j <= f
                        implies !#[trigger] word_bit(*word, j) by {
                        if j < (31 - byte_idx) * 8 + 8 {
                            assert(31 - j / 8 == byte_idx as int);
                            assert(((j % 8) as u8) <= 7);
                        }
                    }
                }
            },
        }
        byte_idx = byte_idx + 1;
    }
    None
}

/// The lowest set bit at or above `min(from_bit, 255)`.
pub fn find_next_set_bit(word: &[u8; 32], from_bit: u32) -> (r: Option<u32>)
    ensures
        ({
            let f: int = if from_bit < 255 { from_bit as int } else { 255 };
            &&& r matches Some(i) ==> f <= i < 256 && word_bit(*word, i as int)
                && forall|j: int| f <= j < i ==> !#[trigger] word_bit(*word, j)
            &&& r is None ==> forall|j: int| f <= j < 256 ==> !#[trigger] word_bit(*word, j)
        }),
{
    let fb = if from_bit < 255 { from_bit } else { 255 };
    let start_byte = (255 - fb) / 8;
    let start_bit_in_byte = fb % 8;
    let ghost f = fb as int;
    assert(start_byte as int == 31 - f / 8);
    match low_bit_at_least(word[start_byte as usize], start_bit_in_byte) {
        Some(t) => {
            let i = (31 - start_byte) * 8 + t;
            proof {
                assert(31 - (i as int) / 8 == start_byte as int);
                assert((i as int) % 8 == t as int);
                assert forall|j: int| f <= j < i implies !#[trigger] word_bit(*word, j) by {
                    assert(31 - j / 8 == start_byte as int);
                    assert(start_bit_in_byte <= ((j % 8) as u8) && ((j % 8) as u8) < t);
                }
            }
            return Some(i);
        },
        None => {},
    }
    let mut byte_idx: u32 = start_byte;
    while byte_idx > 0
        invariant
            byte_idx <= start_byte,
            start_byte == 31 - f / 8,
            0 <= f <= 255,
            f == (if from_bit < 255 { from_bit as int } else { 255 }),
            start_bit_in_byte == f % 8,
            forall|j: int| f <= j < (31 - byte_idx) * 8 + 8 ==> !#[trigger] word_bit(*word, j),
        decreases byte_idx,
    {
        let bi = byte_idx - 1;
        match low_bit_at_least(word[bi as usize], 0) {
            Some(t) => {
                let i = (31 - bi) * 8 + t;
                proof {
                    assert(31 - (i as int) / 8 == bi as int);
                    assert((i as int) % 8 == t as int);
                    assert forall|j: int| f <= j < i implies !#[trigger] word_bit(*word, j) by {
                        if j >= (31 - bi) * 8 {
                            assert(31 - j / 8 == bi as int);
                            assert(((j % 8) as u8) < t);
                        }
                    }
                }
                return Some(i);
            },
            None => {
                proof {
                    assert forall|j: int| f <= j < (31 - bi) * 8 + 8
                        implies !#[trigger] word_bit(*word, j) by {
                        if j >= (31 - bi) * 8 {
                            assert(31 - j / 8 == bi as int);
                            assert(((j % 8) as u8) <= 7);
                        }
                    }
                }
            },
        }
        byte_idx = bi;
    }
    None
}


/// Floor division of an integer by a positive divisor, as in `div_euclid`.
pub open spec fn floor_div(a: int, d: int) -> int
    recommends
        d > 0,
{
    a / d
}

/// `floor_div(a, d) * d <= a < (floor_div(a, d) + 1) * d`.
pub proof fn lemma_floor_div_bounds(a: int, d: int)
    requires
        d > 0,
    ensures
        floor_div(a, d) * d <= a < (floor_div(a, d) + 1) * d,
{
    vstd::arithmetic::div_mod::lemma_fundamental_div_mod(a, d);
    vstd::arithmetic::div_mod::lemma_mod_bound(a, d);
    let q = a / d;
    assert(q * d == d * q) by (nonlinear_arith);
    assert((q + 1) * d == q * d + d) by (nonlinear_arith);
}

proof fn lemma_unit_multiple(d: int, k: int)
    requires
        d > 0,
        -2 * d < d * k < 0,
    ensures
        k == -1,
{
    if k >= 0 {
        assert(d * k >= 0) by (nonlinear_arith) requires d > 0, k >= 0;
    } else if k <= -2 {
        assert(d * k <= -2 * d) by (nonlinear_arith) requires d > 0, k <= -2;
    }
}

/// Floor division of an `i32` by a positive divisor.
fn floor_div_i32(a: i32, d: i32) -> (r: i32)
    requires
        d > 0,
    ensures
        r as int == floor_div(a as int, d as int),
        (r as int) * (d as int) <= (a as int) < (r as int + 1) * (d as int),
{
    let ghost ai = a as int;
    let ghost di = d as int;
    proof {
        vstd::arithmetic::div_mod::lemma_fundamental_div_mod(ai, di);
        vstd::arithmetic::div_mod::lemma_mod_bound(ai, di);
        let fq = ai / di;
        assert((fq + 1) * di == fq * di + di) by (nonlinear_arith);
        assert(fq * di == di * fq) by (nonlinear_arith);
    }
    if a >= 0 {
        a / d
    } else {
        let p = -(a + 1);
        let q = p / d;
        proof {
            let pi = p as int;
            vstd::arithmetic::div_mod::lemma_fundamental_div_mod(pi, di);
            vstd::arithmetic::div_mod::lemma_mod_bound(pi, di);
            let fq = ai / di;
            assert(di * (fq + q) == di * fq + di * q) by (nonlinear_arith);
            lemma_unit_multiple(di, fq + q);
        }
        -q - 1
    }
}

/// Position of a chunk in the chunk bitmap: `(word, bit)` with `chunk_pos == word * 256 + bit`.
pub fn chunk_bitmap_position(chunk_pos: i32) -> (r: (i32, u32))
    ensures
        r.0 as int == floor_div(chunk_pos as int, 256),
        r.1 < 256,
        (r.0 as int) * 256 + (r.1 as int) == chunk_pos as int,
{
    let word_pos = floor_div_i32(chunk_pos, 256);
    let bit_pos = (chunk_pos - word_pos * 256) as u32;
    (word_pos, bit_pos)
}

/// Position of a chunk-bitmap word in the second-level bitmap: `(word, bit)`.
pub fn word_bitmap_position(word_pos: i32) -> (r: (i32, u32))
    ensures
        r.0 as int == floor_div(word_pos as int, 256),
        r.1 < 256,
        (r.0 as int) * 256 + (r.1 as int) == word_pos as int,
{
    chunk_bitmap_position(word_pos)
}

/// A tick divided by the spacing, rounded toward negative infinity.
pub fn compress_tick(tick: i32, spacing: i32) -> (r: i32)
    requires
        spacing > 0,
    ensures
        r as int == floor_div(tick as int, spacing as int),
{
    floor_div_i32(tick, spacing)
}

/// `(chunk, slot)` of a compressed tick: `compressed == chunk * TICKS_PER_CHUNK + slot`.
pub fn chunk_address(compressed_tick: i32) -> (r: (i32, u32))
    ensures
        r.0 as int == floor_div(compressed_tick as int, TICKS_PER_CHUNK as int),
        r.1 < TICKS_PER_CHUNK,
        (r.0 as int) * (TICKS_PER_CHUNK as int) + (r.1 as int) == compressed_tick as int,
{
    let chunk_pos = floor_div_i32(compressed_tick, TICKS_PER_CHUNK);
    let slot = (compressed_tick - chunk_pos * TICKS_PER_CHUNK) as u32;
    (chunk_pos, slot)
}

/// A tick limited to [MIN_TICK, MAX_TICK].
pub open spec fn spec_clamp_tick(tick: int) -> int {
    if tick < MIN_TICK { MIN_TICK as int } else if tick > MAX_TICK { MAX_TICK as int } else { tick }
}

/// A tick limited to [MIN_TICK, MAX_TICK].
pub fn clamp_tick(tick: i32) -> (r: i32)
    ensures
        r as int == spec_clamp_tick(tick as int),
{
    if tick < MIN_TICK {
        MIN_TICK
    } else if tick > MAX_TICK {
        MAX_TICK
    } else {
        tick
    }
}

/// The tick of a compressed index: `compressed * spacing` clamped to the tick range.
pub fn compressed_to_tick(compressed: i32, spacing: i32) -> (r: i32)
    ensures
        r as int == spec_clamp_tick((compressed as int) * (spacing as int)),
{
    proof {
        let c = compressed as int;
        let sp = spacing as int;
        assert(-0x8000_0000int <= c < 0x8000_0000int);
        assert(-0x8000_0000int <= sp < 0x8000_0000int);
        assert(-0x4000_0000_0000_0000int <= c * sp <= 0x4000_0000_0000_0000int) by (nonlinear_arith)
            requires -0x8000_0000int <= c < 0x8000_0000int, -0x8000_0000int <= sp < 0x8000_0000int;
    }
    let product: i64 = (compressed as i64) * (spacing as i64);
    if product < MIN_TICK as i64 {
        MIN_TICK
    } else if product > MAX_TICK as i64 {
        MAX_TICK
    } else {
        product as i32
    }
}

} // verus!
