//! The pool's tick storage: per-tick records keyed by compressed tick, a chunk bitmap with one
//! bit per chunk of `TICKS_PER_CHUNK` compressed ticks (set exactly when the chunk holds an
//! initialized tick), and a second-level bitmap over chunk-bitmap words.

use vstd::prelude::*;
use std::collections::HashMap;

verus! {

broadcast use vstd::std_specs::hash::group_hash_axioms;

use crate::bitmap::{
    chunk_address, chunk_bitmap_position, compress_tick, compressed_to_tick, find_next_set_bit,
    find_prev_set_bit, floor_div, set_bit, spec_clamp_tick, word_bit,
};
use crate::constants::{MAX_TICK, MIN_TICK, TICKS_PER_CHUNK};
use crate::errors::ConcentratedPoolError as Error;
use crate::math::wrapping_sub_u256;
use crate::types::TickInfo;
use crate::u256::{b256, U256};

/// The record of a tick that was never written.
pub open spec fn spec_empty_tick() -> TickInfo {
    TickInfo {
        fee_growth_outside_0_x128: U256 { hi: 0, lo: 0 },
        fee_growth_outside_1_x128: U256 { hi: 0, lo: 0 },
        initialized: false,
        liquidity_gross: 0,
        liquidity_net: 0,
    }
}

/// Whether an integer is a valid `i32`.
pub open spec fn in_i32(c: int) -> bool {
    -0x8000_0000 <= c < 0x8000_0000
}

/// The record of compressed tick `c`; an absent entry reads as the empty record.
pub open spec fn tick_at(m: Map<i32, TickInfo>, c: int) -> TickInfo {
    if in_i32(c) && m.contains_key(c as i32) {
        m[c as i32]
    } else {
        spec_empty_tick()
    }
}

/// Whether compressed tick `c` is initialized (some liquidity references it).
pub open spec fn initialized_at(m: Map<i32, TickInfo>, c: int) -> bool {
    tick_at(m, c).liquidity_gross > 0
}

/// Whether chunk `cp` holds an initialized tick.
pub open spec fn chunk_nonempty(m: Map<i32, TickInfo>, cp: int) -> bool {
    exists|s: int| 0 <= s < 16 && #[trigger] initialized_at(m, cp * 16 + s)
}

/// Bit `i` of bitmap word `w`; an absent word reads as zero.
pub open spec fn bitmap_bit(bm: Map<i32, [u8; 32]>, w: int, i: int) -> bool {
    in_i32(w) && bm.contains_key(w as i32) && word_bit(bm[w as i32], i)
}

/// The chunk-bitmap flag of chunk `cp`.
pub open spec fn chunk_flag(bm: Map<i32, [u8; 32]>, cp: int) -> bool {
    bitmap_bit(bm, floor_div(cp, 256), cp - floor_div(cp, 256) * 256)
}

/// `x` limited to the `i128` range.
pub open spec fn clamp_i128(x: int) -> int {
    if x > i128::MAX { i128::MAX as int } else if x < i128::MIN { i128::MIN as int } else { x }
}

/// `a + b` saturating at the `i128` bounds.
pub fn saturating_add_i128(a: i128, b: i128) -> (r: i128)
    ensures
        r as int == clamp_i128(a + b),
{
    match a.checked_add(b) {
        Some(v) => v,
        None => if b > 0 { i128::MAX } else { i128::MIN },
    }
}

/// `a - b` saturating at the `i128` bounds.
pub fn saturating_sub_i128(a: i128, b: i128) -> (r: i128)
    ensures
        r as int == clamp_i128(a - b),
{
    match a.checked_sub(b) {
        Some(v) => v,
        None => if b > 0 { i128::MIN } else { i128::MAX },
    }
}

/// Gross liquidity after applying `delta`: saturating on increase, exact on decrease
/// (negative when it would underflow).
pub open spec fn spec_gross_after(gross: nat, delta: int) -> int {
    if delta >= 0 {
        if gross + delta > u128::MAX { u128::MAX as int } else { gross + delta }
    } else {
        gross + delta
    }
}

/// The record of a tick after a position boundary on it changes by `delta`. A tick that
/// becomes initialized at or below the current tick takes the global fee growth as its
/// outside growth; a tick that stops being initialized has its accumulators cleared.
pub open spec fn spec_updated_tick(
    t: TickInfo,
    delta: int,
    is_upper: bool,
    at_or_below_current: bool,
    fg0: U256,
    fg1: U256,
) -> TickInfo {
    let gross = spec_gross_after(t.liquidity_gross as nat, delta);
    let net = if is_upper { clamp_i128(t.liquidity_net - delta) } else { clamp_i128(t.liquidity_net + delta) };
    let was = t.liquidity_gross > 0;
    let now = gross > 0;
    let zero = U256 { hi: 0, lo: 0 };
    TickInfo {
        fee_growth_outside_0_x128: if !was && now {
            if at_or_below_current { fg0 } else { t.fee_growth_outside_0_x128 }
        } else if was && !now { zero } else { t.fee_growth_outside_0_x128 },
        fee_growth_outside_1_x128: if !was && now {
            if at_or_below_current { fg1 } else { t.fee_growth_outside_1_x128 }
        } else if was && !now { zero } else { t.fee_growth_outside_1_x128 },
        initialized: now,
        liquidity_gross: gross as u128,
        liquidity_net: net as i128,
    }
}

/// Whether some compressed tick in [lo, hi] is initialized.
pub open spec fn any_initialized_in(m: Map<i32, TickInfo>, lo: int, hi: int) -> bool {
    exists|t: int| lo <= t <= hi && #[trigger] initialized_at(m, t)
}

/// Whether chunk-bitmap word `w` (compressed ticks `w * 4096 ..= w * 4096 + 4095`) holds an
/// initialized tick.
pub open spec fn word_nonempty(m: Map<i32, TickInfo>, w: int) -> bool {
    any_initialized_in(m, w * 4096, w * 4096 + 4095)
}

/// Two tick maps that agree on which ticks are initialized agree on which ranges hold one.
pub proof fn lemma_any_initialized_congruent(m1: Map<i32, TickInfo>, m2: Map<i32, TickInfo>, lo: int, hi: int)
    requires
        forall|c: int| #[trigger] initialized_at(m1, c) == initialized_at(m2, c),
    ensures
        any_initialized_in(m1, lo, hi) == any_initialized_in(m2, lo, hi),
{
    if any_initialized_in(m1, lo, hi) {
        let t = choose|t: int| lo <= t <= hi && #[trigger] initialized_at(m1, t);
        assert(initialized_at(m2, t));
    }
    if any_initialized_in(m2, lo, hi) {
        let t = choose|t: int| lo <= t <= hi && #[trigger] initialized_at(m2, t);
        assert(initialized_at(m1, t));
    }
}

/// `t` is the greatest initialized compressed tick in [lo, hi].
pub open spec fn is_max_initialized_in(m: Map<i32, TickInfo>, lo: int, hi: int, t: int) -> bool {
    &&& lo <= t <= hi
    &&& initialized_at(m, t)
    &&& forall|u: int| t < u <= hi ==> !#[trigger] initialized_at(m, u)
}

/// `t` is the least initialized compressed tick in [lo, hi].
pub open spec fn is_min_initialized_in(m: Map<i32, TickInfo>, lo: int, hi: int, t: int) -> bool {
    &&& lo <= t <= hi
    &&& initialized_at(m, t)
    &&& forall|u: int| lo <= u < t ==> !#[trigger] initialized_at(m, u)
}

/// The greatest initialized compressed tick in [lo, hi], when there is one.
pub open spec fn max_initialized_in(m: Map<i32, TickInfo>, lo: int, hi: int) -> int {
    choose|t: int| is_max_initialized_in(m, lo, hi, t)
}

/// The least initialized compressed tick in [lo, hi], when there is one.
pub open spec fn min_initialized_in(m: Map<i32, TickInfo>, lo: int, hi: int) -> int {
    choose|t: int| is_min_initialized_in(m, lo, hi, t)
}

/// First compressed tick of the chunk-bitmap word holding compressed tick `c`.
pub open spec fn word_first_compressed(c: int) -> int {
    floor_div(floor_div(c, 16), 256) * 4096
}

/// First compressed tick of the range a downward walk from compressed tick `c` searches: the
/// second-level word of `c`'s chunk-bitmap word and the one before it.
pub open spec fn search_floor(c: int) -> int {
    (floor_div(cword(c), 256) - 1) * 1048576
}

/// Last compressed tick of the range an upward walk from compressed tick `c` (exclusive)
/// searches: the second-level word of `c + 1`'s chunk-bitmap word and the one after it.
pub open spec fn search_ceiling(c: int) -> int {
    (floor_div(cword(c + 1), 256) + 2) * 1048576 - 1
}

/// The next tick a swap walks to from `tick`: downward (`lte`) the greatest initialized tick
/// at or below the current compressed tick, upward the least one above it, searching the
/// chunk-bitmap word of the start and the words the second-level bitmap indexes next to it
/// (`search_floor` / `search_ceiling`); when there is none, the far boundary of the start's
/// chunk-bitmap word. The flag tells whether the returned tick is initialized.
#[verifier::opaque]
pub open spec fn spec_next_initialized_tick(m: Map<i32, TickInfo>, tick: int, spacing: int, lte: bool) -> (int, bool) {
    let c = floor_div(tick, spacing);
    if lte {
        let far = search_floor(c);
        if any_initialized_in(m, far, c) {
            (spec_clamp_tick(max_initialized_in(m, far, c) * spacing), true)
        } else {
            (spec_clamp_tick(word_first_compressed(c) * spacing), false)
        }
    } else {
        let far = search_ceiling(c);
        if any_initialized_in(m, c + 1, far) {
            (spec_clamp_tick(min_initialized_in(m, c + 1, far) * spacing), true)
        } else {
            (spec_clamp_tick((word_first_compressed(c + 1) + 4095) * spacing), false)
        }
    }
}

/// The walk target lies within the tick bounds and on the side of the search: at or below the
/// current tick downward (`lte`), above it upward unless clamped to the upper bound.
pub proof fn lemma_next_tick_direction(m: Map<i32, TickInfo>, tick: int, spacing: int, lte: bool)
    requires
        spacing > 0,
        MIN_TICK <= tick <= MAX_TICK,
    ensures
        MIN_TICK <= spec_next_initialized_tick(m, tick, spacing, lte).0 <= MAX_TICK,
        lte ==> spec_next_initialized_tick(m, tick, spacing, lte).0 <= tick,
        !lte ==> spec_next_initialized_tick(m, tick, spacing, lte).0 >= tick + 1
            || spec_next_initialized_tick(m, tick, spacing, lte).0 == MAX_TICK,
{
    reveal(spec_next_initialized_tick);
    let c = floor_div(tick, spacing);
    crate::bitmap::lemma_floor_div_bounds(tick, spacing);
    if lte {
        let far = search_floor(c);
        let x = if any_initialized_in(m, far, c) {
            lemma_max_exists(m, far, c);
            max_initialized_in(m, far, c)
        } else {
            lemma_cword_bounds(c);
            word_first_compressed(c)
        };
        assert(x <= c);
        assert(x * spacing <= c * spacing) by (nonlinear_arith) requires x <= c, spacing > 0;
    } else {
        let far = search_ceiling(c);
        let x = if any_initialized_in(m, c + 1, far) {
            lemma_min_exists(m, c + 1, far);
            min_initialized_in(m, c + 1, far)
        } else {
            lemma_cword_bounds(c + 1);
            word_first_compressed(c + 1) + 4095
        };
        assert(x >= c + 1);
        assert(x * spacing >= (c + 1) * spacing) by (nonlinear_arith) requires x >= c + 1, spacing > 0;
    }
}

/// The walk target depends on the tick records only through which ticks are initialized.
pub proof fn lemma_next_tick_congruent(m1: Map<i32, TickInfo>, m2: Map<i32, TickInfo>, tick: int, spacing: int, lte: bool)
    requires
        forall|c: int| #[trigger] initialized_at(m1, c) == initialized_at(m2, c),
    ensures
        spec_next_initialized_tick(m1, tick, spacing, lte) == spec_next_initialized_tick(m2, tick, spacing, lte),
{
    reveal(spec_next_initialized_tick);
    let c = floor_div(tick, spacing);
    let (lo, hi) = if lte { (search_floor(c), c) } else { (c + 1, search_ceiling(c)) };
    if any_initialized_in(m1, lo, hi) {
        let t = choose|t: int| lo <= t <= hi && #[trigger] initialized_at(m1, t);
        assert(initialized_at(m2, t));
    }
    if any_initialized_in(m2, lo, hi) {
        let t = choose|t: int| lo <= t <= hi && #[trigger] initialized_at(m2, t);
        assert(initialized_at(m1, t));
    }
    if any_initialized_in(m1, lo, hi) {
        if lte {
            lemma_max_exists(m1, lo, hi);
            lemma_max_exists(m2, lo, hi);
            let t1 = max_initialized_in(m1, lo, hi);
            let t2 = max_initialized_in(m2, lo, hi);
            assert forall|u: int| t1 < u <= hi implies !#[trigger] initialized_at(m2, u) by {
                assert(!initialized_at(m1, u));
            }
            assert(initialized_at(m2, t1));
            assert(is_max_initialized_in(m2, lo, hi, t1));
            if t1 < t2 { assert(!initialized_at(m2, t2)); }
            if t2 < t1 { assert(!initialized_at(m2, t1)); }
        } else {
            lemma_min_exists(m1, lo, hi);
            lemma_min_exists(m2, lo, hi);
            let t1 = min_initialized_in(m1, lo, hi);
            let t2 = min_initialized_in(m2, lo, hi);
            assert forall|u: int| lo <= u < t1 implies !#[trigger] initialized_at(m2, u) by {
                assert(!initialized_at(m1, u));
            }
            assert(initialized_at(m2, t1));
            assert(is_min_initialized_in(m2, lo, hi, t1));
            if t1 < t2 { assert(!initialized_at(m2, t1)); }
            if t2 < t1 { assert(!initialized_at(m2, t2)); }
        }
    }
}

/// A nonempty range has a greatest initialized tick.
pub proof fn lemma_max_exists(m: Map<i32, TickInfo>, lo: int, hi: int)
    requires
        any_initialized_in(m, lo, hi),
    ensures
        is_max_initialized_in(m, lo, hi, max_initialized_in(m, lo, hi)),
    decreases hi - lo,
{
    if initialized_at(m, hi) {
        assert(is_max_initialized_in(m, lo, hi, hi));
    } else {
        let t = choose|t: int| lo <= t <= hi && #[trigger] initialized_at(m, t);
        assert(any_initialized_in(m, lo, hi - 1)) by { assert(lo <= t <= hi - 1); }
        lemma_max_exists(m, lo, hi - 1);
        let t1 = max_initialized_in(m, lo, hi - 1);
        assert(is_max_initialized_in(m, lo, hi, t1));
    }
}

/// A range has at most one greatest initialized tick.
pub proof fn lemma_max_unique(m: Map<i32, TickInfo>, lo: int, hi: int, t1: int, t2: int)
    requires
        is_max_initialized_in(m, lo, hi, t1),
        is_max_initialized_in(m, lo, hi, t2),
    ensures
        t1 == t2,
{
    if t1 < t2 {
        assert(!initialized_at(m, t2));
    } else if t2 < t1 {
        assert(!initialized_at(m, t1));
    }
}

/// A range has at most one least initialized tick.
pub proof fn lemma_min_unique(m: Map<i32, TickInfo>, lo: int, hi: int, t1: int, t2: int)
    requires
        is_min_initialized_in(m, lo, hi, t1),
        is_min_initialized_in(m, lo, hi, t2),
    ensures
        t1 == t2,
{
    if t1 < t2 {
        assert(!initialized_at(m, t1));
    } else if t2 < t1 {
        assert(!initialized_at(m, t2));
    }
}

/// The bounds `(low, high)` of the initialized ticks after folding in chunk-bitmap words
/// `from .. from + n`: each word holding an initialized tick lowers `low` to its lowest tick
/// and raises `high` to its highest, scaled by `spacing` and kept within the tick bounds.
pub open spec fn spec_migrated_bounds(m: Map<i32, TickInfo>, spacing: int, from: int, n: nat, low: int, high: int) -> (int, int)
    decreases n,
{
    if n == 0 {
        (low, high)
    } else {
        let (a, b) = spec_migrated_bounds(m, spacing, from, (n - 1) as nat, low, high);
        let w = from + n - 1;
        let lo = w * 4096;
        let hi = w * 4096 + 4095;
        if any_initialized_in(m, lo, hi) {
            let l = spec_clamp_tick(min_initialized_in(m, lo, hi) * spacing);
            let h = spec_clamp_tick(max_initialized_in(m, lo, hi) * spacing);
            (if l < a { l } else { a }, if h > b { h } else { b })
        } else {
            (a, b)
        }
    }
}

/// A nonempty range has a least initialized tick.
pub proof fn lemma_min_exists(m: Map<i32, TickInfo>, lo: int, hi: int)
    requires
        any_initialized_in(m, lo, hi),
    ensures
        is_min_initialized_in(m, lo, hi, min_initialized_in(m, lo, hi)),
    decreases hi - lo,
{
    if initialized_at(m, lo) {
        assert(is_min_initialized_in(m, lo, hi, lo));
    } else {
        let t = choose|t: int| lo <= t <= hi && #[trigger] initialized_at(m, t);
        assert(any_initialized_in(m, lo + 1, hi)) by { assert(lo + 1 <= t <= hi); }
        lemma_min_exists(m, lo + 1, hi);
        let t1 = min_initialized_in(m, lo + 1, hi);
        assert(is_min_initialized_in(m, lo, hi, t1));
    }
}

/// The flag of `q` lies in bitmap word `w` when `q` is one of that word's positions.
pub proof fn lemma_flag_in_word(bm: Map<i32, [u8; 32]>, w: int, q: int)
    requires
        w * 256 <= q < w * 256 + 256,
    ensures
        chunk_flag(bm, q) == bitmap_bit(bm, w, q - w * 256),
{
    lemma_floor_div_exact(w, q - w * 256, 256);
}

/// The chunk-bitmap word holding compressed tick `c` (4096 compressed ticks per word).
pub open spec fn cword(c: int) -> int {
    floor_div(floor_div(c, 16), 256)
}

/// `v` is the chunk-bitmap word that the second-level bitmap `wb` flags next to word `w` in
/// the direction of a search: the nearest flagged word below `w` within `w`'s second-level
/// word and the one before it (`lte`), or above `w` within its own and the next one.
pub open spec fn is_adjacent_word(wb: Map<i32, [u8; 32]>, w: int, v: int, lte: bool) -> bool {
    let l2 = floor_div(w, 256);
    if lte {
        &&& (l2 - 1) * 256 <= v < w
        &&& chunk_flag(wb, v)
        &&& forall|q: int| v < q < w ==> !#[trigger] chunk_flag(wb, q)
    } else {
        &&& w < v < (l2 + 2) * 256
        &&& chunk_flag(wb, v)
        &&& forall|q: int| w < q < v ==> !#[trigger] chunk_flag(wb, q)
    }
}

/// `f` is what a downward search from compressed tick `c`, not below `limit`, finds: the
/// greatest initialized tick of `c`'s chunk-bitmap word at or below `c`; when that word holds
/// none at or below `c`, the greatest initialized tick of the adjacent flagged word.
pub open spec fn is_found_down(m: Map<i32, TickInfo>, wb: Map<i32, [u8; 32]>, c: int, limit: int, f: int) -> bool {
    let lo = cword(c) * 4096;
    &&& limit <= f <= c && initialized_at(m, f)
    &&& forall|u: int| f < u <= c && lo <= u ==> !#[trigger] initialized_at(m, u)
    &&& f < lo ==> is_adjacent_word(wb, cword(c), cword(f), true)
        && forall|u: int| f < u < cword(f) * 4096 + 4096 ==> !#[trigger] initialized_at(m, u)
}

/// A downward search from `c` not below `limit` finds nothing: `c`'s word holds no
/// initialized tick in [limit, c], and when it holds none at or below `c` at all, the
/// adjacent flagged word holds none at or above `limit`.
pub open spec fn is_none_down(m: Map<i32, TickInfo>, wb: Map<i32, [u8; 32]>, c: int, limit: int) -> bool {
    let lo = cword(c) * 4096;
    &&& forall|u: int| lo <= u <= c && limit <= u ==> !#[trigger] initialized_at(m, u)
    &&& (forall|u: int| lo <= u <= c ==> !#[trigger] initialized_at(m, u)) ==> forall|v: int, u: int|
        #![trigger is_adjacent_word(wb, cword(c), v, true), initialized_at(m, u)]
        is_adjacent_word(wb, cword(c), v, true) && v * 4096 <= u < v * 4096 + 4096 && limit <= u
        ==> !initialized_at(m, u)
}

/// `f` is what an upward search from above compressed tick `c`, not above `limit`, finds:
/// the least initialized tick of `c + 1`'s chunk-bitmap word from `c + 1` on; when that word
/// holds none from `c + 1` on, the least initialized tick of the adjacent flagged word.
pub open spec fn is_found_up(m: Map<i32, TickInfo>, wb: Map<i32, [u8; 32]>, c: int, limit: int, f: int) -> bool {
    let hi = cword(c + 1) * 4096 + 4095;
    &&& c + 1 <= f <= limit && initialized_at(m, f)
    &&& forall|u: int| c + 1 <= u < f && u <= hi ==> !#[trigger] initialized_at(m, u)
    &&& f > hi ==> is_adjacent_word(wb, cword(c + 1), cword(f), false)
        && forall|u: int| cword(f) * 4096 <= u < f ==> !#[trigger] initialized_at(m, u)
}

/// An upward search from above `c` not above `limit` finds nothing (mirror of `is_none_down`).
pub open spec fn is_none_up(m: Map<i32, TickInfo>, wb: Map<i32, [u8; 32]>, c: int, limit: int) -> bool {
    let hi = cword(c + 1) * 4096 + 4095;
    &&& forall|u: int| c + 1 <= u <= hi && u <= limit ==> !#[trigger] initialized_at(m, u)
    &&& (forall|u: int| c + 1 <= u <= hi ==> !#[trigger] initialized_at(m, u)) ==> forall|v: int, u: int|
        #![trigger is_adjacent_word(wb, cword(c + 1), v, false), initialized_at(m, u)]
        is_adjacent_word(wb, cword(c + 1), v, false) && v * 4096 <= u < v * 4096 + 4096 && u <= limit
        ==> !initialized_at(m, u)
}

/// The compressed ticks of word `v` are those in [v * 4096, v * 4096 + 4096).
pub proof fn lemma_cword_range(u: int, v: int)
    requires
        v * 4096 <= u < v * 4096 + 4096,
    ensures
        cword(u) == v,
{
    let q = floor_div(u, 16);
    crate::bitmap::lemma_floor_div_bounds(u, 16);
    assert(v * 256 <= q < v * 256 + 256) by (nonlinear_arith)
        requires
            q * 16 <= u < (q + 1) * 16,
            v * 4096 <= u < v * 4096 + 4096,
    ;
    lemma_floor_div_exact(v, q - v * 256, 256);
}

/// The outcome of a search (`find_initialized_tick`) as a value: the tick found, scaled by
/// `spacing` and kept within the tick bounds, with its net liquidity; `None` when nothing is
/// found. Well defined: a search finds at most one tick (`lemma_found_down_unique`).
pub open spec fn spec_find_initialized(m: Map<i32, TickInfo>, wb: Map<i32, [u8; 32]>, c: int, limit: int,
    spacing: int, lte: bool) -> Option<(i32, i128)> {
    if lte {
        if exists|f: int| #[trigger] is_found_down(m, wb, c, limit, f) {
            let f = choose|f: int| #[trigger] is_found_down(m, wb, c, limit, f);
            Some((spec_clamp_tick(f * spacing) as i32, tick_at(m, f).liquidity_net))
        } else {
            None
        }
    } else {
        if exists|f: int| #[trigger] is_found_up(m, wb, c, limit, f) {
            let f = choose|f: int| #[trigger] is_found_up(m, wb, c, limit, f);
            Some((spec_clamp_tick(f * spacing) as i32, tick_at(m, f).liquidity_net))
        } else {
            None
        }
    }
}

/// Compressed tick `u` lies in its word's range.
pub proof fn lemma_cword_bounds(u: int)
    ensures
        cword(u) * 4096 <= u < cword(u) * 4096 + 4096,
{
    let q = floor_div(u, 16);
    crate::bitmap::lemma_floor_div_bounds(u, 16);
    crate::bitmap::lemma_floor_div_bounds(q, 256);
    let w = floor_div(q, 256);
    assert(w * 4096 <= u < w * 4096 + 4096) by (nonlinear_arith)
        requires
            q * 16 <= u < (q + 1) * 16,
            w * 256 <= q < (w + 1) * 256,
    ;
}

/// The second-level bitmap flags at most one adjacent word in each direction.
pub proof fn lemma_adjacent_unique(wb: Map<i32, [u8; 32]>, w: int, v1: int, v2: int, lte: bool)
    requires
        is_adjacent_word(wb, w, v1, lte),
        is_adjacent_word(wb, w, v2, lte),
    ensures
        v1 == v2,
{
    if v1 < v2 {
        if lte { assert(!chunk_flag(wb, v2)); } else { assert(!chunk_flag(wb, v1)); }
    } else if v2 < v1 {
        if lte { assert(!chunk_flag(wb, v1)); } else { assert(!chunk_flag(wb, v2)); }
    }
}

/// A downward search has one outcome: at most one tick is found, and finding one excludes
/// finding nothing.
pub proof fn lemma_found_down_unique(m: Map<i32, TickInfo>, wb: Map<i32, [u8; 32]>, c: int, limit: int, f1: int, f2: int)
    requires
        is_found_down(m, wb, c, limit, f1),
    ensures
        is_found_down(m, wb, c, limit, f2) ==> f1 == f2,
        !is_none_down(m, wb, c, limit),
{
    let lo = cword(c) * 4096;
    if is_found_down(m, wb, c, limit, f2) {
        if f1 < lo && f2 < lo {
            lemma_adjacent_unique(wb, cword(c), cword(f1), cword(f2), true);
            crate::bitmap::lemma_floor_div_bounds(f1, 16);
            crate::bitmap::lemma_floor_div_bounds(floor_div(f1, 16), 256);
            crate::bitmap::lemma_floor_div_bounds(f2, 16);
            crate::bitmap::lemma_floor_div_bounds(floor_div(f2, 16), 256);
            if f1 < f2 {
                assert(!initialized_at(m, f2));
            } else if f2 < f1 {
                assert(!initialized_at(m, f1));
            }
        } else if f1 < f2 {
            assert(!initialized_at(m, f2));
        } else if f2 < f1 {
            assert(!initialized_at(m, f1));
        }
    }
    if is_none_down(m, wb, c, limit) {
        if f1 >= lo {
            assert(!initialized_at(m, f1));
        } else {
            assert forall|u: int| lo <= u <= c implies !#[trigger] initialized_at(m, u) by {}
            crate::bitmap::lemma_floor_div_bounds(f1, 16);
            crate::bitmap::lemma_floor_div_bounds(floor_div(f1, 16), 256);
            assert(is_adjacent_word(wb, cword(c), cword(f1), true) && cword(f1) * 4096 <= f1 < cword(f1) * 4096 + 4096
                && limit <= f1);
            assert(!initialized_at(m, f1));
        }
    }
}

/// An upward search has one outcome (mirror of `lemma_found_down_unique`).
pub proof fn lemma_found_up_unique(m: Map<i32, TickInfo>, wb: Map<i32, [u8; 32]>, c: int, limit: int, f1: int, f2: int)
    requires
        is_found_up(m, wb, c, limit, f1),
    ensures
        is_found_up(m, wb, c, limit, f2) ==> f1 == f2,
        !is_none_up(m, wb, c, limit),
{
    let hi = cword(c + 1) * 4096 + 4095;
    if is_found_up(m, wb, c, limit, f2) {
        if f1 > hi && f2 > hi {
            lemma_adjacent_unique(wb, cword(c + 1), cword(f1), cword(f2), false);
            crate::bitmap::lemma_floor_div_bounds(f1, 16);
            crate::bitmap::lemma_floor_div_bounds(floor_div(f1, 16), 256);
            crate::bitmap::lemma_floor_div_bounds(f2, 16);
            crate::bitmap::lemma_floor_div_bounds(floor_div(f2, 16), 256);
            if f1 < f2 {
                assert(!initialized_at(m, f1));
            } else if f2 < f1 {
                assert(!initialized_at(m, f2));
            }
        } else if f1 < f2 {
            assert(!initialized_at(m, f1));
        } else if f2 < f1 {
            assert(!initialized_at(m, f2));
        }
    }
    if is_none_up(m, wb, c, limit) {
        if f1 <= hi {
            assert(!initialized_at(m, f1));
        } else {
            assert forall|u: int| c + 1 <= u <= hi implies !#[trigger] initialized_at(m, u) by {}
            crate::bitmap::lemma_floor_div_bounds(f1, 16);
            crate::bitmap::lemma_floor_div_bounds(floor_div(f1, 16), 256);
            assert(is_adjacent_word(wb, cword(c + 1), cword(f1), false) && cword(f1) * 4096 <= f1 < cword(f1) * 4096 + 4096
                && f1 <= limit);
            assert(!initialized_at(m, f1));
        }
    }
}

/// `floor_div(q * d + r, d) == q` for `0 <= r < d`.
proof fn lemma_floor_div_exact(q: int, r: int, d: int)
    requires
        d > 0,
        0 <= r < d,
    ensures
        floor_div(q * d + r, d) == q,
{
    crate::bitmap::lemma_floor_div_bounds(q * d + r, d);
    let f = floor_div(q * d + r, d);
    if f > q {
        assert(f * d >= (q + 1) * d) by (nonlinear_arith) requires f >= q + 1, d > 0;
        assert((q + 1) * d == q * d + d) by (nonlinear_arith);
    }
    if f < q {
        assert((f + 1) * d <= q * d) by (nonlinear_arith) requires f + 1 <= q, d > 0;
    }
}

/// Tick records keyed by compressed tick, with the bitmaps that index them.
pub struct TickStore {
    pub ticks: HashMap<i32, TickInfo>,
    pub chunk_bitmap: HashMap<i32, [u8; 32]>,
    pub word_bitmap: HashMap<i32, [u8; 32]>,
}

impl TickStore {
    /// The stored records keep `initialized` equal to `liquidity_gross > 0`, and the chunk
    /// bitmap flags exactly the chunks that hold an initialized tick.
    pub open spec fn chunks_wf(&self) -> bool {
        &&& forall|k: i32| #[trigger] self.ticks@.contains_key(k)
            ==> self.ticks@[k].initialized == (self.ticks@[k].liquidity_gross > 0)
        &&& forall|cp: int| #![trigger chunk_flag(self.chunk_bitmap@, cp)]
            #![trigger chunk_nonempty(self.ticks@, cp)]
            chunk_flag(self.chunk_bitmap@, cp) == chunk_nonempty(self.ticks@, cp)
    }

    /// `chunks_wf`, and the second-level bitmap flags exactly the chunk-bitmap words that hold
    /// an initialized tick.
    pub open spec fn wf(&self) -> bool {
        &&& self.chunks_wf()
        &&& forall|w: int| #![trigger chunk_flag(self.word_bitmap@, w)]
            chunk_flag(self.word_bitmap@, w) == word_nonempty(self.ticks@, w)
    }

    /// An empty store.
    pub fn new() -> (r: TickStore)
        ensures
            r.wf(),
            r.ticks@ == Map::<i32, TickInfo>::empty(),
            r.chunk_bitmap@ == Map::<i32, [u8; 32]>::empty(),
            r.word_bitmap@ == Map::<i32, [u8; 32]>::empty(),
    {
        let r = TickStore { ticks: HashMap::new(), chunk_bitmap: HashMap::new(), word_bitmap: HashMap::new() };
        assert forall|cp: int| chunk_nonempty(r.ticks@, cp) implies chunk_flag(r.chunk_bitmap@, cp) by {
            let s = choose|s: int| 0 <= s < 16 && #[trigger] initialized_at(r.ticks@, cp * 16 + s);
            assert(initialized_at(r.ticks@, cp * 16 + s));
        }
        r
    }

    /// The record of compressed tick `c`.
    pub fn tick_info_at(&self, c: i32) -> (r: TickInfo)
        ensures
            r == tick_at(self.ticks@, c as int),
    {
        match self.ticks.get(&c) {
            Some(t) => *t,
            None => TickInfo::empty(),
        }
    }

    /// The record of tick `tick` under `spacing`.
    pub fn get_tick(&self, tick: i32, spacing: i32) -> (r: TickInfo)
        requires
            spacing > 0,
        ensures
            r == tick_at(self.ticks@, floor_div(tick as int, spacing as int)),
    {
        let c = compress_tick(tick, spacing);
        self.tick_info_at(c)
    }

    /// Bitmap word `w` of the chunk bitmap; an absent word is zero.
    pub fn chunk_word(&self, w: i32) -> (r: [u8; 32])
        ensures
            forall|i: int| #[trigger] word_bit(r, i) == bitmap_bit(self.chunk_bitmap@, w as int, i),
    {
        match self.chunk_bitmap.get(&w) {
            Some(word) => *word,
            None => {
                let z = [0u8; 32];
                proof { lemma_zero_word(z); }
                z
            },
        }
    }

    /// Whether chunk `chunk_pos` holds an initialized tick.
    pub fn chunk_has_initialized(&self, chunk_pos: i32) -> (r: bool)
        requires
            -0x800_0000 <= chunk_pos < 0x800_0000,
        ensures
            r == chunk_nonempty(self.ticks@, chunk_pos as int),
    {
        let mut s: i32 = 0;
        while s < TICKS_PER_CHUNK
            invariant
                0 <= s <= 16,
                -0x800_0000 <= chunk_pos < 0x800_0000,
                forall|u: int| 0 <= u < s ==> !#[trigger] initialized_at(self.ticks@, chunk_pos * 16 + u),
            decreases 16 - s,
        {
            let t = self.tick_info_at(chunk_pos * TICKS_PER_CHUNK + s);
            if t.liquidity_gross > 0 {
                assert(initialized_at(self.ticks@, chunk_pos as int * 16 + s as int));
                return true;
            }
            s = s + 1;
        }
        false
    }

    /// The highest initialized slot of chunk `chunk_pos`, if any.
    pub fn scan_chunk_highest_init(&self, chunk_pos: i32) -> (r: Option<u32>)
        requires
            -0x800_0000 <= chunk_pos < 0x800_0000,
        ensures
            r matches Some(s) ==> s < 16 && initialized_at(self.ticks@, chunk_pos * 16 + s)
                && forall|u: int| s < u < 16 ==> !#[trigger] initialized_at(self.ticks@, chunk_pos * 16 + u),
            r is None ==> !chunk_nonempty(self.ticks@, chunk_pos as int),
    {
        let mut s: i32 = TICKS_PER_CHUNK;
        while s > 0
            invariant
                0 <= s <= 16,
                -0x800_0000 <= chunk_pos < 0x800_0000,
                forall|u: int| s <= u < 16 ==> !#[trigger] initialized_at(self.ticks@, chunk_pos * 16 + u),
            decreases s,
        {
            s = s - 1;
            let t = self.tick_info_at(chunk_pos * TICKS_PER_CHUNK + s);
            if t.liquidity_gross > 0 {
                return Some(s as u32);
            }
        }
        None
    }

    /// The lowest initialized slot of chunk `chunk_pos`, if any.
    pub fn scan_chunk_lowest_init(&self, chunk_pos: i32) -> (r: Option<u32>)
        requires
            -0x800_0000 <= chunk_pos < 0x800_0000,
        ensures
            r matches Some(s) ==> s < 16 && initialized_at(self.ticks@, chunk_pos * 16 + s)
                && forall|u: int| 0 <= u < s ==> !#[trigger] initialized_at(self.ticks@, chunk_pos * 16 + u),
            r is None ==> !chunk_nonempty(self.ticks@, chunk_pos as int),
    {
        let mut s: i32 = 0;
        while s < TICKS_PER_CHUNK
            invariant
                0 <= s <= 16,
                -0x800_0000 <= chunk_pos < 0x800_0000,
                forall|u: int| 0 <= u < s ==> !#[trigger] initialized_at(self.ticks@, chunk_pos * 16 + u),
            decreases 16 - s,
        {
            let t = self.tick_info_at(chunk_pos * TICKS_PER_CHUNK + s);
            if t.liquidity_gross > 0 {
                return Some(s as u32);
            }
            s = s + 1;
        }
        None
    }

    /// Sets the chunk-bitmap flag of `chunk_pos` to `has_initialized`.
    pub fn update_chunk_bitmap_bit(&mut self, chunk_pos: i32, has_initialized: bool)
        ensures
            final(self).ticks@ == old(self).ticks@,
            final(self).word_bitmap@ == old(self).word_bitmap@,
            forall|q: int| #[trigger] chunk_flag(final(self).chunk_bitmap@, q)
                == if q == chunk_pos as int { has_initialized } else { chunk_flag(old(self).chunk_bitmap@, q) },
    {
        let (word_pos, bit_pos) = chunk_bitmap_position(chunk_pos);
        let mut word = self.chunk_word(word_pos);
        let ghost before = word;
        set_bit(&mut word, bit_pos, has_initialized);
        let ghost old_bm = self.chunk_bitmap@;
        self.chunk_bitmap.insert(word_pos, word);
        proof {
            assert forall|q: int| #[trigger] chunk_flag(self.chunk_bitmap@, q)
                == if q == chunk_pos as int { has_initialized } else { chunk_flag(old_bm, q) } by {
                let w = floor_div(q, 256);
                let i = q - w * 256;
                if w == word_pos as int {
                    assert(word_bit(word, i) == word_bit(before, i) || i == bit_pos as int);
                } else {
                    assert(q != chunk_pos as int);
                }
            }
        }
    }

    /// Applies a change of `liquidity_delta` to the boundary of a position at `tick_idx`
    /// (`is_upper` for the upper boundary) and keeps the chunk bitmap in step.
    /// `LiquidityUnderflow`, with nothing changed, when a decrease exceeds the gross liquidity.
    pub fn update_tick_liquidity(
        &mut self,
        tick_idx: i32,
        spacing: i32,
        liquidity_delta: i128,
        is_upper: bool,
        current_tick: i32,
        fee_growth_global_0: &U256,
        fee_growth_global_1: &U256,
    ) -> (r: Result<(), Error>)
        requires
            old(self).wf(),
            spacing > 0,
        ensures
            ({
                let c = floor_div(tick_idx as int, spacing as int);
                let t = tick_at(old(self).ticks@, c);
                &&& spec_gross_after(t.liquidity_gross as nat, liquidity_delta as int) < 0
                    ==> r == Err::<(), Error>(Error::LiquidityUnderflow) && *final(self) == *old(self)
                &&& spec_gross_after(t.liquidity_gross as nat, liquidity_delta as int) >= 0 ==> {
                    &&& r is Ok
                    &&& final(self).wf()
                    &&& final(self).ticks@ == old(self).ticks@.insert(c as i32, spec_updated_tick(
                        t, liquidity_delta as int, is_upper, tick_idx <= current_tick,
                        *fee_growth_global_0, *fee_growth_global_1))
                }
            }),
    {
        let compressed = compress_tick(tick_idx, spacing);
        let (chunk_pos, slot) = chunk_address(compressed);
        let mut tick = self.tick_info_at(compressed);
        let ghost t0 = tick;
        let was_initialized = tick.liquidity_gross > 0;
        let delta = crate::pool::ConcentratedLiquidityPool::abs_i128(liquidity_delta);
        if liquidity_delta >= 0 {
            tick.liquidity_gross = tick.liquidity_gross.saturating_add(delta);
        } else {
            if tick.liquidity_gross < delta {
                return Err(Error::LiquidityUnderflow);
            }
            tick.liquidity_gross = tick.liquidity_gross - delta;
        }
        if is_upper {
            tick.liquidity_net = saturating_sub_i128(tick.liquidity_net, liquidity_delta);
        } else {
            tick.liquidity_net = saturating_add_i128(tick.liquidity_net, liquidity_delta);
        }
        let is_initialized = tick.liquidity_gross > 0;
        if !was_initialized && is_initialized {
            if tick_idx <= current_tick {
                tick.fee_growth_outside_0_x128 = *fee_growth_global_0;
                tick.fee_growth_outside_1_x128 = *fee_growth_global_1;
            }
        } else if was_initialized && !is_initialized {
            tick.fee_growth_outside_0_x128 = U256::zero();
            tick.fee_growth_outside_1_x128 = U256::zero();
        }
        tick.initialized = is_initialized;
        let ghost m0 = self.ticks@;
        let ghost bm0 = self.chunk_bitmap@;
        self.ticks.insert(compressed, tick);
        proof {
            assert(tick == spec_updated_tick(t0, liquidity_delta as int, is_upper, tick_idx <= current_tick,
                *fee_growth_global_0, *fee_growth_global_1));
            // Chunks other than `chunk_pos` keep their contents.
            assert forall|cp: int| cp != chunk_pos as int implies
                chunk_nonempty(self.ticks@, cp) == #[trigger] chunk_nonempty(m0, cp) by {
                assert forall|s: int| 0 <= s < 16 implies
                    #[trigger] initialized_at(self.ticks@, cp * 16 + s) == initialized_at(m0, cp * 16 + s) by {
                    assert(cp * 16 + s != compressed as int);
                }
                if chunk_nonempty(m0, cp) {
                    let s = choose|s: int| 0 <= s < 16 && #[trigger] initialized_at(m0, cp * 16 + s);
                    assert(initialized_at(self.ticks@, cp * 16 + s));
                }
                if chunk_nonempty(self.ticks@, cp) {
                    let s = choose|s: int| 0 <= s < 16 && #[trigger] initialized_at(self.ticks@, cp * 16 + s);
                    assert(initialized_at(m0, cp * 16 + s));
                }
            }
            assert(initialized_at(self.ticks@, chunk_pos as int * 16 + slot as int) == is_initialized);
        }
        if !was_initialized && is_initialized {
            self.update_chunk_bitmap_bit(chunk_pos, true);
        } else if was_initialized && !is_initialized {
            proof {
                assert(initialized_at(m0, chunk_pos as int * 16 + slot as int));
                assert(chunk_flag(bm0, chunk_pos as int));
            }
            let any_init = self.chunk_has_initialized(chunk_pos);
            if !any_init {
                self.update_chunk_bitmap_bit(chunk_pos, false);
            }
        } else {
            proof {
                // The chunk's own contents are unchanged as far as initialization goes.
                assert forall|s: int| 0 <= s < 16 implies
                    #[trigger] initialized_at(self.ticks@, chunk_pos * 16 + s) == initialized_at(m0, chunk_pos * 16 + s) by {
                }
                if chunk_nonempty(m0, chunk_pos as int) {
                    let s = choose|s: int| 0 <= s < 16 && #[trigger] initialized_at(m0, chunk_pos * 16 + s);
                    assert(initialized_at(self.ticks@, chunk_pos * 16 + s));
                }
                if chunk_nonempty(self.ticks@, chunk_pos as int) {
                    let s = choose|s: int| 0 <= s < 16 && #[trigger] initialized_at(self.ticks@, chunk_pos * 16 + s);
                    assert(initialized_at(m0, chunk_pos * 16 + s));
                }
            }
        }
        proof {
            if !was_initialized && is_initialized {
                assert(initialized_at(self.ticks@, chunk_pos as int * 16 + slot as int));
            }
            assert forall|cp: int| #![trigger chunk_flag(self.chunk_bitmap@, cp)]
                chunk_flag(self.chunk_bitmap@, cp) == chunk_nonempty(self.ticks@, cp) by {
                if cp != chunk_pos as int {
                    assert(chunk_nonempty(self.ticks@, cp) == chunk_nonempty(m0, cp));
                    assert(chunk_flag(bm0, cp) == chunk_nonempty(m0, cp));
                }
            }
        }
        let ghost wb0 = self.word_bitmap@;
        let (word_pos, _) = chunk_bitmap_position(chunk_pos);
        self.refresh_word_flag(word_pos);
        proof {
            lemma_cword_bounds(compressed as int);
            assert forall|w: int| #![trigger chunk_flag(self.word_bitmap@, w)]
                chunk_flag(self.word_bitmap@, w) == word_nonempty(self.ticks@, w) by {
                if w != word_pos as int {
                    assert forall|c: int| w * 4096 <= c <= w * 4096 + 4095 implies
                        #[trigger] initialized_at(self.ticks@, c) == initialized_at(m0, c) by {
                        if c == compressed as int {
                            lemma_cword_range(c, w);
                        }
                    }
                    if word_nonempty(m0, w) {
                        let t = choose|t: int| w * 4096 <= t <= w * 4096 + 4095 && #[trigger] initialized_at(m0, t);
                        assert(initialized_at(self.ticks@, t));
                    }
                    if word_nonempty(self.ticks@, w) {
                        let t = choose|t: int| w * 4096 <= t <= w * 4096 + 4095 && #[trigger] initialized_at(self.ticks@, t);
                        assert(initialized_at(m0, t));
                    }
                }
            }
        }
        Ok(())
    }

    /// Crosses tick `tick_idx`: its outside fee growth becomes `global - outside` (modulo
    /// 2^256); returns its net liquidity. Liquidity and initialization are untouched.
    pub fn cross_tick(
        &mut self,
        tick_idx: i32,
        spacing: i32,
        fee_growth_global_0: &U256,
        fee_growth_global_1: &U256,
    ) -> (r: i128)
        requires
            old(self).wf(),
            spacing > 0,
        ensures
            ({
                let c = floor_div(tick_idx as int, spacing as int);
                let t = tick_at(old(self).ticks@, c);
                let n = final(self).ticks@[c as i32];
                &&& r == t.liquidity_net
                &&& final(self).wf()
                &&& final(self).ticks@ == old(self).ticks@.insert(c as i32, n)
                &&& n.liquidity_gross == t.liquidity_gross
                &&& n.liquidity_net == t.liquidity_net
                &&& n.initialized == t.initialized
                &&& n.fee_growth_outside_0_x128@ == (fee_growth_global_0@ + b256() - t.fee_growth_outside_0_x128@) % (b256() as int)
                &&& n.fee_growth_outside_1_x128@ == (fee_growth_global_1@ + b256() - t.fee_growth_outside_1_x128@) % (b256() as int)
                &&& final(self).chunk_bitmap@ == old(self).chunk_bitmap@
                &&& final(self).word_bitmap@ == old(self).word_bitmap@
            }),
    {
        let compressed = compress_tick(tick_idx, spacing);
        let mut tick = self.tick_info_at(compressed);
        tick.fee_growth_outside_0_x128 = wrapping_sub_u256(fee_growth_global_0, &tick.fee_growth_outside_0_x128);
        tick.fee_growth_outside_1_x128 = wrapping_sub_u256(fee_growth_global_1, &tick.fee_growth_outside_1_x128);
        let liquidity_net = tick.liquidity_net;
        let ghost m0 = self.ticks@;
        self.ticks.insert(compressed, tick);
        proof {
            assert forall|cp: int| #![trigger chunk_nonempty(self.ticks@, cp)]
                chunk_nonempty(self.ticks@, cp) == chunk_nonempty(m0, cp) by {
                assert forall|s: int| 0 <= s < 16 implies
                    #[trigger] initialized_at(self.ticks@, cp * 16 + s) == initialized_at(m0, cp * 16 + s) by {
                }
                if chunk_nonempty(m0, cp) {
                    let s = choose|s: int| 0 <= s < 16 && #[trigger] initialized_at(m0, cp * 16 + s);
                    assert(initialized_at(self.ticks@, cp * 16 + s));
                }
                if chunk_nonempty(self.ticks@, cp) {
                    let s = choose|s: int| 0 <= s < 16 && #[trigger] initialized_at(self.ticks@, cp * 16 + s);
                    assert(initialized_at(m0, cp * 16 + s));
                }
            }
            assert forall|c: int| #[trigger] initialized_at(self.ticks@, c) == initialized_at(m0, c) by {}
            assert forall|w: int| #![trigger chunk_flag(self.word_bitmap@, w)]
                chunk_flag(self.word_bitmap@, w) == word_nonempty(self.ticks@, w) by {
                lemma_any_initialized_congruent(self.ticks@, m0, w * 4096, w * 4096 + 4095);
            }
        }
        liquidity_net
    }

    /// A tick in a chunk whose flag is clear is not initialized.
    pub proof fn lemma_unflagged(&self, u: int)
        requires
            self.chunks_wf(),
            !chunk_flag(self.chunk_bitmap@, floor_div(u, 16)),
        ensures
            !initialized_at(self.ticks@, u),
    {
        let q = floor_div(u, 16);
        crate::bitmap::lemma_floor_div_bounds(u, 16);
        assert(!chunk_nonempty(self.ticks@, q));
        assert(u == q * 16 + (u - q * 16));
        assert(!initialized_at(self.ticks@, q * 16 + (u - q * 16)));
    }

    /// The chunk flag of `w * 256 + j` is bit `j` of chunk-bitmap word `w`.
    pub proof fn lemma_flag_bit(&self, w: int, j: int)
        requires
            0 <= j < 256,
        ensures
            chunk_flag(self.chunk_bitmap@, w * 256 + j) == bitmap_bit(self.chunk_bitmap@, w, j),
    {
        lemma_floor_div_exact(w, j, 256);
    }

    /// With the second-level bitmap in step, an unbounded downward search from `c` finds the
    /// greatest initialized tick in [`search_floor(c)`, `c`], and finds nothing only when
    /// that range holds none.
    pub proof fn lemma_search_down_span(&self, c: int)
        requires
            self.wf(),
            -0x100_0000 <= c < 0x100_0000,
        ensures
            forall|f: int| #[trigger] is_found_down(self.ticks@, self.word_bitmap@, c, i32::MIN as int, f)
                ==> is_max_initialized_in(self.ticks@, search_floor(c), c, f),
            is_none_down(self.ticks@, self.word_bitmap@, c, i32::MIN as int)
                ==> !any_initialized_in(self.ticks@, search_floor(c), c),
    {
        let m = self.ticks@;
        let wb = self.word_bitmap@;
        let w = cword(c);
        let l2 = floor_div(w, 256);
        let far = search_floor(c);
        let lo = w * 4096;
        crate::bitmap::lemma_floor_div_bounds(w, 256);
        lemma_cword_bounds(c);
        assert forall|f: int| #[trigger] is_found_down(m, wb, c, i32::MIN as int, f)
            implies is_max_initialized_in(m, far, c, f) by {
            if f < lo {
                let v = cword(f);
                lemma_cword_bounds(f);
                assert forall|u: int| f < u <= c implies !#[trigger] initialized_at(m, u) by {
                    if u < lo && u >= v * 4096 + 4096 {
                        lemma_cword_bounds(u);
                        let q = cword(u);
                        assert(!chunk_flag(wb, q));
                        assert(!word_nonempty(m, q));
                    }
                }
            }
        }
        if is_none_down(m, wb, c, i32::MIN as int) && any_initialized_in(m, far, c) {
            assert forall|u: int| lo <= u <= c implies !#[trigger] initialized_at(m, u) by {}
            let t = choose|t: int| far <= t <= c && #[trigger] initialized_at(m, t);
            assert(t < lo);
            assert(any_initialized_in(m, far, lo - 1));
            lemma_max_exists(m, far, lo - 1);
            let g = max_initialized_in(m, far, lo - 1);
            let v = cword(g);
            lemma_cword_bounds(g);
            assert(word_nonempty(m, v));
            assert forall|q: int| v < q < w implies !#[trigger] chunk_flag(wb, q) by {
                if chunk_flag(wb, q) {
                    assert(word_nonempty(m, q));
                    let u = choose|u: int| q * 4096 <= u <= q * 4096 + 4095 && #[trigger] initialized_at(m, u);
                    assert(g < u <= lo - 1);
                }
            }
            assert(is_adjacent_word(wb, w, v, true));
            assert(!initialized_at(m, g));
        }
    }

    /// Mirror of `lemma_search_down_span` for an unbounded upward search from above `c`.
    pub proof fn lemma_search_up_span(&self, c: int)
        requires
            self.wf(),
            -0x100_0000 <= c < 0x100_0000,
        ensures
            forall|f: int| #[trigger] is_found_up(self.ticks@, self.word_bitmap@, c, i32::MAX as int, f)
                ==> is_min_initialized_in(self.ticks@, c + 1, search_ceiling(c), f),
            is_none_up(self.ticks@, self.word_bitmap@, c, i32::MAX as int)
                ==> !any_initialized_in(self.ticks@, c + 1, search_ceiling(c)),
    {
        let m = self.ticks@;
        let wb = self.word_bitmap@;
        let w = cword(c + 1);
        let l2 = floor_div(w, 256);
        let far = search_ceiling(c);
        let hi = w * 4096 + 4095;
        crate::bitmap::lemma_floor_div_bounds(w, 256);
        lemma_cword_bounds(c + 1);
        assert forall|f: int| #[trigger] is_found_up(m, wb, c, i32::MAX as int, f)
            implies is_min_initialized_in(m, c + 1, far, f) by {
            if f > hi {
                let v = cword(f);
                lemma_cword_bounds(f);
                assert forall|u: int| c + 1 <= u < f implies !#[trigger] initialized_at(m, u) by {
                    if u > hi && u < v * 4096 {
                        lemma_cword_bounds(u);
                        let q = cword(u);
                        assert(!chunk_flag(wb, q));
                        assert(!word_nonempty(m, q));
                    }
                }
            }
        }
        if is_none_up(m, wb, c, i32::MAX as int) && any_initialized_in(m, c + 1, far) {
            assert forall|u: int| c + 1 <= u <= hi implies !#[trigger] initialized_at(m, u) by {}
            let t = choose|t: int| c + 1 <= t <= far && #[trigger] initialized_at(m, t);
            assert(t > hi);
            assert(any_initialized_in(m, hi + 1, far));
            lemma_min_exists(m, hi + 1, far);
            let g = min_initialized_in(m, hi + 1, far);
            let v = cword(g);
            lemma_cword_bounds(g);
            assert(word_nonempty(m, v));
            assert forall|q: int| w < q < v implies !#[trigger] chunk_flag(wb, q) by {
                if chunk_flag(wb, q) {
                    assert(word_nonempty(m, q));
                    let u = choose|u: int| q * 4096 <= u <= q * 4096 + 4095 && #[trigger] initialized_at(m, u);
                    assert(hi + 1 <= u < g);
                }
            }
            assert(is_adjacent_word(wb, w, v, false));
            assert(!initialized_at(m, g));
        }
    }

    /// The walk target of a swap is what an unbounded search (`spec_find_initialized` with the
    /// widest limit) from the current compressed tick finds: the same tick, initialized, when
    /// the search finds one; an uninitialized word boundary when it finds none.
    pub proof fn law_walk_target_is_unbounded_search(&self, tick: int, spacing: int, lte: bool)
        requires
            self.wf(),
            spacing > 0,
            MIN_TICK <= tick <= MAX_TICK,
        ensures
            ({
                let c = floor_div(tick, spacing);
                let limit: int = if lte { i32::MIN as int } else { i32::MAX as int };
                match spec_find_initialized(self.ticks@, self.word_bitmap@, c, limit, spacing, lte) {
                    Some((t, _)) => spec_next_initialized_tick(self.ticks@, tick, spacing, lte) == (t as int, true),
                    None => !spec_next_initialized_tick(self.ticks@, tick, spacing, lte).1,
                }
            }),
    {
        reveal(spec_next_initialized_tick);
        let m = self.ticks@;
        let wb = self.word_bitmap@;
        let c = floor_div(tick, spacing);
        crate::bitmap::lemma_floor_div_bounds(tick, spacing);
        if c > 887272 {
            assert(c * spacing >= c) by (nonlinear_arith) requires c > 0, spacing >= 1;
        }
        if c < -887272 {
            assert((c + 1) * spacing <= c + 1) by (nonlinear_arith) requires c + 1 < 0, spacing >= 1;
        }
        if lte {
            let limit = i32::MIN as int;
            self.lemma_search_down_span(c);
            let far = search_floor(c);
            if exists|f: int| #[trigger] is_found_down(m, wb, c, limit, f) {
                let f = choose|f: int| #[trigger] is_found_down(m, wb, c, limit, f);
                assert(is_max_initialized_in(m, far, c, f));
                lemma_max_exists(m, far, c);
                lemma_max_unique(m, far, c, f, max_initialized_in(m, far, c));
            } else if any_initialized_in(m, far, c) {
                let w = cword(c);
                let lo = w * 4096;
                crate::bitmap::lemma_floor_div_bounds(w, 256);
                lemma_cword_bounds(c);
                lemma_max_exists(m, far, c);
                let g = max_initialized_in(m, far, c);
                lemma_cword_bounds(g);
                if g < lo {
                    let v = cword(g);
                    assert(word_nonempty(m, v));
                    assert forall|q: int| v < q < w implies !#[trigger] chunk_flag(wb, q) by {
                        if chunk_flag(wb, q) {
                            assert(word_nonempty(m, q));
                            let u = choose|u: int| q * 4096 <= u <= q * 4096 + 4095 && #[trigger] initialized_at(m, u);
                            assert(g < u <= c);
                        }
                    }
                    assert(is_adjacent_word(wb, w, v, true));
                }
                assert(is_found_down(m, wb, c, limit, g));
            }
        } else {
            let limit = i32::MAX as int;
            self.lemma_search_up_span(c);
            let far = search_ceiling(c);
            if exists|f: int| #[trigger] is_found_up(m, wb, c, limit, f) {
                let f = choose|f: int| #[trigger] is_found_up(m, wb, c, limit, f);
                assert(is_min_initialized_in(m, c + 1, far, f));
                lemma_min_exists(m, c + 1, far);
                lemma_min_unique(m, c + 1, far, f, min_initialized_in(m, c + 1, far));
            } else if any_initialized_in(m, c + 1, far) {
                let w = cword(c + 1);
                let hi = w * 4096 + 4095;
                crate::bitmap::lemma_floor_div_bounds(w, 256);
                lemma_cword_bounds(c + 1);
                lemma_min_exists(m, c + 1, far);
                let g = min_initialized_in(m, c + 1, far);
                lemma_cword_bounds(g);
                if g > hi {
                    let v = cword(g);
                    assert(word_nonempty(m, v));
                    assert forall|q: int| w < q < v implies !#[trigger] chunk_flag(wb, q) by {
                        if chunk_flag(wb, q) {
                            assert(word_nonempty(m, q));
                            let u = choose|u: int| q * 4096 <= u <= q * 4096 + 4095 && #[trigger] initialized_at(m, u);
                            assert(c + 1 <= u < g);
                        }
                    }
                    assert(is_adjacent_word(wb, w, v, false));
                }
                assert(is_found_up(m, wb, c, limit, g));
            }
        }
    }

    /// The next tick a swap walks to from `tick` (see `spec_next_initialized_tick`): an
    /// unbounded search (`find_initialized_tick`) from the current compressed tick; when it
    /// finds nothing, the far boundary of the current chunk-bitmap word.
    pub fn find_initialized_tick_in_word(&self, tick: i32, spacing: i32, lte: bool) -> (r: (i32, bool))
        requires
            self.wf(),
            spacing > 0,
            MIN_TICK <= tick <= MAX_TICK,
        ensures
            (r.0 as int, r.1) == spec_next_initialized_tick(self.ticks@, tick as int, spacing as int, lte),
            MIN_TICK <= r.0 <= MAX_TICK,
    {
        reveal(spec_next_initialized_tick);
        let compressed = compress_tick(tick, spacing);
        proof {
            crate::bitmap::lemma_floor_div_bounds(tick as int, spacing as int);
            if compressed > 887272 {
                assert(compressed as int * spacing as int >= compressed as int) by (nonlinear_arith)
                    requires compressed > 0, spacing >= 1;
            }
            if compressed < -887272 {
                assert((compressed as int + 1) * spacing as int <= compressed as int + 1) by (nonlinear_arith)
                    requires compressed + 1 < 0, spacing >= 1;
            }
        }
        let ghost m = self.ticks@;
        let ghost wb = self.word_bitmap@;
        let ghost c = compressed as int;
        let limit = if lte { i32::MIN } else { i32::MAX };
        match self.find_initialized_tick(compressed, limit, spacing, lte) {
            Some((t, _)) => {
                proof {
                    if lte {
                        self.lemma_search_down_span(c);
                        let f = choose|f: int| #![trigger initialized_at(m, f)]
                            is_found_down(m, wb, c, limit as int, f) && t as int == spec_clamp_tick(f * spacing);
                        assert(is_max_initialized_in(m, search_floor(c), c, f));
                        lemma_max_exists(m, search_floor(c), c);
                        lemma_max_unique(m, search_floor(c), c, f, max_initialized_in(m, search_floor(c), c));
                    } else {
                        self.lemma_search_up_span(c);
                        let f = choose|f: int| #![trigger initialized_at(m, f)]
                            is_found_up(m, wb, c, limit as int, f) && t as int == spec_clamp_tick(f * spacing);
                        assert(is_min_initialized_in(m, c + 1, search_ceiling(c), f));
                        lemma_min_exists(m, c + 1, search_ceiling(c));
                        lemma_min_unique(m, c + 1, search_ceiling(c), f, min_initialized_in(m, c + 1, search_ceiling(c)));
                    }
                }
                (t, true)
            },
            None => {
                proof {
                    if lte {
                        self.lemma_search_down_span(c);
                    } else {
                        self.lemma_search_up_span(c);
                    }
                }
                let start = if lte { compressed } else { compressed + 1 };
                let (chunk_pos, _) = chunk_address(start);
                let (bm_word_pos, _) = chunk_bitmap_position(chunk_pos);
                proof {
                    crate::bitmap::lemma_floor_div_bounds(start as int, 16);
                    crate::bitmap::lemma_floor_div_bounds(chunk_pos as int, 256);
                }
                let boundary_compressed = if lte {
                    bm_word_pos * 256 * TICKS_PER_CHUNK
                } else {
                    (bm_word_pos * 256 + 255) * TICKS_PER_CHUNK + (TICKS_PER_CHUNK - 1)
                };
                (compressed_to_tick(boundary_compressed, spacing), false)
            },
        }
    }

    /// The highest initialized slot at or below `from` in chunk `chunk_pos`, provided its
    /// compressed tick is at least `limit`.
    pub fn scan_chunk_down(&self, chunk_pos: i32, from: u32, limit: i32) -> (r: Option<u32>)
        requires
            -0x800_0000 <= chunk_pos < 0x800_0000,
            from < 16,
        ensures
            r matches Some(s) ==> s <= from && initialized_at(self.ticks@, chunk_pos * 16 + s)
                && chunk_pos * 16 + s >= limit
                && forall|u: int| s < u <= from ==> !#[trigger] initialized_at(self.ticks@, chunk_pos * 16 + u),
            r is None ==> forall|u: int| 0 <= u <= from && chunk_pos * 16 + u >= limit
                ==> !#[trigger] initialized_at(self.ticks@, chunk_pos * 16 + u),
    {
        let mut s: i32 = from as i32 + 1;
        while s > 0
            invariant
                0 <= s <= from + 1,
                from < 16,
                -0x800_0000 <= chunk_pos < 0x800_0000,
                forall|u: int| s <= u <= from ==> !#[trigger] initialized_at(self.ticks@, chunk_pos * 16 + u),
            decreases s,
        {
            s = s - 1;
            let found = chunk_pos * TICKS_PER_CHUNK + s;
            let t = self.tick_info_at(found);
            if t.liquidity_gross > 0 {
                if found >= limit {
                    return Some(s as u32);
                }
                return None;
            }
        }
        None
    }

    /// The lowest initialized slot at or above `from` in chunk `chunk_pos`, provided its
    /// compressed tick is at most `limit`.
    pub fn scan_chunk_up(&self, chunk_pos: i32, from: u32, limit: i32) -> (r: Option<u32>)
        requires
            -0x800_0000 <= chunk_pos < 0x800_0000,
            from < 16,
        ensures
            r matches Some(s) ==> from <= s < 16 && initialized_at(self.ticks@, chunk_pos * 16 + s)
                && chunk_pos * 16 + s <= limit
                && forall|u: int| from <= u < s ==> !#[trigger] initialized_at(self.ticks@, chunk_pos * 16 + u),
            r is None ==> forall|u: int| from <= u < 16 && chunk_pos * 16 + u <= limit
                ==> !#[trigger] initialized_at(self.ticks@, chunk_pos * 16 + u),
    {
        let mut s: i32 = from as i32;
        while s < TICKS_PER_CHUNK
            invariant
                from <= s <= 16,
                from < 16,
                -0x800_0000 <= chunk_pos < 0x800_0000,
                forall|u: int| from <= u < s ==> !#[trigger] initialized_at(self.ticks@, chunk_pos * 16 + u),
            decreases 16 - s,
        {
            let found = chunk_pos * TICKS_PER_CHUNK + s;
            let t = self.tick_info_at(found);
            if t.liquidity_gross > 0 {
                if found <= limit {
                    return Some(s as u32);
                }
                return None;
            }
            s = s + 1;
        }
        None
    }

    /// The nearest chunk-bitmap word below (`lte`) or above `current_word_pos` flagged in the
    /// second-level bitmap, searching the rest of its second-level word and the next one.
    pub fn find_adjacent_chunk_bitmap_word(&self, current_word_pos: i32, lte: bool) -> (r: Option<i32>)
        requires
            -0x100_0000 <= current_word_pos < 0x100_0000,
        ensures
            ({
                let l2 = floor_div(current_word_pos as int, 256);
                let wb = self.word_bitmap@;
                &&& lte ==> (r matches Some(v) ==> (l2 - 1) * 256 <= v < current_word_pos && chunk_flag(wb, v as int)
                        && forall|q: int| v < q < current_word_pos ==> !#[trigger] chunk_flag(wb, q))
                &&& lte ==> (r is None ==> forall|q: int| (l2 - 1) * 256 <= q < current_word_pos ==> !#[trigger] chunk_flag(wb, q))
                &&& !lte ==> (r matches Some(v) ==> current_word_pos < v < (l2 + 2) * 256 && chunk_flag(wb, v as int)
                        && forall|q: int| current_word_pos < q < v ==> !#[trigger] chunk_flag(wb, q))
                &&& !lte ==> (r is None ==> forall|q: int| current_word_pos < q < (l2 + 2) * 256 ==> !#[trigger] chunk_flag(wb, q))
            }),
    {
        let (l2_pos, l2_bit) = crate::bitmap::word_bitmap_position(current_word_pos);
        let ghost wb = self.word_bitmap@;
        proof {
            lemma_floor_div_exact(l2_pos as int, l2_bit as int, 256);
        }
        let word = self.word_bitmap_word(l2_pos);
        if lte {
            if l2_bit > 0 {
                if let Some(bit) = find_prev_set_bit(&word, l2_bit - 1) {
                    let v = l2_pos * 256 + bit as i32;
                    proof {
                        lemma_flag_in_word(wb, l2_pos as int, v as int);
                        assert forall|q: int| v < q < current_word_pos implies !#[trigger] chunk_flag(wb, q) by {
                            lemma_flag_in_word(wb, l2_pos as int, q);
                            assert(!word_bit(word, q - l2_pos * 256));
                        }
                    }
                    return Some(v);
                }
            }
            let adj = l2_pos - 1;
            let adj_word = self.word_bitmap_word(adj);
            match find_prev_set_bit(&adj_word, 255) {
                Some(bit) => {
                    let v = adj * 256 + bit as i32;
                    proof {
                        lemma_flag_in_word(wb, adj as int, v as int);
                        assert forall|q: int| v < q < current_word_pos implies !#[trigger] chunk_flag(wb, q) by {
                            if q < l2_pos * 256 {
                                lemma_flag_in_word(wb, adj as int, q);
                                assert(!word_bit(adj_word, q - adj * 256));
                            } else {
                                lemma_flag_in_word(wb, l2_pos as int, q);
                                assert(!word_bit(word, q - l2_pos * 256));
                            }
                        }
                    }
                    Some(v)
                },
                None => {
                    proof {
                        assert forall|q: int| (l2_pos - 1) * 256 <= q < current_word_pos implies !#[trigger] chunk_flag(wb, q) by {
                            if q < l2_pos * 256 {
                                lemma_flag_in_word(wb, adj as int, q);
                                assert(!word_bit(adj_word, q - adj * 256));
                            } else {
                                lemma_flag_in_word(wb, l2_pos as int, q);
                                assert(!word_bit(word, q - l2_pos * 256));
                            }
                        }
                    }
                    None
                },
            }
        } else {
            if l2_bit < 255 {
                if let Some(bit) = find_next_set_bit(&word, l2_bit + 1) {
                    let v = l2_pos * 256 + bit as i32;
                    proof {
                        lemma_flag_in_word(wb, l2_pos as int, v as int);
                        assert forall|q: int| current_word_pos < q < v implies !#[trigger] chunk_flag(wb, q) by {
                            lemma_flag_in_word(wb, l2_pos as int, q);
                            assert(!word_bit(word, q - l2_pos * 256));
                        }
                    }
                    return Some(v);
                }
            }
            let adj = l2_pos + 1;
            let adj_word = self.word_bitmap_word(adj);
            match find_next_set_bit(&adj_word, 0) {
                Some(bit) => {
                    let v = adj * 256 + bit as i32;
                    proof {
                        lemma_flag_in_word(wb, adj as int, v as int);
                        assert forall|q: int| current_word_pos < q < v implies !#[trigger] chunk_flag(wb, q) by {
                            if q >= adj * 256 {
                                lemma_flag_in_word(wb, adj as int, q);
                                assert(!word_bit(adj_word, q - adj * 256));
                            } else {
                                lemma_flag_in_word(wb, l2_pos as int, q);
                                assert(!word_bit(word, q - l2_pos * 256));
                            }
                        }
                    }
                    Some(v)
                },
                None => {
                    proof {
                        assert forall|q: int| current_word_pos < q < (l2_pos + 2) * 256 implies !#[trigger] chunk_flag(wb, q) by {
                            if q >= adj * 256 {
                                lemma_flag_in_word(wb, adj as int, q);
                                assert(!word_bit(adj_word, q - adj * 256));
                            } else {
                                lemma_flag_in_word(wb, l2_pos as int, q);
                                assert(!word_bit(word, q - l2_pos * 256));
                            }
                        }
                    }
                    None
                },
            }
        }
    }

    /// Downward search in the chunk-bitmap word of compressed tick `compressed`: the greatest
    /// initialized tick of that word at or below `compressed`, when it is not below
    /// `limit_compressed`. Searches the current chunk, then the flagged chunks below it.
    fn search_word_down(&self, compressed: i32, limit_compressed: i32) -> (r: Option<i32>)
        requires
            self.chunks_wf(),
            -0x100_0000 <= compressed < 0x100_0000,
        ensures
            ({
                let m = self.ticks@;
                let c = compressed as int;
                let lo = cword(c) * 4096;
                &&& r matches Some(f) ==> lo <= f <= c && limit_compressed <= f && initialized_at(m, f as int)
                    && forall|u: int| f < u <= c ==> !#[trigger] initialized_at(m, u)
                &&& r is None ==> forall|u: int| lo <= u <= c && limit_compressed <= u ==> !#[trigger] initialized_at(m, u)
            }),
    {
        let ghost m = self.ticks@;
        let ghost c = compressed as int;
        let ghost lo = word_first_compressed(c);
        let (chunk_pos, slot) = chunk_address(compressed);
        let (bm_word_pos, bm_bit_pos) = chunk_bitmap_position(chunk_pos);
        proof {
            lemma_floor_div_exact(bm_word_pos as int, bm_bit_pos as int, 256);
            crate::bitmap::lemma_floor_div_bounds(c, 16);
            assert(lo == bm_word_pos * 4096);
            assert(lo <= chunk_pos * 16);
        }
        if let Some(s) = self.scan_chunk_down(chunk_pos, slot, limit_compressed) {
            let f = chunk_pos * TICKS_PER_CHUNK + s as i32;
            proof {
                assert forall|u: int| f < u <= c implies !#[trigger] initialized_at(m, u) by {
                    assert(initialized_at(m, chunk_pos * 16 + (u - chunk_pos * 16)) == initialized_at(m, u));
                }
            }
            return Some(f);
        }
        let word = self.chunk_word(bm_word_pos);
        proof {
            // The current chunk holds nothing at or above the limit.
            assert forall|u: int| chunk_pos * 16 <= u <= c && initialized_at(m, u) implies u < limit_compressed by {
                assert(initialized_at(m, chunk_pos * 16 + (u - chunk_pos * 16)) == initialized_at(m, u));
            }
        }
        if bm_bit_pos > 0 {
            if let Some(found_bit) = find_prev_set_bit(&word, bm_bit_pos - 1) {
                let found_chunk_pos = bm_word_pos * 256 + found_bit as i32;
                proof {
                    self.lemma_flag_bit(bm_word_pos as int, found_bit as int);
                }
                if let Some(s) = self.scan_chunk_down(found_chunk_pos, 15, limit_compressed) {
                    let f = found_chunk_pos * TICKS_PER_CHUNK + s as i32;
                    proof {
                        assert forall|u: int| f < u <= c implies !#[trigger] initialized_at(m, u) by {
                            let q = floor_div(u, 16);
                            crate::bitmap::lemma_floor_div_bounds(u, 16);
                            if q == found_chunk_pos as int {
                                assert(initialized_at(m, found_chunk_pos * 16 + (u - q * 16)) == initialized_at(m, u));
                            } else if q < chunk_pos as int {
                                let j = q - bm_word_pos * 256;
                                self.lemma_flag_bit(bm_word_pos as int, j);
                                assert(!word_bit(word, j));
                                self.lemma_unflagged(u);
                            } else {
                                assert(initialized_at(m, chunk_pos * 16 + (u - chunk_pos * 16)) == initialized_at(m, u));
                            }
                        }
                    }
                    return Some(f);
                }
                proof {
                    assert(chunk_nonempty(m, found_chunk_pos as int));
                    let s0 = choose|s: int| 0 <= s < 16 && #[trigger] initialized_at(m, found_chunk_pos * 16 + s);
                    assert(found_chunk_pos * 16 + s0 < limit_compressed);
                    assert forall|u: int| lo <= u <= c && initialized_at(m, u) implies u < limit_compressed by {
                        let q = floor_div(u, 16);
                        crate::bitmap::lemma_floor_div_bounds(u, 16);
                        if q == found_chunk_pos as int {
                            assert(initialized_at(m, found_chunk_pos * 16 + (u - q * 16)) == initialized_at(m, u));
                        } else if found_chunk_pos < q < chunk_pos {
                            let j = q - bm_word_pos * 256;
                            self.lemma_flag_bit(bm_word_pos as int, j);
                            assert(!word_bit(word, j));
                            self.lemma_unflagged(u);
                        }
                    }
                }
            } else {
                proof {
                    assert forall|u: int| lo <= u <= c && initialized_at(m, u) implies u < limit_compressed by {
                        let q = floor_div(u, 16);
                        crate::bitmap::lemma_floor_div_bounds(u, 16);
                        if q < chunk_pos {
                            let j = q - bm_word_pos * 256;
                            self.lemma_flag_bit(bm_word_pos as int, j);
                            assert(!word_bit(word, j));
                            self.lemma_unflagged(u);
                        }
                    }
                }
            }
        }
        proof {
            assert(forall|u: int| lo <= u <= c && initialized_at(m, u) ==> u < limit_compressed);
        }
        None
    }

    /// Upward search in the chunk-bitmap word of compressed tick `compressed + 1`: the least
    /// initialized tick of that word from `compressed + 1` on, when it is not above
    /// `limit_compressed`. Searches the current chunk, then the flagged chunks above it.
    fn search_word_up(&self, compressed: i32, limit_compressed: i32) -> (r: Option<i32>)
        requires
            self.chunks_wf(),
            -0x100_0000 <= compressed < 0x100_0000,
        ensures
            ({
                let m = self.ticks@;
                let c1 = compressed as int + 1;
                let hi = cword(c1) * 4096 + 4095;
                &&& r matches Some(f) ==> c1 <= f <= hi && f <= limit_compressed && initialized_at(m, f as int)
                    && forall|u: int| c1 <= u < f ==> !#[trigger] initialized_at(m, u)
                &&& r is None ==> forall|u: int| c1 <= u <= hi && u <= limit_compressed ==> !#[trigger] initialized_at(m, u)
            }),
    {
        let ghost m = self.ticks@;
        let start = compressed + 1;
        let ghost c1 = start as int;
        let ghost hi = word_first_compressed(c1) + 4095;
        let (chunk_pos, slot) = chunk_address(start);
        let (bm_word_pos, bm_bit_pos) = chunk_bitmap_position(chunk_pos);
        proof {
            lemma_floor_div_exact(bm_word_pos as int, bm_bit_pos as int, 256);
            crate::bitmap::lemma_floor_div_bounds(c1, 16);
            assert(hi == bm_word_pos * 4096 + 4095);
            assert(chunk_pos * 16 + 15 <= hi);
        }
        if let Some(s) = self.scan_chunk_up(chunk_pos, slot, limit_compressed) {
            let f = chunk_pos * TICKS_PER_CHUNK + s as i32;
            proof {
                assert forall|u: int| c1 <= u < f implies !#[trigger] initialized_at(m, u) by {
                    assert(initialized_at(m, chunk_pos * 16 + (u - chunk_pos * 16)) == initialized_at(m, u));
                }
            }
            return Some(f);
        }
        let word = self.chunk_word(bm_word_pos);
        proof {
            assert forall|u: int| c1 <= u < chunk_pos * 16 + 16 && initialized_at(m, u) implies u > limit_compressed by {
                assert(initialized_at(m, chunk_pos * 16 + (u - chunk_pos * 16)) == initialized_at(m, u));
            }
        }
        if bm_bit_pos < 255 {
            if let Some(found_bit) = find_next_set_bit(&word, bm_bit_pos + 1) {
                let found_chunk_pos = bm_word_pos * 256 + found_bit as i32;
                proof {
                    self.lemma_flag_bit(bm_word_pos as int, found_bit as int);
                }
                if let Some(s) = self.scan_chunk_up(found_chunk_pos, 0, limit_compressed) {
                    let f = found_chunk_pos * TICKS_PER_CHUNK + s as i32;
                    proof {
                        assert forall|u: int| c1 <= u < f implies !#[trigger] initialized_at(m, u) by {
                            let q = floor_div(u, 16);
                            crate::bitmap::lemma_floor_div_bounds(u, 16);
                            if q == found_chunk_pos as int {
                                assert(initialized_at(m, found_chunk_pos * 16 + (u - q * 16)) == initialized_at(m, u));
                            } else if q > chunk_pos as int {
                                let j = q - bm_word_pos * 256;
                                self.lemma_flag_bit(bm_word_pos as int, j);
                                assert(!word_bit(word, j));
                                self.lemma_unflagged(u);
                            } else {
                                assert(initialized_at(m, chunk_pos * 16 + (u - chunk_pos * 16)) == initialized_at(m, u));
                            }
                        }
                    }
                    return Some(f);
                }
                proof {
                    assert(chunk_nonempty(m, found_chunk_pos as int));
                    let s0 = choose|s: int| 0 <= s < 16 && #[trigger] initialized_at(m, found_chunk_pos * 16 + s);
                    assert(found_chunk_pos * 16 + s0 > limit_compressed);
                    assert forall|u: int| c1 <= u <= hi && initialized_at(m, u) implies u > limit_compressed by {
                        let q = floor_div(u, 16);
                        crate::bitmap::lemma_floor_div_bounds(u, 16);
                        if q == found_chunk_pos as int {
                            assert(initialized_at(m, found_chunk_pos * 16 + (u - q * 16)) == initialized_at(m, u));
                        } else if chunk_pos < q < found_chunk_pos {
                            let j = q - bm_word_pos * 256;
                            self.lemma_flag_bit(bm_word_pos as int, j);
                            assert(!word_bit(word, j));
                            self.lemma_unflagged(u);
                        }
                    }
                }
            } else {
                proof {
                    assert forall|u: int| c1 <= u <= hi && initialized_at(m, u) implies u > limit_compressed by {
                        let q = floor_div(u, 16);
                        crate::bitmap::lemma_floor_div_bounds(u, 16);
                        if q > chunk_pos {
                            let j = q - bm_word_pos * 256;
                            self.lemma_flag_bit(bm_word_pos as int, j);
                            assert(!word_bit(word, j));
                            self.lemma_unflagged(u);
                        }
                    }
                }
            }
        }
        proof {
            assert(forall|u: int| c1 <= u <= hi && initialized_at(m, u) ==> u > limit_compressed);
        }
        None
    }

    /// Downward search in the word the second-level bitmap flags next below chunk-bitmap word
    /// `w`: the greatest initialized tick of that word, when it is not below `limit_compressed`.
    fn search_adjacent_down(&self, w: i32, limit_compressed: i32) -> (r: Option<i32>)
        requires
            self.wf(),
            -0x1001 <= w <= 0x1000,
        ensures
            ({
                let m = self.ticks@;
                let wb = self.word_bitmap@;
                &&& r matches Some(f) ==> is_adjacent_word(wb, w as int, cword(f as int), true)
                    && limit_compressed <= f && initialized_at(m, f as int)
                    && forall|u: int| f < u < cword(f as int) * 4096 + 4096 ==> !#[trigger] initialized_at(m, u)
                &&& r is None ==> forall|v: int, u: int|
                    #![trigger is_adjacent_word(wb, w as int, v, true), initialized_at(m, u)]
                    is_adjacent_word(wb, w as int, v, true) && v * 4096 <= u < v * 4096 + 4096 && limit_compressed <= u
                    ==> !initialized_at(m, u)
            }),
    {
        let ghost m = self.ticks@;
        let ghost wb = self.word_bitmap@;
        if let Some(target_word) = self.find_adjacent_chunk_bitmap_word(w, true) {
            let target_bits = self.chunk_word(target_word);
            if let Some(found_bit) = find_prev_set_bit(&target_bits, 255) {
                let found_chunk_pos = target_word * 256 + found_bit as i32;
                proof {
                    self.lemma_flag_bit(target_word as int, found_bit as int);
                    assert(chunk_nonempty(m, found_chunk_pos as int));
                }
                match self.scan_chunk_down(found_chunk_pos, 15, limit_compressed) {
                    Some(s) => {
                        let f = found_chunk_pos * TICKS_PER_CHUNK + s as i32;
                        proof {
                            lemma_cword_range(f as int, target_word as int);
                            assert forall|u: int| f < u < cword(f as int) * 4096 + 4096 implies !#[trigger] initialized_at(m, u) by {
                                let q = floor_div(u, 16);
                                crate::bitmap::lemma_floor_div_bounds(u, 16);
                                if q == found_chunk_pos as int {
                                    assert(initialized_at(m, found_chunk_pos * 16 + (u - q * 16)) == initialized_at(m, u));
                                } else {
                                    let j = q - target_word * 256;
                                    self.lemma_flag_bit(target_word as int, j);
                                    assert(!word_bit(target_bits, j));
                                    self.lemma_unflagged(u);
                                }
                            }
                        }
                        return Some(f);
                    },
                    None => {
                        proof {
                            let s0 = choose|s: int| 0 <= s < 16 && #[trigger] initialized_at(m, found_chunk_pos * 16 + s);
                            assert(found_chunk_pos * 16 + s0 < limit_compressed);
                            assert forall|v: int, u: int|
                                #![trigger is_adjacent_word(wb, w as int, v, true), initialized_at(m, u)]
                                is_adjacent_word(wb, w as int, v, true) && v * 4096 <= u < v * 4096 + 4096 && limit_compressed <= u
                                implies !initialized_at(m, u) by {
                                lemma_adjacent_unique(wb, w as int, v, target_word as int, true);
                                let q = floor_div(u, 16);
                                crate::bitmap::lemma_floor_div_bounds(u, 16);
                                if q == found_chunk_pos as int {
                                    assert(initialized_at(m, found_chunk_pos * 16 + (u - q * 16)) == initialized_at(m, u));
                                } else if q > found_chunk_pos as int {
                                    let j = q - target_word * 256;
                                    self.lemma_flag_bit(target_word as int, j);
                                    assert(!word_bit(target_bits, j));
                                    self.lemma_unflagged(u);
                                }
                            }
                        }
                        return None;
                    },
                }
            }
            proof {
                assert forall|v: int, u: int|
                    #![trigger is_adjacent_word(wb, w as int, v, true), initialized_at(m, u)]
                    is_adjacent_word(wb, w as int, v, true) && v * 4096 <= u < v * 4096 + 4096 && limit_compressed <= u
                    implies !initialized_at(m, u) by {
                    lemma_adjacent_unique(wb, w as int, v, target_word as int, true);
                    let q = floor_div(u, 16);
                    crate::bitmap::lemma_floor_div_bounds(u, 16);
                    let j = q - target_word * 256;
                    self.lemma_flag_bit(target_word as int, j);
                    assert(!word_bit(target_bits, j));
                    self.lemma_unflagged(u);
                }
            }
            return None;
        }
        None
    }

    /// Upward search in the word the second-level bitmap flags next above chunk-bitmap word
    /// `w`: the least initialized tick of that word, when it is not above `limit_compressed`.
    fn search_adjacent_up(&self, w: i32, limit_compressed: i32) -> (r: Option<i32>)
        requires
            self.wf(),
            -0x1001 <= w <= 0x1000,
        ensures
            ({
                let m = self.ticks@;
                let wb = self.word_bitmap@;
                &&& r matches Some(f) ==> is_adjacent_word(wb, w as int, cword(f as int), false)
                    && f <= limit_compressed && initialized_at(m, f as int)
                    && forall|u: int| cword(f as int) * 4096 <= u < f ==> !#[trigger] initialized_at(m, u)
                &&& r is None ==> forall|v: int, u: int|
                    #![trigger is_adjacent_word(wb, w as int, v, false), initialized_at(m, u)]
                    is_adjacent_word(wb, w as int, v, false) && v * 4096 <= u < v * 4096 + 4096 && u <= limit_compressed
                    ==> !initialized_at(m, u)
            }),
    {
        let ghost m = self.ticks@;
        let ghost wb = self.word_bitmap@;
        if let Some(target_word) = self.find_adjacent_chunk_bitmap_word(w, false) {
            let target_bits = self.chunk_word(target_word);
            if let Some(found_bit) = find_next_set_bit(&target_bits, 0) {
                let found_chunk_pos = target_word * 256 + found_bit as i32;
                proof {
                    self.lemma_flag_bit(target_word as int, found_bit as int);
                    assert(chunk_nonempty(m, found_chunk_pos as int));
                }
                match self.scan_chunk_up(found_chunk_pos, 0, limit_compressed) {
                    Some(s) => {
                        let f = found_chunk_pos * TICKS_PER_CHUNK + s as i32;
                        proof {
                            lemma_cword_range(f as int, target_word as int);
                            assert forall|u: int| cword(f as int) * 4096 <= u < f implies !#[trigger] initialized_at(m, u) by {
                                let q = floor_div(u, 16);
                                crate::bitmap::lemma_floor_div_bounds(u, 16);
                                if q == found_chunk_pos as int {
                                    assert(initialized_at(m, found_chunk_pos * 16 + (u - q * 16)) == initialized_at(m, u));
                                } else {
                                    let j = q - target_word * 256;
                                    self.lemma_flag_bit(target_word as int, j);
                                    assert(!word_bit(target_bits, j));
                                    self.lemma_unflagged(u);
                                }
                            }
                        }
                        return Some(f);
                    },
                    None => {
                        proof {
                            let s0 = choose|s: int| 0 <= s < 16 && #[trigger] initialized_at(m, found_chunk_pos * 16 + s);
                            assert(found_chunk_pos * 16 + s0 > limit_compressed);
                            assert forall|v: int, u: int|
                                #![trigger is_adjacent_word(wb, w as int, v, false), initialized_at(m, u)]
                                is_adjacent_word(wb, w as int, v, false) && v * 4096 <= u < v * 4096 + 4096 && u <= limit_compressed
                                implies !initialized_at(m, u) by {
                                lemma_adjacent_unique(wb, w as int, v, target_word as int, false);
                                let q = floor_div(u, 16);
                                crate::bitmap::lemma_floor_div_bounds(u, 16);
                                if q == found_chunk_pos as int {
                                    assert(initialized_at(m, found_chunk_pos * 16 + (u - q * 16)) == initialized_at(m, u));
                                } else if q < found_chunk_pos as int {
                                    let j = q - target_word * 256;
                                    self.lemma_flag_bit(target_word as int, j);
                                    assert(!word_bit(target_bits, j));
                                    self.lemma_unflagged(u);
                                }
                            }
                        }
                        return None;
                    },
                }
            }
            proof {
                assert forall|v: int, u: int|
                    #![trigger is_adjacent_word(wb, w as int, v, false), initialized_at(m, u)]
                    is_adjacent_word(wb, w as int, v, false) && v * 4096 <= u < v * 4096 + 4096 && u <= limit_compressed
                    implies !initialized_at(m, u) by {
                    lemma_adjacent_unique(wb, w as int, v, target_word as int, false);
                    let q = floor_div(u, 16);
                    crate::bitmap::lemma_floor_div_bounds(u, 16);
                    let j = q - target_word * 256;
                    self.lemma_flag_bit(target_word as int, j);
                    assert(!word_bit(target_bits, j));
                    self.lemma_unflagged(u);
                }
            }
            return None;
        }
        None
    }

    /// The nearest initialized tick for the snapshot walk: downward (`lte`) from `compressed`
    /// not below `limit_compressed`, upward from `compressed + 1` not above it. Searches the
    /// current chunk-bitmap word, then the word the second-level bitmap flags next to it
    /// (see `is_found_down` / `is_none_down` and their upward mirrors, which admit exactly one
    /// outcome). Returns the tick and its net liquidity.
    pub fn find_initialized_tick(&self, compressed: i32, limit_compressed: i32, spacing: i32, lte: bool) -> (r: Option<(i32, i128)>)
        requires
            self.wf(),
            -0x100_0000 <= compressed < 0x100_0000,
        ensures
            ({
                let m = self.ticks@;
                let wb = self.word_bitmap@;
                let c = compressed as int;
                let l = limit_compressed as int;
                &&& lte ==> (r matches Some((t, net)) ==> exists|f: int| #![trigger initialized_at(m, f)]
                        is_found_down(m, wb, c, l, f)
                        && t as int == spec_clamp_tick(f * spacing) && net == tick_at(m, f).liquidity_net)
                &&& lte ==> (r is None ==> is_none_down(m, wb, c, l))
                &&& !lte ==> (r matches Some((t, net)) ==> exists|f: int| #![trigger initialized_at(m, f)]
                        is_found_up(m, wb, c, l, f)
                        && t as int == spec_clamp_tick(f * spacing) && net == tick_at(m, f).liquidity_net)
                &&& !lte ==> (r is None ==> is_none_up(m, wb, c, l))
                &&& r matches Some((t, _)) ==> MIN_TICK <= t <= MAX_TICK
                &&& r == spec_find_initialized(m, wb, c, l, spacing as int, lte)
            }),
    {
        let ghost m = self.ticks@;
        let ghost wb = self.word_bitmap@;
        let ghost c = compressed as int;
        let start = if lte { compressed } else { compressed + 1 };
        let (chunk_pos, _) = chunk_address(start);
        let (w, _) = chunk_bitmap_position(chunk_pos);
        proof {
            crate::bitmap::lemma_floor_div_bounds(start as int, 16);
            crate::bitmap::lemma_floor_div_bounds(chunk_pos as int, 256);
            assert(w as int == cword(start as int));
        }
        let found = if lte {
            match self.search_word_down(compressed, limit_compressed) {
                Some(f) => Some(f),
                None => {
                    let res = self.search_adjacent_down(w, limit_compressed);
                    proof {
                        if let Some(f) = res {
                            lemma_cword_bounds(f as int);
                            assert(f < w * 4096);
                            assert forall|u: int| f < u <= c && cword(c) * 4096 <= u implies !#[trigger] initialized_at(m, u) by {}
                        }
                    }
                    res
                },
            }
        } else {
            match self.search_word_up(compressed, limit_compressed) {
                Some(f) => Some(f),
                None => {
                    let res = self.search_adjacent_up(w, limit_compressed);
                    proof {
                        if let Some(f) = res {
                            lemma_cword_bounds(f as int);
                            assert(f > w * 4096 + 4095);
                            assert forall|u: int| c + 1 <= u < f && u <= cword(c + 1) * 4096 + 4095
                                implies !#[trigger] initialized_at(m, u) by {}
                        }
                    }
                    res
                },
            }
        };
        let ghost l = limit_compressed as int;
        match found {
            Some(f) => {
                proof {
                    if lte {
                        assert(is_found_down(m, wb, c, l, f as int));
                        let g = choose|g: int| #[trigger] is_found_down(m, wb, c, l, g);
                        lemma_found_down_unique(m, wb, c, l, f as int, g);
                    } else {
                        assert(is_found_up(m, wb, c, l, f as int));
                        let g = choose|g: int| #[trigger] is_found_up(m, wb, c, l, g);
                        lemma_found_up_unique(m, wb, c, l, f as int, g);
                    }
                }
                let net = self.tick_info_at(f).liquidity_net;
                Some((compressed_to_tick(f, spacing), net))
            },
            None => {
                proof {
                    if lte {
                        if exists|g: int| #[trigger] is_found_down(m, wb, c, l, g) {
                            let g = choose|g: int| #[trigger] is_found_down(m, wb, c, l, g);
                            lemma_found_down_unique(m, wb, c, l, g, g);
                        }
                    } else {
                        if exists|g: int| #[trigger] is_found_up(m, wb, c, l, g) {
                            let g = choose|g: int| #[trigger] is_found_up(m, wb, c, l, g);
                            lemma_found_up_unique(m, wb, c, l, g, g);
                        }
                    }
                }
                None
            },
        }
    }

    /// Sets the second-level flag of chunk-bitmap word `word_pos` to whether that word holds
    /// an initialized tick.
    pub fn refresh_word_flag(&mut self, word_pos: i32)
        requires
            old(self).chunks_wf(),
        ensures
            final(self).chunks_wf(),
            final(self).ticks@ == old(self).ticks@,
            final(self).chunk_bitmap@ == old(self).chunk_bitmap@,
            forall|q: int| #[trigger] chunk_flag(final(self).word_bitmap@, q)
                == if q == word_pos as int { word_nonempty(old(self).ticks@, q) } else { chunk_flag(old(self).word_bitmap@, q) },
    {
        let ghost m = self.ticks@;
        let chunk_word = self.chunk_word(word_pos);
        let nonzero = find_next_set_bit(&chunk_word, 0).is_some();
        proof {
            let lo = word_pos * 4096;
            let hi = word_pos * 4096 + 4095;
            if nonzero {
                let j = choose|j: int| 0 <= j < 256 && #[trigger] word_bit(chunk_word, j);
                self.lemma_flag_bit(word_pos as int, j);
                assert(chunk_nonempty(m, word_pos * 256 + j));
                let s = choose|s: int| 0 <= s < 16 && #[trigger] initialized_at(m, (word_pos * 256 + j) * 16 + s);
                assert(lo <= (word_pos * 256 + j) * 16 + s <= hi);
                assert(any_initialized_in(m, lo, hi));
            } else {
                assert forall|u: int| lo <= u <= hi implies !#[trigger] initialized_at(m, u) by {
                    let q = floor_div(u, 16);
                    crate::bitmap::lemma_floor_div_bounds(u, 16);
                    let j = q - word_pos * 256;
                    self.lemma_flag_bit(word_pos as int, j);
                    assert(!word_bit(chunk_word, j));
                    self.lemma_unflagged(u);
                }
            }
        }
        self.update_word_bitmap_bit(word_pos, nonzero);
    }

    /// Sets the second-level flag of chunk-bitmap word `word_pos`.
    pub fn update_word_bitmap_bit(&mut self, word_pos: i32, nonzero: bool)
        ensures
            final(self).ticks@ == old(self).ticks@,
            final(self).chunk_bitmap@ == old(self).chunk_bitmap@,
            forall|q: int| #[trigger] chunk_flag(final(self).word_bitmap@, q)
                == if q == word_pos as int { nonzero } else { chunk_flag(old(self).word_bitmap@, q) },
    {
        let (l2_pos, l2_bit) = crate::bitmap::word_bitmap_position(word_pos);
        let mut word = self.word_bitmap_word(l2_pos);
        let ghost before = word;
        set_bit(&mut word, l2_bit, nonzero);
        let ghost old_wb = self.word_bitmap@;
        self.word_bitmap.insert(l2_pos, word);
        proof {
            assert forall|q: int| #[trigger] chunk_flag(self.word_bitmap@, q)
                == if q == word_pos as int { nonzero } else { chunk_flag(old_wb, q) } by {
                let w = floor_div(q, 256);
                let i = q - w * 256;
                if w == l2_pos as int {
                    assert(word_bit(word, i) == word_bit(before, i) || i == l2_bit as int);
                } else {
                    assert(q != word_pos as int);
                }
            }
        }
    }

    /// The lowest (`!high`) or highest initialized tick of chunk-bitmap word `word_pos`,
    /// scaled by `spacing` and kept within the tick bounds; `None` when the word holds none.
    pub fn extreme_tick_in_bitmap_word(&self, word_pos: i32, spacing: i32, high: bool) -> (r: Option<i32>)
        requires
            self.chunks_wf(),
            -0x1000 < word_pos < 0x1000,
        ensures
            ({
                let m = self.ticks@;
                let lo = word_pos * 4096;
                let hi = word_pos * 4096 + 4095;
                &&& !any_initialized_in(m, lo, hi) ==> r is None
                &&& any_initialized_in(m, lo, hi) && high ==> r == Some(spec_clamp_tick(max_initialized_in(m, lo, hi) * spacing) as i32)
                &&& any_initialized_in(m, lo, hi) && !high ==> r == Some(spec_clamp_tick(min_initialized_in(m, lo, hi) * spacing) as i32)
            }),
    {
        let ghost m = self.ticks@;
        let ghost lo = word_pos * 4096;
        let ghost hi = word_pos * 4096 + 4095;
        proof {
            lemma_cword_range(hi, word_pos as int);
            lemma_cword_range(lo, word_pos as int);
        }
        let found = if high {
            self.search_word_down(word_pos * 4096 + 4095, i32::MIN)
        } else {
            self.search_word_up(word_pos * 4096 - 1, i32::MAX)
        };
        match found {
            Some(f) => {
                proof {
                    if high {
                        assert(is_max_initialized_in(m, lo, hi, f as int));
                        lemma_max_exists(m, lo, hi);
                        lemma_max_unique(m, lo, hi, f as int, max_initialized_in(m, lo, hi));
                    } else {
                        assert(is_min_initialized_in(m, lo, hi, f as int));
                        lemma_min_exists(m, lo, hi);
                        lemma_min_unique(m, lo, hi, f as int, min_initialized_in(m, lo, hi));
                    }
                }
                Some(compressed_to_tick(f, spacing))
            },
            None => {
                proof {
                    if any_initialized_in(m, lo, hi) {
                        let t = choose|t: int| lo <= t <= hi && #[trigger] initialized_at(m, t);
                        assert(!initialized_at(m, t));
                    }
                }
                None
            },
        }
    }

    /// Sets the second-level flags of chunk-bitmap words `from_word..=to_word` to whether each
    /// word holds an initialized tick, and widens the bounds `(current_min, current_max)` of
    /// the initialized ticks by those words' lowest and highest ones (see
    /// `spec_migrated_bounds`). Returns the new bounds.
    pub fn migrate_bitmap(&mut self, from_word: i32, to_word: i32, spacing: i32, current_min: i32, current_max: i32)
        -> (r: (i32, i32))
        requires
            old(self).chunks_wf(),
            -0x1000 < from_word,
            to_word < 0x1000,
        ensures
            final(self).chunks_wf(),
            final(self).ticks@ == old(self).ticks@,
            final(self).chunk_bitmap@ == old(self).chunk_bitmap@,
            forall|q: int| #[trigger] chunk_flag(final(self).word_bitmap@, q) == if from_word <= q <= to_word {
                any_initialized_in(old(self).ticks@, q * 4096, q * 4096 + 4095)
            } else {
                chunk_flag(old(self).word_bitmap@, q)
            },
            from_word <= to_word ==> (r.0 as int, r.1 as int) == spec_migrated_bounds(old(self).ticks@, spacing as int, from_word as int,
                (to_word - from_word + 1) as nat, current_min as int, current_max as int),
            from_word > to_word ==> r == (current_min, current_max),
    {
        let ghost m = self.ticks@;
        let ghost wb0 = self.word_bitmap@;
        let mut min = current_min;
        let mut max = current_max;
        if from_word > to_word {
            return (min, max);
        }
        let mut word_pos = from_word;
        loop
            invariant
                self.chunks_wf(),
                self.ticks@ == m,
                self.chunk_bitmap@ == old(self).chunk_bitmap@,
                m == old(self).ticks@,
                wb0 == old(self).word_bitmap@,
                -0x1000 < from_word <= word_pos <= to_word < 0x1000,
                forall|q: int| #[trigger] chunk_flag(self.word_bitmap@, q) == if from_word <= q < word_pos {
                    any_initialized_in(m, q * 4096, q * 4096 + 4095)
                } else {
                    chunk_flag(wb0, q)
                },
                (min as int, max as int) == spec_migrated_bounds(m, spacing as int, from_word as int,
                    (word_pos - from_word) as nat, current_min as int, current_max as int),
            decreases to_word - word_pos,
        {
            self.refresh_word_flag(word_pos);
            let low = self.extreme_tick_in_bitmap_word(word_pos, spacing, false);
            let high = self.extreme_tick_in_bitmap_word(word_pos, spacing, true);
            if let Some(l) = low {
                if l < min {
                    min = l;
                }
            }
            if let Some(h) = high {
                if h > max {
                    max = h;
                }
            }
            if word_pos == to_word {
                return (min, max);
            }
            word_pos = word_pos + 1;
        }
    }

    /// Bitmap word `w` of the second-level bitmap; an absent word is zero.
    pub fn word_bitmap_word(&self, w: i32) -> (r: [u8; 32])
        ensures
            forall|i: int| #[trigger] word_bit(r, i) == bitmap_bit(self.word_bitmap@, w as int, i),
    {
        match self.word_bitmap.get(&w) {
            Some(word) => *word,
            None => {
                let z = [0u8; 32];
                proof { lemma_zero_word(z); }
                z
            },
        }
    }
}

/// No bit of an all-zero word is set.
proof fn lemma_zero_word(z: [u8; 32])
    requires
        forall|k: int| 0 <= k < 32 ==> z@[k] == 0u8,
    ensures
        forall|i: int| !#[trigger] word_bit(z, i),
{
    assert forall|i: int| !#[trigger] word_bit(z, i) by {
        if 0 <= i < 256 {
            let b = z@[31 - i / 8];
            let k = (i % 8) as u8;
            assert(b == 0u8);
            assert((0u8 >> k) & 1u8 != 1u8) by (bit_vector);
        }
    }
}

} // verus!
