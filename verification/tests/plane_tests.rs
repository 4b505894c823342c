use concentrated_pool::bitmap::{
    chunk_address, chunk_bitmap_position, compress_tick, set_bit, word_bitmap_position,
};
use concentrated_pool::plane::{
    exact_tick_steps_for_spacing, full_range_liquidity_net_adjustment,
    full_range_ticks_for_spacing,
};
use concentrated_pool::ticks::TickStore;
use concentrated_pool::types::TickInfo;
use concentrated_pool::u256::U256;

fn check_exact_tick_steps_for_spacing_bounds() {
    assert_eq!(exact_tick_steps_for_spacing(0), 0);
    assert_eq!(exact_tick_steps_for_spacing(-1), 0);
    assert_eq!(exact_tick_steps_for_spacing(1), 20);
    assert_eq!(exact_tick_steps_for_spacing(10), 20);
    assert_eq!(exact_tick_steps_for_spacing(60), 14);
    assert_eq!(exact_tick_steps_for_spacing(200), 8);
}

fn check_full_range_ticks_for_spacing() {
    assert_eq!(full_range_ticks_for_spacing(0), None);
    assert_eq!(full_range_ticks_for_spacing(-1), None);
    assert_eq!(full_range_ticks_for_spacing(1), Some((-887_272, 887_272)));
    assert_eq!(full_range_ticks_for_spacing(10), Some((-887_270, 887_270)));
    assert_eq!(full_range_ticks_for_spacing(60), Some((-887_220, 887_220)));
}

fn check_full_range_liquidity_net_adjustment() {
    let spacing = 20;
    let (fr_lower, fr_upper) = full_range_ticks_for_spacing(spacing).unwrap();
    let fl: u128 = 1_000_000;

    // At the full-range lower tick: subtract the full-range contribution.
    assert_eq!(
        full_range_liquidity_net_adjustment(fr_lower, spacing, fr_lower, fr_upper, fl),
        -(fl as i128)
    );
    // At the full-range upper tick: add it back.
    assert_eq!(
        full_range_liquidity_net_adjustment(fr_upper, spacing, fr_lower, fr_upper, fl),
        fl as i128
    );
    // At an unrelated tick: no adjustment.
    assert_eq!(
        full_range_liquidity_net_adjustment(0, spacing, fr_lower, fr_upper, fl),
        0
    );
    // With zero full-range liquidity: no adjustment anywhere.
    assert_eq!(
        full_range_liquidity_net_adjustment(fr_lower, spacing, fr_lower, fr_upper, 0),
        0
    );
    // With zero spacing: no adjustment.
    assert_eq!(
        full_range_liquidity_net_adjustment(fr_lower, 0, fr_lower, fr_upper, fl),
        0
    );
}

#[test]
fn plane_test_exact_tick_steps_for_spacing_bounds() {
    check_exact_tick_steps_for_spacing_bounds();
}

#[test]
fn plane_test_full_range_ticks_for_spacing() {
    check_full_range_ticks_for_spacing();
}

#[test]
fn plane_test_full_range_liquidity_net_adjustment() {
    check_full_range_liquidity_net_adjustment();
}

#[test]
fn plane_tests_test_exact_tick_steps_for_spacing_bounds() {
    check_exact_tick_steps_for_spacing_bounds();
}

#[test]
fn plane_tests_test_full_range_ticks_for_spacing() {
    check_full_range_ticks_for_spacing();
}

#[test]
fn plane_tests_test_full_range_liquidity_net_adjustment() {
    check_full_range_liquidity_net_adjustment();
}

/// A store holding one initialized tick at `compressed`, flagged in both bitmap levels.
fn store_with_initialized_tick(compressed: i32, liquidity_net: i128) -> TickStore {
    let mut store = TickStore::new();
    store.ticks.insert(
        compressed,
        TickInfo {
            fee_growth_outside_0_x128: U256::zero(),
            fee_growth_outside_1_x128: U256::zero(),
            initialized: true,
            liquidity_gross: 1,
            liquidity_net,
        },
    );
    let (chunk_pos, _) = chunk_address(compressed);
    let (bm_word_pos, bm_bit_pos) = chunk_bitmap_position(chunk_pos);
    let mut bm_arr = [0u8; 32];
    set_bit(&mut bm_arr, bm_bit_pos, true);
    store.chunk_bitmap.insert(bm_word_pos, bm_arr);

    let (l2_word_pos, l2_bit_pos) = word_bitmap_position(bm_word_pos);
    let mut l2_arr = [0u8; 32];
    set_bit(&mut l2_arr, l2_bit_pos, true);
    store.word_bitmap.insert(l2_word_pos, l2_arr);
    store
}

#[test]
fn test_find_initialized_tick_downward_across_chunk_bitmap_word_boundary() {
    let store = store_with_initialized_tick(-1, 500);
    assert_eq!(
        store.find_initialized_tick(0, i32::MIN, 200, true),
        Some((-200, 500))
    );
}

#[test]
fn test_find_initialized_tick_upward_across_chunk_bitmap_word_boundary() {
    let store = store_with_initialized_tick(4_096, 750);
    assert_eq!(
        store.find_initialized_tick(4_080, i32::MAX, 200, false),
        Some((819_200, 750))
    );
}

#[test]
fn test_find_initialized_tick_downward_l2_respects_limit_compressed() {
    let compressed = compress_tick(-3_200, 200);
    assert_eq!(chunk_address(compressed), (-1, 0));
    let store = store_with_initialized_tick(compressed, 300);

    assert_eq!(
        store.find_initialized_tick(0, i32::MIN, 200, true),
        Some((-3_200, 300))
    );
    assert_eq!(store.find_initialized_tick(0, -10, 200, true), None);
}

#[test]
fn test_find_initialized_tick_equivalence() {
    let run_case = |current_tick: i32, init_tick: i32, lte: bool, liquidity_net: i128| {
        let spacing = 1;
        let current_compressed = compress_tick(current_tick, spacing);
        let init_compressed = compress_tick(init_tick, spacing);
        let store = store_with_initialized_tick(init_compressed, liquidity_net);

        let permissive_limit = if lte { i32::MIN } else { i32::MAX };
        let plane_result =
            store.find_initialized_tick(current_compressed, permissive_limit, spacing, lte);
        let (internal_tick, internal_initialized) =
            store.find_initialized_tick_in_word(current_tick, spacing, lte);

        assert!(internal_initialized);
        assert_eq!(internal_tick, init_tick);
        assert_eq!(plane_result, Some((init_tick, liquidity_net)));
        assert_eq!(plane_result.unwrap().0, internal_tick);

        let bounded_limit = if lte { init_compressed + 1 } else { init_compressed - 1 };
        assert_eq!(
            store.find_initialized_tick(current_compressed, bounded_limit, spacing, lte),
            None
        );
    };

    run_case(5, 3, true, 101);
    run_case(5, 8, false, 102);
    run_case(1_600, 815, true, 201);
    run_case(815, 1_600, false, 202);
    run_case(4_160, 0, true, 301);
    run_case(0, 4_160, false, 302);
}

#[test]
fn swap_walk_reports_the_word_edge_when_nothing_is_in_reach() {
    // With no initialized tick in the searched words the walk stops at the edge of the
    // current chunk-bitmap word, uninitialized.
    let store = TickStore::new();
    assert_eq!(store.find_initialized_tick_in_word(4_160, 1, true), (4_096, false));
    assert_eq!(store.find_initialized_tick_in_word(0, 1, false), (4_095, false));
    assert_eq!(store.find_initialized_tick_in_word(-1, 10, true), (-40_960, false));
}

/// A store with initialized ticks at `compressed`, flagged in the chunk bitmap only.
fn store_without_word_flags(compressed: &[i32]) -> TickStore {
    let mut store = TickStore::new();
    for &c in compressed {
        store.ticks.insert(
            c,
            TickInfo {
                fee_growth_outside_0_x128: U256::zero(),
                fee_growth_outside_1_x128: U256::zero(),
                initialized: true,
                liquidity_gross: 1,
                liquidity_net: 1,
            },
        );
        let (chunk_pos, _) = chunk_address(c);
        let (bm_word_pos, bm_bit_pos) = chunk_bitmap_position(chunk_pos);
        let mut bm_arr = *store.chunk_bitmap.get(&bm_word_pos).unwrap_or(&[0u8; 32]);
        set_bit(&mut bm_arr, bm_bit_pos, true);
        store.chunk_bitmap.insert(bm_word_pos, bm_arr);
    }
    store
}

#[test]
fn extreme_ticks_of_a_chunk_bitmap_word() {
    let store = store_without_word_flags(&[4_100, 5_000, 8_000]);
    assert_eq!(store.extreme_tick_in_bitmap_word(1, 10, false), Some(41_000));
    assert_eq!(store.extreme_tick_in_bitmap_word(1, 10, true), Some(80_000));
    assert_eq!(store.extreme_tick_in_bitmap_word(0, 10, true), None);
}

#[test]
fn migrated_word_flags_open_the_search_across_words() {
    let mut store = store_without_word_flags(&[-1, 9_000]);
    // Without second-level flags a search stops at its own chunk-bitmap word.
    assert_eq!(store.find_initialized_tick(0, i32::MIN, 1, true), None);
    let (min, max) = store.migrate_bitmap(-3, 3, 1, i32::MAX, i32::MIN);
    assert_eq!((min, max), (-1, 9_000));
    assert_eq!(store.find_initialized_tick(0, i32::MIN, 1, true), Some((-1, 1)));
    assert_eq!(store.find_initialized_tick(100, i32::MAX, 1, false), Some((9_000, 1)));
    // Bounds already wider stay.
    let (min, max) = store.migrate_bitmap(-3, 3, 1, -50, 10_000);
    assert_eq!((min, max), (-50, 10_000));
    // An empty range changes nothing.
    assert_eq!(store.migrate_bitmap(3, -3, 1, 7, 8), (7, 8));
}

#[test]
fn chunk_scans_find_the_extreme_slots() {
    let store = store_without_word_flags(&[33, 37, 40]);
    // Compressed ticks 33 and 37 sit in chunk 2 (slots 1 and 5); 40 in chunk 2 too (slot 8).
    assert_eq!(store.scan_chunk_lowest_init(2), Some(1));
    assert_eq!(store.scan_chunk_highest_init(2), Some(8));
    assert_eq!(store.scan_chunk_lowest_init(3), None);
    assert_eq!(store.scan_chunk_highest_init(-1), None);
    assert!(store.chunk_has_initialized(2));
    assert!(!store.chunk_has_initialized(0));
}

#[test]
fn opening_and_closing_a_boundary_leaves_the_store_empty() {
    let mut store = TickStore::new();
    let g = U256::from_u128(5);
    store.update_tick_liquidity(-10, 10, 1_000, false, 0, &g, &g).unwrap();
    assert!(store.get_tick(-10, 10).initialized);
    assert_eq!(store.find_initialized_tick_in_word(0, 10, true), (-10, true));
    store.update_tick_liquidity(-10, 10, -1_000, false, 0, &g, &g).unwrap();
    assert_eq!(store.get_tick(-10, 10), TickInfo::empty());
    assert_eq!(store.chunk_word(-1), [0u8; 32]);
    assert_eq!(store.word_bitmap_word(-1), [0u8; 32]);
    assert_eq!(store.find_initialized_tick_in_word(0, 10, true), (0, false));
}
