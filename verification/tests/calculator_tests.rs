use concentrated_pool::calculator::{standard_pool_liquidity, standard_pool_total_liquidity};
use concentrated_pool::stableswap::{get_liquidity, parse_stableswap_data, stableswap_pool_total_liquidity};
use concentrated_pool::u256::U256;

/// A pool's entry in the plane: its kind, its parameters and its reserves.
enum Pool {
    Standard(u128, Vec<u128>),
    Stable([u128; 5], Vec<u128>),
}

/// Liquidity of a pool at time `now`, summed over every ordered pair of its tokens.
fn pool_liquidity(pool: &Pool, now: u128) -> U256 {
    match pool {
        Pool::Standard(fee, reserves) => standard_pool_total_liquidity(*fee, reserves).unwrap(),
        Pool::Stable(args, reserves) => {
            let data = parse_stableswap_data(&args.to_vec(), reserves.clone());
            stableswap_pool_total_liquidity(&data, now).unwrap()
        }
    }
}

/// The same sum, pair by pair.
fn pool_liquidity_by_pairs(pool: &Pool, now: u128) -> U256 {
    match pool {
        Pool::Standard(fee, reserves) => {
            let a = standard_pool_liquidity(*fee, reserves, 0).unwrap();
            let b = standard_pool_liquidity(*fee, reserves, 1).unwrap();
            U256::from_u128(a).add(&U256::from_u128(b))
        }
        Pool::Stable(args, reserves) => {
            let n = reserves.len() as u32;
            let mut out = U256::zero();
            for i in 0..n {
                for j in 0..n {
                    if i != j {
                        let v = get_liquidity(args[0], args[1], args[2], args[3], args[4], now, reserves, i, j).unwrap();
                        out = out.add(&U256::from_u128(v));
                    }
                }
            }
            out
        }
    }
}

#[test]
fn pool_totals_sum_the_pairs() {
    let pools = [
        Pool::Standard(30, vec![1000_0000000, 1000_0000000]),
        Pool::Standard(100, vec![150_0000000, 70_0000000]),
        Pool::Stable([6, 85, 0, 85, 0], vec![1000_0000000, 1000_0000000]),
        Pool::Stable([6, 85, 0, 85, 0], vec![1000_0000000, 1000_0000000, 500_0000000]),
    ];
    for p in pools.iter() {
        assert_eq!(pool_liquidity(p, 0), pool_liquidity_by_pairs(p, 0));
    }
    assert_eq!(standard_pool_total_liquidity(30, &vec![0, 0]), Some(U256::zero()));
}

fn liquidity(pools: &[Pool], now: u128) -> Vec<U256> {
    pools.iter().map(|p| pool_liquidity(p, now)).collect()
}

fn u(v: u128) -> U256 {
    U256::from_u128(v)
}

fn from_be(bytes: [u8; 32]) -> U256 {
    let mut hi: u128 = 0;
    let mut lo: u128 = 0;
    for k in 0..16 {
        hi = (hi << 8) | bytes[k] as u128;
        lo = (lo << 8) | bytes[16 + k] as u128;
    }
    U256::from_words(hi, lo)
}

#[test]
fn test_test() {
    let pools = [
        Pool::Standard(30, vec![1000_0000000, 1000_0000000]),
        Pool::Standard(10, vec![1500_0000000, 1500_0000000]),
        Pool::Standard(100, vec![150_0000000, 150_0000000]),
        Pool::Stable([0, 85, 0, 85, 0], vec![1000_0000000, 1000_0000000]),
        Pool::Stable([6, 85, 0, 85, 0], vec![1000_0000000, 1000_0000000]),
        Pool::Stable([30, 85, 0, 85, 0], vec![1000_0000000, 1000_0000000]),
    ];
    assert_eq!(
        liquidity(&pools, 0),
        vec![u(358217508), u(536250536), u(54112554), u(2802265656), u(2802262932), u(2802267364)]
    );
}

#[test]
fn test_bad_math() {
    let pools = [
        Pool::Standard(100, vec![0, 0]),
        Pool::Stable([100, 2500, 1713807096, 2500, 1713807096], vec![101804393, 160000000000000]),
        Pool::Stable([5, 5000, 1713808459, 5000, 1713808459], vec![219219286, 16538316775072]),
        Pool::Standard(30, vec![0, 0]),
        Pool::Standard(10, vec![485714287, 210000000000000]),
        Pool::Stable([100, 5000, 1713806916, 5000, 1713806916], vec![102098314, 110000000000000]),
    ];
    assert_eq!(
        liquidity(&pools, 1813808460),
        vec![u(0), u(12208000), u(131221069311), u(0), u(3753762435904), u(630244655854000)]
    );
}

#[test]
fn test_bad_math_2() {
    let pools = [
        Pool::Stable([6, 85, 1718465537, 85, 1718465537], vec![96474122, 7654213018638340]),
        Pool::Standard(30, vec![107478636, 222947860089606]),
    ];
    assert_eq!(liquidity(&pools, 1918465537), vec![u(0), u(3993193286434)]);
}

#[test]
fn test_bad_math_big_tokens_value_difference() {
    let pools = [
        Pool::Standard(30, vec![43388242405299, 18833770]),
        Pool::Standard(30, vec![107478636, 222947860089606]),
    ];
    assert_eq!(liquidity(&pools, 1918465537), vec![u(777121744502), u(3993193286434)]);
}

#[test]
fn test_norm() {
    let pools = [
        Pool::Standard(30, vec![250_500_000_0000, 50_000_000_0000]),
        Pool::Standard(30, vec![25_000_000_0000, 5_000_000_0000]),
        Pool::Standard(300, vec![2_500_000_0000, 500_000_0000]),
        Pool::Stable([30, 85, 0, 85, 0], vec![250_500_000_0000, 50_000_000_0000]),
        Pool::Stable([30, 85, 0, 85, 0], vec![25_000_000_0000, 5_000_000_0000]),
        Pool::Stable([30, 85, 0, 85, 0], vec![2_500_000_0000, 500_000_0000]),
    ];
    assert_eq!(
        liquidity(&pools, 0),
        vec![u(53822180827), u(5373262644), u(552282768), u(345062872750), u(34479140125), u(3447914006)]
    );
}

#[test]
fn test_small() {
    let pools = [
        Pool::Standard(30, vec![10, 10]),
        Pool::Standard(30, vec![100, 100]),
        Pool::Standard(300, vec![1000, 1000]),
        Pool::Stable([30, 85, 0, 85, 0], vec![10, 10]),
        Pool::Stable([30, 85, 0, 85, 0], vec![100, 100]),
        Pool::Stable([30, 85, 0, 85, 0], vec![1000, 1000]),
    ];
    assert_eq!(liquidity(&pools, 0), vec![u(0), u(2), u(36), u(2), u(28), u(280)]);
}

#[test]
fn test_reversed() {
    let pools = [
        Pool::Standard(30, vec![1000, 3000]),
        Pool::Standard(30, vec![3000, 1000]),
        Pool::Stable([30, 85, 0, 85, 0], vec![1000, 3000]),
        Pool::Stable([30, 85, 0, 85, 0], vec![3000, 1000]),
    ];
    assert_eq!(liquidity(&pools, 0), vec![u(70), u(70), u(529), u(529)]);
}

#[test]
fn test_liquidity_overflow() {
    let pools = [
        Pool::Standard(30, vec![u128::MAX, u128::MAX]),
        Pool::Stable([6, 85, 0, 85, 0], vec![u128::MAX, u128::MAX]),
    ];
    assert_eq!(
        liquidity(&pools, 0),
        vec![
            u(12189510206366902975475519681607974332),
            u(95356066323576883081645100203114078476)
        ]
    );
}

#[test]
fn test_empty_pool() {
    let pools = [
        Pool::Standard(30, vec![0, 0]),
        Pool::Stable([30, 85, 0, 85, 0], vec![0, 0]),
    ];
    assert_eq!(liquidity(&pools, 0), vec![u(0), u(0)]);
}

#[test]
fn test_out_of_fuel() {
    let pools = [Pool::Stable(
        [10, 5000, 1718230749, 5000, 1718230749],
        vec![5157363573, 61817519211, 11875744570237, 5866985200],
    )];
    assert_eq!(liquidity(&pools, 1918465537), vec![u(345242385178)]);
}

#[test]
fn test_multiple_tokens() {
    let pools = [
        Pool::Stable([6, 85, 0, 85, 0], vec![u128::MAX, u128::MAX, u128::MAX]),
        Pool::Stable([6, 85, 0, 85, 0], vec![u128::MAX, u128::MAX, u128::MAX, u128::MAX]),
        Pool::Stable([6, 85, 0, 85, 0], vec![u128::MAX, u128::MAX, u128::MAX, u128::MAX, u128::MAX]),
    ];
    let results = liquidity(&pools, 0);
    for i in [1, 2] {
        assert!(results[i].gt(&U256::from_u128(u128::MAX)));
    }
    assert_eq!(
        results,
        vec![
            from_be([
                0, 0, 0, 0, 0, 0, 0, 0, 0, 0, 0, 0, 0, 0, 0, 0, 215, 54, 187, 38, 81, 230, 97, 36, 91,
                116, 178, 233, 122, 252, 227, 36
            ]),
            from_be([
                0, 0, 0, 0, 0, 0, 0, 0, 0, 0, 0, 0, 0, 0, 0, 1, 174, 109, 118, 76, 163, 204, 194, 72,
                182, 233, 101, 210, 245, 249, 198, 72
            ]),
            from_be([
                0, 0, 0, 0, 0, 0, 0, 0, 0, 0, 0, 0, 0, 0, 0, 2, 205, 97, 26, 127, 187, 170, 153, 35,
                219, 132, 255, 10, 68, 160, 74, 120
            ]),
        ]
    );
}

#[test]
fn stable_pool_trade_size_running_out_closes_the_integral() {
    // Here the price keeps falling down to the smallest trade; the integral then stops there.
    let args = [10, 5000, 1718230749, 5000, 1718230749];
    let reserves = vec![5157363573, 61817519211, 11875744570237, 5866985200];
    assert_eq!(
        get_liquidity(args[0], args[1], args[2], args[3], args[4], 1918465537, &reserves, 0, 2),
        Some(127652354)
    );
    assert_eq!(
        get_liquidity(args[0], args[1], args[2], args[3], args[4], 1918465537, &reserves, 3, 2),
        Some(145303044)
    );
}

#[test]
fn stableswap_snapshot_fields_are_read_in_order() {
    let data = concentrated_pool::stableswap::parse_stableswap_data(&vec![30, 85, 1_000, 90, 2_000, 7], vec![5, 6, 7]);
    assert_eq!(
        (data.fee, data.initial_a, data.initial_a_time, data.future_a, data.future_a_time),
        (30, 85, 1_000, 90, 2_000)
    );
    assert_eq!(data.xp, vec![5, 6, 7]);
}
