//! Conversion between ticks and Q64.96 sqrt prices.

use vstd::prelude::*;

verus! {

use crate::constants::{MAX_TICK, MIN_TICK};
use crate::errors::ConcentratedPoolError as Error;
use crate::math::{max_sqrt_ratio, min_sqrt_ratio, spec_div_ceil, spec_max_sqrt_ratio, spec_min_sqrt_ratio, u256_mul_shift_128, u256_q128};
use crate::u256::{b128, b256, lemma_u256_bound, widening_mul, U256};
use vstd::arithmetic::power2::pow2;

/// The Q128.128 factor sqrt(1.0001)^(-2^i) applied for bit `i` of the absolute tick.
pub open spec fn spec_tick_multiplier(i: nat) -> nat {
    if i == 0 {
        0xfffcb933bd6fad37aa2d162d1a594001nat
    } else if i == 1 {
        0xfff97272373d413259a46990580e213anat
    } else if i == 2 {
        0xfff2e50f5f656932ef12357cf3c7fdccnat
    } else if i == 3 {
        0xffe5caca7e10e4e61c3624eaa0941cd0nat
    } else if i == 4 {
        0xffcb9843d60f6159c9db58835c926644nat
    } else if i == 5 {
        0xff973b41fa98c081472e6896dfb254c0nat
    } else if i == 6 {
        0xff2ea16466c96a3843ec78b326b52861nat
    } else if i == 7 {
        0xfe5dee046a99a2a811c461f1969c3053nat
    } else if i == 8 {
        0xfcbe86c7900a88aedcffc83b479aa3a4nat
    } else if i == 9 {
        0xf987a7253ac413176f2b074cf7815e54nat
    } else if i == 10 {
        0xf3392b0822b70005940c7a398e4b70f3nat
    } else if i == 11 {
        0xe7159475a2c29b7443b29c7fa6e889d9nat
    } else if i == 12 {
        0xd097f3bdfd2022b8845ad8f792aa5825nat
    } else if i == 13 {
        0xa9f746462d870fdf8a65dc1f90e061e5nat
    } else if i == 14 {
        0x70d869a156d2a1b890bb3df62baf32f7nat
    } else if i == 15 {
        0x31be135f97d08fd981231505542fcfa6nat
    } else if i == 16 {
        0x09aa508b5b7a84e1c677de54f3e99bc9nat
    } else if i == 17 {
        0x005d6af8dedb81196699c329225ee604nat
    } else if i == 18 {
        0x0002216e584f5fa1ea926041bedfe98nat
    } else {
        0x000048a170391f7dc42444e8fa2nat
    }
}

/// The multiplier for bit `i` of the absolute tick.
pub fn tick_multiplier(i: u32) -> (r: u128)
    requires
        i < 20,
    ensures
        r as nat == spec_tick_multiplier(i as nat),
{
    match i {
        0 => 0xfffcb933bd6fad37aa2d162d1a594001,
        1 => 0xfff97272373d413259a46990580e213a,
        2 => 0xfff2e50f5f656932ef12357cf3c7fdcc,
        3 => 0xffe5caca7e10e4e61c3624eaa0941cd0,
        4 => 0xffcb9843d60f6159c9db58835c926644,
        5 => 0xff973b41fa98c081472e6896dfb254c0,
        6 => 0xff2ea16466c96a3843ec78b326b52861,
        7 => 0xfe5dee046a99a2a811c461f1969c3053,
        8 => 0xfcbe86c7900a88aedcffc83b479aa3a4,
        9 => 0xf987a7253ac413176f2b074cf7815e54,
        10 => 0xf3392b0822b70005940c7a398e4b70f3,
        11 => 0xe7159475a2c29b7443b29c7fa6e889d9,
        12 => 0xd097f3bdfd2022b8845ad8f792aa5825,
        13 => 0xa9f746462d870fdf8a65dc1f90e061e5,
        14 => 0x70d869a156d2a1b890bb3df62baf32f7,
        15 => 0x31be135f97d08fd981231505542fcfa6,
        16 => 0x09aa508b5b7a84e1c677de54f3e99bc9,
        17 => 0x005d6af8dedb81196699c329225ee604,
        18 => 0x0002216e584f5fa1ea926041bedfe98,
        _ => 0x000048a170391f7dc42444e8fa2,
    }
}

/// Applies the multipliers of the bits `i..20` of `m` (bit `i` first) to `r`, flooring each step.
pub open spec fn ratio_fold(m: nat, i: nat, r: nat) -> nat
    decreases 20 - i,
{
    if i >= 20 {
        r
    } else {
        ratio_fold(
            m / 2,
            i + 1,
            if m % 2 == 1 { (r * spec_tick_multiplier(i)) / b128() } else { r },
        )
    }
}

/// The Q64.96 sqrt price of a tick: the product of the multipliers of the set bits of |tick|
/// (inverted for positive ticks), rounded up from Q128.128 to Q64.96.
pub open spec fn spec_sqrt_ratio_at_tick(tick: int) -> nat {
    let abs_tick: nat = if tick < 0 { (-tick) as nat } else { tick as nat };
    let ratio = ratio_fold(abs_tick, 0, b128());
    let ratio2 = if tick > 0 { ((b256() - 1) as nat) / ratio } else { ratio };
    spec_div_ceil(ratio2, 0x1_0000_0000nat)
}

proof fn lemma_multiplier_below_one(i: nat)
    requires
        i < 20,
    ensures
        0 < spec_tick_multiplier(i) < b128(),
{
}

proof fn lemma_mul_floor_le(r: nat, m: nat)
    requires
        m < b128(),
    ensures
        (r * m) / b128() <= r,
{
    assert(r * m <= r * b128()) by (nonlinear_arith) requires m < b128();
    vstd::arithmetic::div_mod::lemma_div_is_ordered((r * m) as int, (r * b128()) as int, b128() as int);
    vstd::arithmetic::div_mod::lemma_div_multiples_vanish(r as int, b128() as int);
}

proof fn lemma_mul_floor_monotone(r: nat, s: nat, m: nat)
    requires
        r >= s,
    ensures
        (r * m) / b128() >= (s * m) / b128(),
{
    assert(r * m >= s * m) by (nonlinear_arith) requires r >= s;
    vstd::arithmetic::div_mod::lemma_div_is_ordered((s * m) as int, (r * m) as int, b128() as int);
}

/// Applying multipliers never increases the ratio.
proof fn lemma_ratio_fold_le(m: nat, i: nat, r: nat)
    ensures
        ratio_fold(m, i, r) <= r,
    decreases 20 - i,
{
    if i < 20 {
        lemma_multiplier_below_one(i);
        lemma_mul_floor_le(r, spec_tick_multiplier(i));
        let r2 = if m % 2 == 1 { (r * spec_tick_multiplier(i)) / b128() } else { r };
        lemma_ratio_fold_le(m / 2, i + 1, r2);
    }
}

/// Any set of bits gives a ratio at least as large as all bits set.
proof fn lemma_ratio_fold_lower(m: nat, i: nat, r: nat, s: nat)
    requires
        r >= s,
        i <= 20,
    ensures
        ratio_fold(m, i, r) >= ratio_fold((pow2((20 - i) as nat) - 1) as nat, i, s),
    decreases 20 - i,
{
    if i < 20 {
        let ones: nat = (pow2((20 - i) as nat) - 1) as nat;
        vstd::arithmetic::power2::lemma_pow2_unfold((20 - i) as nat);
        vstd::arithmetic::power2::lemma_pow2_pos((19 - i) as nat);
        assert(ones == 2 * pow2((19 - i) as nat) - 1);
        assert(ones % 2 == 1);
        assert(ones / 2 == (pow2((19 - i) as nat) - 1) as nat);
        lemma_multiplier_below_one(i);
        let mi = spec_tick_multiplier(i);
        let s2 = (s * mi) / b128();
        let r2 = if m % 2 == 1 { (r * mi) / b128() } else { r };
        lemma_mul_floor_monotone(r, s, mi);
        lemma_mul_floor_le(s, mi);
        lemma_ratio_fold_lower(m / 2, i + 1, r2, s2);
    } else {
        assert(pow2(0) == 1) by { vstd::arithmetic::power2::lemma2_to64(); }
    }
}

/// The ratio with every multiplier applied, evaluated step by step.
proof fn lemma_ratio_all_bits()
    ensures
        ratio_fold(0xfffffnat, 0, b128()) == 5800441176149320nat,
{
    assert((340282366920938463463374607431768211456nat * spec_tick_multiplier(0)) / b128() == 340265354078544963557816517032075149313nat);
    assert(ratio_fold(1048575nat, 0nat, 340282366920938463463374607431768211456nat) == ratio_fold(524287nat, 1nat, 340265354078544963557816517032075149313nat));
    assert((340265354078544963557816517032075149313nat * spec_tick_multiplier(1)) / b128() == 340231330945450418515964920540021147198nat);
    assert(ratio_fold(524287nat, 1nat, 340265354078544963557816517032075149313nat) == ratio_fold(262143nat, 2nat, 340231330945450418515964920540021147198nat));
    assert((340231330945450418515964920540021147198nat * spec_tick_multiplier(2)) / b128() == 340163294884840501567246455576441303173nat);
    assert(ratio_fold(262143nat, 2nat, 340231330945450418515964920540021147198nat) == ratio_fold(131071nat, 3nat, 340163294884840501567246455576441303173nat));
    assert((340163294884840501567246455576441303173nat * spec_tick_multiplier(3)) / b128() == 340027263576413978334042125129128142263nat);
    assert(ratio_fold(131071nat, 3nat, 340163294884840501567246455576441303173nat) == ratio_fold(65535nat, 4nat, 340027263576413978334042125129128142263nat));
    assert((340027263576413978334042125129128142263nat * spec_tick_multiplier(4)) / b128() == 339755364134575681238502878529008278326nat);
    assert(ratio_fold(65535nat, 4nat, 340027263576413978334042125129128142263nat) == ratio_fold(32767nat, 5nat, 339755364134575681238502878529008278326nat));
    assert((339755364134575681238502878529008278326nat * spec_tick_multiplier(5)) / b128() == 339212217342146842559531600927033253847nat);
    assert(ratio_fold(32767nat, 5nat, 339755364134575681238502878529008278326nat) == ratio_fold(16383nat, 6nat, 339212217342146842559531600927033253847nat));
    assert((339212217342146842559531600927033253847nat * spec_tick_multiplier(6)) / b128() == 338128527259088467778511436198880488164nat);
    assert(ratio_fold(16383nat, 6nat, 339212217342146842559531600927033253847nat) == ratio_fold(8191nat, 7nat, 338128527259088467778511436198880488164nat));
    assert((338128527259088467778511436198880488164nat * spec_tick_multiplier(7)) / b128() == 335971522311117552149334092109581418674nat);
    assert(ratio_fold(8191nat, 7nat, 338128527259088467778511436198880488164nat) == ratio_fold(4095nat, 8nat, 335971522311117552149334092109581418674nat));
    assert((335971522311117552149334092109581418674nat * spec_tick_multiplier(8)) / b128() == 331698704829854243503582989311158516586nat);
    assert(ratio_fold(4095nat, 8nat, 335971522311117552149334092109581418674nat) == ratio_fold(2047nat, 9nat, 331698704829854243503582989311158516586nat));
    assert((331698704829854243503582989311158516586nat * spec_tick_multiplier(9)) / b128() == 323315401242583425022802937239550140918nat);
    assert(ratio_fold(2047nat, 9nat, 331698704829854243503582989311158516586nat) == ratio_fold(1023nat, 10nat, 323315401242583425022802937239550140918nat));
    assert((323315401242583425022802937239550140918nat * spec_tick_multiplier(10)) / b128() == 307179074178916392659402722612948179612nat);
    assert(ratio_fold(1023nat, 10nat, 323315401242583425022802937239550140918nat) == ratio_fold(511nat, 11nat, 307179074178916392659402722612948179612nat));
    assert((307179074178916392659402722612948179612nat * spec_tick_multiplier(11)) / b128() == 277282266700509388632609933215391170106nat);
    assert(ratio_fold(511nat, 11nat, 307179074178916392659402722612948179612nat) == ratio_fold(255nat, 12nat, 277282266700509388632609933215391170106nat));
    assert((277282266700509388632609933215391170106nat * spec_tick_multiplier(12)) / b128() == 225934749830749445986089663015556949343nat);
    assert(ratio_fold(255nat, 12nat, 277282266700509388632609933215391170106nat) == ratio_fold(127nat, 13nat, 225934749830749445986089663015556949343nat));
    assert((225934749830749445986089663015556949343nat * spec_tick_multiplier(13)) / b128() == 150004713758184102711002566140788444796nat);
    assert(ratio_fold(127nat, 13nat, 225934749830749445986089663015556949343nat) == ratio_fold(63nat, 14nat, 150004713758184102711002566140788444796nat));
    assert((150004713758184102711002566140788444796nat * spec_tick_multiplier(14)) / b128() == 66122407008436832627027740713496573148nat);
    assert(ratio_fold(63nat, 14nat, 150004713758184102711002566140788444796nat) == ratio_fold(31nat, 15nat, 66122407008436832627027740713496573148nat));
    assert((66122407008436832627027740713496573148nat * spec_tick_multiplier(15)) / b128() == 12848018414553970828728179856918040433nat);
    assert(ratio_fold(31nat, 15nat, 66122407008436832627027740713496573148nat) == ratio_fold(15nat, 16nat, 12848018414553970828728179856918040433nat));
    assert((12848018414553970828728179856918040433nat * spec_tick_multiplier(16)) / b128() == 485077512873820763967752669154895175nat);
    assert(ratio_fold(15nat, 16nat, 12848018414553970828728179856918040433nat) == ratio_fold(7nat, 17nat, 485077512873820763967752669154895175nat));
    assert((485077512873820763967752669154895175nat * spec_tick_multiplier(17)) / b128() == 691450548841240133896843047535567nat);
    assert(ratio_fold(7nat, 17nat, 485077512873820763967752669154895175nat) == ratio_fold(3nat, 18nat, 691450548841240133896843047535567nat));
    assert((691450548841240133896843047535567nat * spec_tick_multiplier(18)) / b128() == 1404950724947776134837143967nat);
    assert(ratio_fold(3nat, 18nat, 691450548841240133896843047535567nat) == ratio_fold(1nat, 19nat, 1404950724947776134837143967nat));
    assert((1404950724947776134837143967nat * spec_tick_multiplier(19)) / b128() == 5800441176149320nat);
    assert(ratio_fold(1nat, 19nat, 1404950724947776134837143967nat) == ratio_fold(0nat, 20nat, 5800441176149320nat));
    assert(ratio_fold(0nat, 20nat, 5800441176149320nat) == 5800441176149320nat);
}

/// The ratio for |tick| = 887272, evaluated step by step.
proof fn lemma_ratio_max_tick()
    ensures
        ratio_fold(887272nat, 0, b128()) == 18447437462383981825nat,
{
    assert(ratio_fold(887272nat, 0nat, 340282366920938463463374607431768211456nat) == ratio_fold(443636nat, 1nat, 340282366920938463463374607431768211456nat));
    assert(ratio_fold(443636nat, 1nat, 340282366920938463463374607431768211456nat) == ratio_fold(221818nat, 2nat, 340282366920938463463374607431768211456nat));
    assert(ratio_fold(221818nat, 2nat, 340282366920938463463374607431768211456nat) == ratio_fold(110909nat, 3nat, 340282366920938463463374607431768211456nat));
    assert((340282366920938463463374607431768211456nat * spec_tick_multiplier(3)) / b128() == 340146287995602323631171512101879684304nat);
    assert(ratio_fold(110909nat, 3nat, 340282366920938463463374607431768211456nat) == ratio_fold(55454nat, 4nat, 340146287995602323631171512101879684304nat));
    assert(ratio_fold(55454nat, 4nat, 340146287995602323631171512101879684304nat) == ratio_fold(27727nat, 5nat, 340146287995602323631171512101879684304nat));
    assert((340146287995602323631171512101879684304nat * spec_tick_multiplier(5)) / b128() == 339602516256333450911508783463471979131nat);
    assert(ratio_fold(27727nat, 5nat, 340146287995602323631171512101879684304nat) == ratio_fold(13863nat, 6nat, 339602516256333450911508783463471979131nat));
    assert((339602516256333450911508783463471979131nat * spec_tick_multiplier(6)) / b128() == 338517579275194439321187592667164221528nat);
    assert(ratio_fold(13863nat, 6nat, 339602516256333450911508783463471979131nat) == ratio_fold(6931nat, 7nat, 338517579275194439321187592667164221528nat));
    assert((338517579275194439321187592667164221528nat * spec_tick_multiplier(7)) / b128() == 336358092468829139771578271041138980598nat);
    assert(ratio_fold(6931nat, 7nat, 338517579275194439321187592667164221528nat) == ratio_fold(3465nat, 8nat, 336358092468829139771578271041138980598nat));
    assert((336358092468829139771578271041138980598nat * spec_tick_multiplier(8)) / b128() == 332080358666931741096696533686537939851nat);
    assert(ratio_fold(3465nat, 8nat, 336358092468829139771578271041138980598nat) == ratio_fold(1732nat, 9nat, 332080358666931741096696533686537939851nat));
    assert(ratio_fold(1732nat, 9nat, 332080358666931741096696533686537939851nat) == ratio_fold(866nat, 10nat, 332080358666931741096696533686537939851nat));
    assert(ratio_fold(866nat, 10nat, 332080358666931741096696533686537939851nat) == ratio_fold(433nat, 11nat, 332080358666931741096696533686537939851nat));
    assert((332080358666931741096696533686537939851nat * spec_tick_multiplier(11)) / b128() == 299759984706031786325544380651874553391nat);
    assert(ratio_fold(433nat, 11nat, 332080358666931741096696533686537939851nat) == ratio_fold(216nat, 12nat, 299759984706031786325544380651874553391nat));
    assert(ratio_fold(216nat, 12nat, 299759984706031786325544380651874553391nat) == ratio_fold(108nat, 13nat, 299759984706031786325544380651874553391nat));
    assert(ratio_fold(108nat, 13nat, 299759984706031786325544380651874553391nat) == ratio_fold(54nat, 14nat, 299759984706031786325544380651874553391nat));
    assert(ratio_fold(54nat, 14nat, 299759984706031786325544380651874553391nat) == ratio_fold(27nat, 15nat, 299759984706031786325544380651874553391nat));
    assert((299759984706031786325544380651874553391nat * spec_tick_multiplier(15)) / b128() == 58245335850494778643666308752178602959nat);
    assert(ratio_fold(27nat, 15nat, 299759984706031786325544380651874553391nat) == ratio_fold(13nat, 16nat, 58245335850494778643666308752178602959nat));
    assert((58245335850494778643666308752178602959nat * spec_tick_multiplier(16)) / b128() == 2199055273679667890264176287186730611nat);
    assert(ratio_fold(13nat, 16nat, 58245335850494778643666308752178602959nat) == ratio_fold(6nat, 17nat, 2199055273679667890264176287186730611nat));
    assert(ratio_fold(6nat, 17nat, 2199055273679667890264176287186730611nat) == ratio_fold(3nat, 18nat, 2199055273679667890264176287186730611nat));
    assert((2199055273679667890264176287186730611nat * spec_tick_multiplier(18)) / b128() == 4468236096036213022677869620526nat);
    assert(ratio_fold(3nat, 18nat, 2199055273679667890264176287186730611nat) == ratio_fold(1nat, 19nat, 4468236096036213022677869620526nat));
    assert((4468236096036213022677869620526nat * spec_tick_multiplier(19)) / b128() == 18447437462383981825nat);
    assert(ratio_fold(1nat, 19nat, 4468236096036213022677869620526nat) == ratio_fold(0nat, 20nat, 18447437462383981825nat));
    assert(ratio_fold(0nat, 20nat, 18447437462383981825nat) == 18447437462383981825nat);
}

/// The ratio stays positive for every admissible tick.
proof fn lemma_ratio_positive(m: nat)
    ensures
        0 < ratio_fold(m, 0, b128()) <= b128(),
{
    vstd::arithmetic::power2::lemma2_to64();
    lemma_ratio_all_bits();
    lemma_ratio_fold_lower(m, 0, b128(), b128());
    lemma_ratio_fold_le(m, 0, b128());
}

/// The Q64.96 sqrt price at a tick; `TickOutOfBounds` outside [MIN_TICK, MAX_TICK].
pub fn sqrt_ratio_at_tick(tick: i32) -> (r: Result<U256, Error>)
    ensures
        (MIN_TICK <= tick <= MAX_TICK) ==> (r matches Ok(v) && v@ == spec_sqrt_ratio_at_tick(tick as int)),
        !(MIN_TICK <= tick <= MAX_TICK) ==> r == Err::<U256, Error>(Error::TickOutOfBounds),
{
    if tick < MIN_TICK || tick > MAX_TICK {
        return Err(Error::TickOutOfBounds);
    }
    let abs_tick: u32 = if tick < 0 { (-tick) as u32 } else { tick as u32 };
    let ghost abs_nat: nat = abs_tick as nat;
    let mut ratio = u256_q128();
    let mut m: u32 = abs_tick;
    let mut i: u32 = 0;
    while i < 20
        invariant
            i <= 20,
            ratio@ <= b128(),
            ratio_fold(abs_nat, 0, b128()) == ratio_fold(m as nat, i as nat, ratio@),
        decreases 20 - i,
    {
        if m % 2 == 1 {
            proof {
                lemma_multiplier_below_one(i as nat);
                assert(ratio@ * spec_tick_multiplier(i as nat) < b256()) by (nonlinear_arith)
                    requires ratio@ <= b128(), spec_tick_multiplier(i as nat) < b128();
                lemma_mul_floor_le(ratio@, spec_tick_multiplier(i as nat));
            }
            ratio = u256_mul_shift_128(&ratio, &U256::from_u128(tick_multiplier(i)));
        }
        m = m / 2;
        i = i + 1;
    }
    proof {
        lemma_ratio_positive(abs_nat);
        lemma_ratio_fold_le(m as nat, 20, ratio@);
        assert(ratio@ == ratio_fold(abs_nat, 0, b128()));
    }
    if tick > 0 {
        ratio = U256::max_value().div(&ratio);
    }
    let q32 = U256::from_u128(0x1_0000_0000u128);
    let (quotient, remainder) = ratio.div_rem(&q32);
    if !remainder.is_zero() {
        proof {
            lemma_u256_bound(ratio);
            vstd::arithmetic::div_mod::lemma_div_is_ordered(ratio@ as int, b256() as int, 0x1_0000_0000int);
        }
        Ok(quotient.add(&U256::one()))
    } else {
        Ok(quotient)
    }
}


/// The sqrt prices of the extreme ticks are the admissible price bounds.
pub proof fn lemma_sqrt_ratio_extremes()
    ensures
        spec_sqrt_ratio_at_tick(MIN_TICK as int) == spec_min_sqrt_ratio(),
        spec_sqrt_ratio_at_tick(MAX_TICK as int) == spec_max_sqrt_ratio(),
{
    lemma_ratio_max_tick();
    assert((18447437462383981825nat) % 0x1_0000_0000nat != 0);
    assert((18447437462383981825nat) / 0x1_0000_0000nat + 1 == 4295128739nat);
    assert(((b256() - 1) as nat) / 18447437462383981825nat == 6276865796315986613307619852238232712866172378830071145882nat);
    assert((6276865796315986613307619852238232712866172378830071145882nat) % 0x1_0000_0000nat != 0);
    assert((6276865796315986613307619852238232712866172378830071145882nat) / 0x1_0000_0000nat + 1 == 1461446703485210103287273052203988822378723970342nat);
}

/// The tick bisection settles on for price `p` when it starts from the interval [lo, hi].
pub open spec fn spec_tick_bisect(lo: int, hi: int, p: nat) -> int
    decreases hi - lo,
{
    if hi - lo > 1 {
        let mid = lo + (hi - lo) / 2;
        if spec_sqrt_ratio_at_tick(mid) <= p {
            spec_tick_bisect(mid, hi, p)
        } else {
            spec_tick_bisect(lo, mid, p)
        }
    } else {
        lo
    }
}

/// The tick of a sqrt price: bisection over [MIN_TICK, MAX_TICK].
pub open spec fn spec_tick_at_sqrt_ratio(p: nat) -> int {
    spec_tick_bisect(MIN_TICK as int, MAX_TICK as int, p)
}

/// Index of the highest set bit of a nonzero value.
fn highest_set_bit(x: u128) -> (r: u32)
    ensures
        r < 128,
{
    let mut v = x;
    let mut n: u32 = 0;
    while v > 1 && n < 127
        invariant
            n <= 127,
        decreases 127 - n,
    {
        v = v / 2;
        n = n + 1;
    }
    n
}

/// The two neighbouring ticks between which the base-2 logarithm of a sqrt price places its
/// tick (the lower and the upper estimate), computed in Q64.64 fixed point from the position
/// of the price's highest bit and fourteen squarings; `None` where an intermediate value
/// leaves its range.
pub fn tick_candidates_from_log2(sqrt_price_x96: &U256) -> (r: Option<(i32, i32)>) {
    let log_sqrt10001: u128 = 255_738_958_999_603_826_347_141;
    let tick_low_error: u128 = 3_402_992_956_809_132_418_596_140_100_660_247_210;
    let tick_hi_error: u128 = 291_339_464_771_989_622_907_027_621_153_398_088_495;

    // The price in Q128.128: shifted left by 32 bits.
    if sqrt_price_x96.hi >= 0x1_0000_0000_0000_0000_0000_0000 {
        return None;
    }
    let ratio_hi: u128 = (sqrt_price_x96.hi << 32u32) | (sqrt_price_x96.lo >> 96u32);
    let ratio_lo: u128 = sqrt_price_x96.lo << 32u32;
    if ratio_hi == 0 && ratio_lo == 0 {
        return None;
    }
    let msb: u32 = if ratio_hi > 0 { 128 + highest_set_bit(ratio_hi) } else { highest_set_bit(ratio_lo) };

    // Normalised mantissa in [2^127, 2^128).
    let mut r: u128 = if msb >= 128 {
        let s = msb - 127;
        if s >= 128 {
            return None;
        }
        (ratio_hi << (128 - s)) | (ratio_lo >> s)
    } else {
        ratio_lo << (127 - msb)
    };

    // log2 in Q64.64: the integer part from the highest bit, fourteen fraction bits by squaring.
    let mut log_2: i128 = (msb as i128 - 128) * 0x1_0000_0000_0000_0000;
    let mut bit: u128 = 0x1_0000_0000_0000_0000;
    let mut step: u32 = 0;
    while step < 14
        invariant
            step <= 14,
            bit <= 0x1_0000_0000_0000_0000,
            -0x100_0000_0000_0000_0000 <= log_2 <= 0x100_0000_0000_0000_0000 + step * 0x1_0000_0000_0000_0000,
        decreases 14 - step,
    {
        bit = bit / 2;
        let (sq_hi, sq_lo) = widening_mul(r, r);
        let f = sq_hi >> 127u32;
        if f != 0 {
            log_2 = log_2 + bit as i128;
            r = sq_hi;
        } else {
            r = (sq_hi << 1u32) | (sq_lo >> 127u32);
        }
        step = step + 1;
    }

    // log2 -> log base sqrt(1.0001) as a signed 128.128 value (hi signed, lo unsigned).
    let neg = log_2 < 0;
    let abs_log_2: u128 = if neg { (-log_2) as u128 } else { log_2 as u128 };
    let (mul_hi, mul_lo) = widening_mul(abs_log_2, log_sqrt10001);
    if mul_hi >= 0x1_0000_0000 {
        return None;
    }
    let (log_hi, log_lo): (i128, u128) = if !neg {
        (mul_hi as i128, mul_lo)
    } else if mul_lo == 0 {
        (-(mul_hi as i128), 0)
    } else {
        (-(mul_hi as i128) - 1, u128::MAX - mul_lo + 1)
    };
    let tick_low = log_hi - if log_lo < tick_low_error { 1 } else { 0 };
    let tick_hi = log_hi + if log_lo > u128::MAX - tick_hi_error { 1 } else { 0 };
    Some((tick_low as i32, tick_hi as i32))
}

/// The tick of a sqrt price: the one whose price is at most `sqrt_price_x96` and whose
/// successor's price exceeds it (unique, as prices rise strictly with the tick);
/// `PriceOutOfBounds` outside [MIN_SQRT_RATIO, MAX_SQRT_RATIO). The base-2 logarithm of the
/// price gives two neighbouring candidates, settled by the price of the upper one; the
/// bracket of the pick is then checked, and bisection between the extreme ticks finds the
/// tick should that check ever fail.
pub fn tick_at_sqrt_ratio(sqrt_price_x96: &U256) -> (r: Result<i32, Error>)
    ensures
        (spec_min_sqrt_ratio() <= sqrt_price_x96@ < spec_max_sqrt_ratio()) ==> (r matches Ok(t) && MIN_TICK <= t < MAX_TICK
            && t as int == spec_tick_at_sqrt_ratio(sqrt_price_x96@)
            && spec_sqrt_ratio_at_tick(t as int) <= sqrt_price_x96@ < spec_sqrt_ratio_at_tick(t + 1)),
        !(spec_min_sqrt_ratio() <= sqrt_price_x96@ < spec_max_sqrt_ratio()) ==> r == Err::<i32, Error>(Error::PriceOutOfBounds),
{
    let min = min_sqrt_ratio();
    let max = max_sqrt_ratio();
    if sqrt_price_x96.lt(&min) || sqrt_price_x96.ge(&max) {
        return Err(Error::PriceOutOfBounds);
    }
    proof {
        lemma_sqrt_ratio_extremes();
    }
    if let Some((tick_low, tick_hi)) = tick_candidates_from_log2(sqrt_price_x96) {
        let cand = if tick_low == tick_hi {
            tick_low
        } else {
            match sqrt_ratio_at_tick(tick_hi) {
                Ok(v) => if v.le(sqrt_price_x96) { tick_hi } else { tick_low },
                Err(_) => tick_low,
            }
        };
        if MIN_TICK <= cand && cand < MAX_TICK {
            let below = sqrt_ratio_at_tick(cand);
            let above = sqrt_ratio_at_tick(cand + 1);
            if let (Ok(lo_price), Ok(hi_price)) = (below, above) {
                if lo_price.le(sqrt_price_x96) && sqrt_price_x96.lt(&hi_price) {
                    proof {
                        lemma_tick_at_sqrt_ratio_bracket(sqrt_price_x96@, cand as int);
                    }
                    return Ok(cand);
                }
            }
        }
    }
    let mut lo: i32 = MIN_TICK;
    let mut hi: i32 = MAX_TICK;
    while hi - lo > 1
        invariant
            MIN_TICK <= lo < hi <= MAX_TICK,
            spec_sqrt_ratio_at_tick(lo as int) <= sqrt_price_x96@,
            sqrt_price_x96@ < spec_sqrt_ratio_at_tick(hi as int),
            spec_tick_bisect(lo as int, hi as int, sqrt_price_x96@) == spec_tick_at_sqrt_ratio(sqrt_price_x96@),
        decreases hi - lo,
    {
        let mid = lo + (hi - lo) / 2;
        let price = match sqrt_ratio_at_tick(mid) {
            Ok(v) => v,
            Err(_) => {
                return Err(Error::TickOutOfBounds);
            },
        };
        if price.le(sqrt_price_x96) {
            lo = mid;
        } else {
            hi = mid;
        }
    }
    Ok(lo)
}


/// The first `i` multipliers applied to 2^128, flooring each step: the ratio of a tick whose
/// lowest `i` bits are all set, before its higher bits are applied.
pub open spec fn ratio_prefix(i: nat) -> nat
    decreases i,
{
    if i == 0 {
        b128()
    } else {
        (ratio_prefix((i - 1) as nat) * spec_tick_multiplier((i - 1) as nat)) / b128()
    }
}

/// `2^(20 - i)`: the ticks below it have no set bit at or above 20 once shifted by `i`.
pub open spec fn fold_limit(i: nat) -> nat
    decreases 20 - i,
{
    if i >= 20 {
        1
    } else {
        2 * fold_limit(i + 1)
    }
}

/// Each multiplier is at most the prefix chain of the multipliers below it.
proof fn lemma_multiplier_below_prefix(i: nat)
    requires
        i < 20,
    ensures
        spec_tick_multiplier(i) <= ratio_prefix(i),
        (ratio_prefix(i) - spec_tick_multiplier(i)) * 32768 >= spec_tick_multiplier(i),
        ratio_prefix(i + 1) == (ratio_prefix(i) * spec_tick_multiplier(i)) / b128(),
{
    assert(ratio_prefix(0) == b128());
    assert(ratio_prefix(1) == 340265354078544963557816517032075149313nat) by { assert((340282366920938463463374607431768211456nat * spec_tick_multiplier(0)) / b128() == 340265354078544963557816517032075149313nat); }
    assert(ratio_prefix(2) == 340231330945450418515964920540021147198nat) by { assert((340265354078544963557816517032075149313nat * spec_tick_multiplier(1)) / b128() == 340231330945450418515964920540021147198nat); }
    assert(ratio_prefix(3) == 340163294884840501567246455576441303173nat) by { assert((340231330945450418515964920540021147198nat * spec_tick_multiplier(2)) / b128() == 340163294884840501567246455576441303173nat); }
    assert(ratio_prefix(4) == 340027263576413978334042125129128142263nat) by { assert((340163294884840501567246455576441303173nat * spec_tick_multiplier(3)) / b128() == 340027263576413978334042125129128142263nat); }
    assert(ratio_prefix(5) == 339755364134575681238502878529008278326nat) by { assert((340027263576413978334042125129128142263nat * spec_tick_multiplier(4)) / b128() == 339755364134575681238502878529008278326nat); }
    assert(ratio_prefix(6) == 339212217342146842559531600927033253847nat) by { assert((339755364134575681238502878529008278326nat * spec_tick_multiplier(5)) / b128() == 339212217342146842559531600927033253847nat); }
    assert(ratio_prefix(7) == 338128527259088467778511436198880488164nat) by { assert((339212217342146842559531600927033253847nat * spec_tick_multiplier(6)) / b128() == 338128527259088467778511436198880488164nat); }
    assert(ratio_prefix(8) == 335971522311117552149334092109581418674nat) by { assert((338128527259088467778511436198880488164nat * spec_tick_multiplier(7)) / b128() == 335971522311117552149334092109581418674nat); }
    assert(ratio_prefix(9) == 331698704829854243503582989311158516586nat) by { assert((335971522311117552149334092109581418674nat * spec_tick_multiplier(8)) / b128() == 331698704829854243503582989311158516586nat); }
    assert(ratio_prefix(10) == 323315401242583425022802937239550140918nat) by { assert((331698704829854243503582989311158516586nat * spec_tick_multiplier(9)) / b128() == 323315401242583425022802937239550140918nat); }
    assert(ratio_prefix(11) == 307179074178916392659402722612948179612nat) by { assert((323315401242583425022802937239550140918nat * spec_tick_multiplier(10)) / b128() == 307179074178916392659402722612948179612nat); }
    assert(ratio_prefix(12) == 277282266700509388632609933215391170106nat) by { assert((307179074178916392659402722612948179612nat * spec_tick_multiplier(11)) / b128() == 277282266700509388632609933215391170106nat); }
    assert(ratio_prefix(13) == 225934749830749445986089663015556949343nat) by { assert((277282266700509388632609933215391170106nat * spec_tick_multiplier(12)) / b128() == 225934749830749445986089663015556949343nat); }
    assert(ratio_prefix(14) == 150004713758184102711002566140788444796nat) by { assert((225934749830749445986089663015556949343nat * spec_tick_multiplier(13)) / b128() == 150004713758184102711002566140788444796nat); }
    assert(ratio_prefix(15) == 66122407008436832627027740713496573148nat) by { assert((150004713758184102711002566140788444796nat * spec_tick_multiplier(14)) / b128() == 66122407008436832627027740713496573148nat); }
    assert(ratio_prefix(16) == 12848018414553970828728179856918040433nat) by { assert((66122407008436832627027740713496573148nat * spec_tick_multiplier(15)) / b128() == 12848018414553970828728179856918040433nat); }
    assert(ratio_prefix(17) == 485077512873820763967752669154895175nat) by { assert((12848018414553970828728179856918040433nat * spec_tick_multiplier(16)) / b128() == 485077512873820763967752669154895175nat); }
    assert(ratio_prefix(18) == 691450548841240133896843047535567nat) by { assert((485077512873820763967752669154895175nat * spec_tick_multiplier(17)) / b128() == 691450548841240133896843047535567nat); }
    assert(ratio_prefix(19) == 1404950724947776134837143967nat) by { assert((691450548841240133896843047535567nat * spec_tick_multiplier(18)) / b128() == 1404950724947776134837143967nat); }
    assert(ratio_prefix(20) == 5800441176149320nat) by { assert((1404950724947776134837143967nat * spec_tick_multiplier(19)) / b128() == 5800441176149320nat); }
}

/// A flooring multiplication by a fraction keeps the order of its inputs.
proof fn lemma_floor_mul_monotone(r1: nat, r2: nat, m: nat)
    requires
        r1 <= r2,
    ensures
        (r1 * m) / b128() <= (r2 * m) / b128(),
{
    assert(r1 * m <= r2 * m) by (nonlinear_arith) requires r1 <= r2;
    vstd::arithmetic::div_mod::lemma_div_is_ordered((r1 * m) as int, (r2 * m) as int, b128() as int);
}

/// Folding the same bits over a smaller start gives a smaller ratio.
proof fn lemma_fold_monotone(m: nat, i: nat, r1: nat, r2: nat)
    requires
        r1 <= r2,
    ensures
        ratio_fold(m, i, r1) <= ratio_fold(m, i, r2),
    decreases 20 - i,
{
    if i < 20 {
        lemma_floor_mul_monotone(r1, r2, spec_tick_multiplier(i));
        let n1 = if m % 2 == 1 { (r1 * spec_tick_multiplier(i)) / b128() } else { r1 };
        let n2 = if m % 2 == 1 { (r2 * spec_tick_multiplier(i)) / b128() } else { r2 };
        lemma_fold_monotone(m / 2, i + 1, n1, n2);
    }
}

/// Incrementing the bits from `i` on, where the bits below `i` carried (the incremented value
/// starts again from 2^128, the other has the full prefix chain), never raises the ratio.
proof fn lemma_fold_carry(x: nat, i: nat)
    requires
        i <= 20,
        x + 1 < fold_limit(i),
    ensures
        ratio_fold(x + 1, i, b128()) <= ratio_fold(x, i, ratio_prefix(i)),
    decreases 20 - i,
{
    if i < 20 {
        lemma_multiplier_below_prefix(i);
        let c = spec_tick_multiplier(i);
        assert((b128() * c) / b128() == c) by {
            vstd::arithmetic::div_mod::lemma_div_multiples_vanish(c as int, b128() as int);
            assert(b128() * c == c * b128()) by (nonlinear_arith);
        }
        if x % 2 == 0 {
            assert((x + 1) % 2 == 1 && (x + 1) / 2 == x / 2);
            lemma_fold_monotone(x / 2, i + 1, c, ratio_prefix(i));
        } else {
            assert((x + 1) % 2 == 0 && (x + 1) / 2 == x / 2 + 1);
            lemma_fold_carry(x / 2, i + 1);
        }
    }
}

/// The ratio of absolute tick `m + 1` is at most that of `m` (below 2^20).
proof fn lemma_fold_step(m: nat)
    requires
        m + 1 < 0x10_0000,
    ensures
        ratio_fold(m + 1, 0, b128()) <= ratio_fold(m, 0, b128()),
{
    assert(fold_limit(0) == 0x10_0000) by {
        reveal_with_fuel(fold_limit, 21);
    }
    assert(ratio_prefix(0) == b128());
    lemma_fold_carry(m, 0);
}

/// The ratio of absolute ticks never rises as the absolute tick grows (below 2^20).
proof fn lemma_fold_antitone(a: nat, b: nat)
    requires
        a <= b < 0x10_0000,
    ensures
        ratio_fold(b, 0, b128()) <= ratio_fold(a, 0, b128()),
    decreases b - a,
{
    if a < b {
        lemma_fold_step((b - 1) as nat);
        lemma_fold_antitone(a, (b - 1) as nat);
    }
}

/// Folding no set bits leaves the start unchanged.
proof fn lemma_fold_zero(i: nat, r: nat)
    ensures
        ratio_fold(0, i, r) == r,
    decreases 20 - i,
{
    if i < 20 {
        lemma_fold_zero(i + 1, r);
    }
}

/// Rounding up a quotient keeps the order of the dividends.
proof fn lemma_div_ceil_monotone(a: nat, b: nat, d: nat)
    requires
        a <= b,
        d > 0,
    ensures
        spec_div_ceil(a, d) <= spec_div_ceil(b, d),
{
    vstd::arithmetic::div_mod::lemma_div_is_ordered(a as int, b as int, d as int);
    if a / d == b / d && a % d != 0 {
        vstd::arithmetic::div_mod::lemma_fundamental_div_mod(a as int, d as int);
        vstd::arithmetic::div_mod::lemma_fundamental_div_mod(b as int, d as int);
    }
}

/// The sqrt price of a tick is at most that of the next tick.
pub proof fn lemma_sqrt_ratio_step(t: int)
    requires
        MIN_TICK <= t < MAX_TICK,
    ensures
        spec_sqrt_ratio_at_tick(t) <= spec_sqrt_ratio_at_tick(t + 1),
{
    let q = 0x1_0000_0000nat;
    let top = (b256() - 1) as nat;
    lemma_ratio_max_tick();
    if t + 1 <= 0 {
        let a = (-(t + 1)) as nat;
        lemma_fold_step(a);
        lemma_div_ceil_monotone(ratio_fold(a + 1, 0, b128()), ratio_fold(a, 0, b128()), q);
    } else if t >= 1 {
        let a = t as nat;
        lemma_fold_step(a);
        lemma_fold_antitone(a + 1, 887272);
        let r1 = ratio_fold(a, 0, b128());
        let r2 = ratio_fold(a + 1, 0, b128());
        assert(r2 > 0);
        vstd::arithmetic::div_mod::lemma_div_is_ordered_by_denominator(top as int, r2 as int, r1 as int);
        lemma_div_ceil_monotone(top / r1, top / r2, q);
    } else {
        lemma_fold_zero(0, b128());
        lemma_fold_zero(1, spec_tick_multiplier(0));
        let c0 = spec_tick_multiplier(0);
        assert(ratio_fold(1, 0, b128()) == ratio_fold(0, 1, (b128() * c0) / b128()));
        assert((b128() * c0) / b128() == c0) by {
            vstd::arithmetic::div_mod::lemma_div_multiples_vanish(c0 as int, b128() as int);
            assert(b128() * c0 == c0 * b128()) by (nonlinear_arith);
        }
        assert(top / c0 >= b128()) by {
            assert(b128() * c0 <= top) by (nonlinear_arith)
                requires c0 < b128(), top == b128() * b128() - 1, b128() > 0;
            vstd::arithmetic::div_mod::lemma_div_is_ordered((b128() * c0) as int, top as int, c0 as int);
            vstd::arithmetic::div_mod::lemma_div_multiples_vanish(b128() as int, c0 as int);
        }
        lemma_div_ceil_monotone(b128(), top / c0, q);
    }
}

/// The sqrt price never falls as the tick rises.
pub proof fn lemma_sqrt_ratio_monotone(a: int, b: int)
    requires
        MIN_TICK <= a <= b <= MAX_TICK,
    ensures
        spec_sqrt_ratio_at_tick(a) <= spec_sqrt_ratio_at_tick(b),
    decreases b - a,
{
    if a < b {
        lemma_sqrt_ratio_step(b - 1);
        lemma_sqrt_ratio_monotone(a, b - 1);
    }
}


/// Bisection finds the tick whose bracket holds `p`: its price is at most `p`, its successor's
/// exceeds `p`.
proof fn lemma_bisect_exact(lo: int, hi: int, p: nat)
    requires
        lo < hi,
        spec_sqrt_ratio_at_tick(lo) <= p < spec_sqrt_ratio_at_tick(hi),
    ensures
        lo <= spec_tick_bisect(lo, hi, p) < hi,
        spec_sqrt_ratio_at_tick(spec_tick_bisect(lo, hi, p)) <= p < spec_sqrt_ratio_at_tick(spec_tick_bisect(lo, hi, p) + 1),
    decreases hi - lo,
{
    if hi - lo > 1 {
        let mid = lo + (hi - lo) / 2;
        if spec_sqrt_ratio_at_tick(mid) <= p {
            lemma_bisect_exact(mid, hi, p);
        } else {
            lemma_bisect_exact(lo, mid, p);
        }
    }
}

/// Every admissible price lies in the bracket of exactly one tick, and that tick is
/// `spec_tick_at_sqrt_ratio`: its price is at most `p` and the next tick's exceeds `p`.
pub proof fn lemma_tick_at_sqrt_ratio_bracket(p: nat, t: int)
    requires
        spec_min_sqrt_ratio() <= p < spec_max_sqrt_ratio(),
    ensures
        MIN_TICK <= spec_tick_at_sqrt_ratio(p) < MAX_TICK,
        spec_sqrt_ratio_at_tick(spec_tick_at_sqrt_ratio(p)) <= p < spec_sqrt_ratio_at_tick(spec_tick_at_sqrt_ratio(p) + 1),
        MIN_TICK <= t < MAX_TICK && spec_sqrt_ratio_at_tick(t) <= p < spec_sqrt_ratio_at_tick(t + 1)
            ==> t == spec_tick_at_sqrt_ratio(p),
{
    lemma_sqrt_ratio_extremes();
    lemma_bisect_exact(MIN_TICK as int, MAX_TICK as int, p);
    let f = spec_tick_at_sqrt_ratio(p);
    if MIN_TICK <= t < MAX_TICK && spec_sqrt_ratio_at_tick(t) <= p < spec_sqrt_ratio_at_tick(t + 1) {
        if t < f {
            lemma_sqrt_ratio_monotone(t + 1, f);
        } else if f < t {
            lemma_sqrt_ratio_monotone(f + 1, t);
        }
    }
}


/// A flooring multiplication by a fraction below one keeps a gap between two inputs that is at
/// least a 2^-15 share of the smaller one, up to a slack of `j` such shares, with one more.
proof fn lemma_floor_mul_gap(a: nat, b: nat, c: nat, j: nat)
    requires
        b <= a,
        c < b128(),
        (a - b) * 32768 + j * 32768 >= b,
    ensures
        (b * c) / b128() <= (a * c) / b128(),
        (((a * c) / b128()) - ((b * c) / b128())) * 32768 + (j + 1) * 32768 >= (b * c) / b128(),
{
    let bb = b128();
    let a2 = (a * c) / bb;
    let b2 = (b * c) / bb;
    lemma_floor_mul_monotone(b, a, c);
    vstd::arithmetic::div_mod::lemma_fundamental_div_mod((a * c) as int, bb as int);
    vstd::arithmetic::div_mod::lemma_fundamental_div_mod((b * c) as int, bb as int);
    let ra = (a * c) % bb;
    let rb = (b * c) % bb;
    assert(a * c == bb * a2 + ra);
    assert(b * c == bb * b2 + rb);
    assert((a - b) * c * 32768 >= (b - j * 32768) * c) by (nonlinear_arith)
        requires (a - b) * 32768 + j * 32768 >= b, c >= 0;
    assert((a2 - b2) * bb * 32768 + (j + 1) * 32768 * bb >= b2 * bb) by (nonlinear_arith)
        requires
            a * c == bb * a2 + ra,
            b * c == bb * b2 + rb,
            0 <= ra < bb,
            0 <= rb < bb,
            (a - b) * c * 32768 >= (b - j * 32768) * c,
            c < bb,
            j >= 0,
            b2 <= a2,
    ;
    assert((a2 - b2) * 32768 + (j + 1) * 32768 >= b2) by (nonlinear_arith)
        requires (a2 - b2) * bb * 32768 + (j + 1) * 32768 * bb >= b2 * bb, bb > 0;
}

/// Folding the same bits over two starts keeps the gap between them a 2^-15 share of the
/// smaller result, up to one share of slack per bit position.
proof fn lemma_fold_gap(m: nat, i: nat, a: nat, b: nat, j: nat)
    requires
        i <= 20,
        b <= a,
        (a - b) * 32768 + j * 32768 >= b,
    ensures
        ratio_fold(m, i, b) <= ratio_fold(m, i, a),
        (ratio_fold(m, i, a) - ratio_fold(m, i, b)) * 32768 + (j + 20 - i) * 32768 >= ratio_fold(m, i, b),
    decreases 20 - i,
{
    if i < 20 {
        let c = spec_tick_multiplier(i);
        lemma_multiplier_below_one(i);
        if m % 2 == 1 {
            lemma_floor_mul_gap(a, b, c, j);
            lemma_fold_gap(m / 2, i + 1, (a * c) / b128(), (b * c) / b128(), j + 1);
        } else {
            lemma_fold_gap(m / 2, i + 1, a, b, j + 1);
        }
    }
}

/// `lemma_fold_carry` with a margin: the two folds stay a 2^-15 share of the smaller apart,
/// up to twenty shares.
proof fn lemma_fold_carry_gap(x: nat, i: nat)
    requires
        i <= 20,
        x + 1 < fold_limit(i),
    ensures
        ratio_fold(x + 1, i, b128()) <= ratio_fold(x, i, ratio_prefix(i)),
        (ratio_fold(x, i, ratio_prefix(i)) - ratio_fold(x + 1, i, b128())) * 32768 + 20 * 32768
            >= ratio_fold(x + 1, i, b128()),
    decreases 20 - i,
{
    if i < 20 {
        lemma_multiplier_below_prefix(i);
        let c = spec_tick_multiplier(i);
        assert((b128() * c) / b128() == c) by {
            vstd::arithmetic::div_mod::lemma_div_multiples_vanish(c as int, b128() as int);
            assert(b128() * c == c * b128()) by (nonlinear_arith);
        }
        if x % 2 == 0 {
            assert((x + 1) % 2 == 1 && (x + 1) / 2 == x / 2);
            lemma_fold_gap(x / 2, i + 1, ratio_prefix(i), c, 0);
        } else {
            assert((x + 1) % 2 == 0 && (x + 1) / 2 == x / 2 + 1);
            lemma_fold_carry_gap(x / 2, i + 1);
        }
    }
}

/// A fold never raises its start.
proof fn lemma_fold_le(m: nat, i: nat, r: nat)
    ensures
        ratio_fold(m, i, r) <= r,
    decreases 20 - i,
{
    if i < 20 {
        lemma_multiplier_below_one(i);
        lemma_mul_floor_le(r, spec_tick_multiplier(i));
        let n = if m % 2 == 1 { (r * spec_tick_multiplier(i)) / b128() } else { r };
        lemma_fold_le(m / 2, i + 1, n);
    }
}

/// The ratio of absolute tick `m + 1` is below that of `m` by at least 2^34, within the tick
/// bounds.
proof fn lemma_fold_step_strict(m: nat)
    requires
        m + 1 <= 887272,
    ensures
        ratio_fold(m + 1, 0, b128()) + 0x4_0000_0000 <= ratio_fold(m, 0, b128()),
{
    assert(fold_limit(0) == 0x10_0000) by {
        reveal_with_fuel(fold_limit, 21);
    }
    assert(ratio_prefix(0) == b128());
    lemma_fold_carry_gap(m, 0);
    lemma_ratio_max_tick();
    lemma_fold_antitone(m + 1, 887272);
}

/// Rounding up quotients that lie a divisor apart gives different results.
proof fn lemma_div_ceil_strict(a: nat, b: nat, d: nat)
    requires
        a + d <= b,
        d > 0,
    ensures
        spec_div_ceil(a, d) < spec_div_ceil(b, d),
{
    vstd::arithmetic::div_mod::lemma_fundamental_div_mod(a as int, d as int);
    vstd::arithmetic::div_mod::lemma_fundamental_div_mod(b as int, d as int);
    let qa = a / d;
    let qb = b / d;
    let ra = a % d;
    let rb = b % d;
    assert(qb >= qa + 1) by (nonlinear_arith)
        requires a == d * qa + ra, b == d * qb + rb, 0 <= ra < d, 0 <= rb < d, a + d <= b;
    if qb == qa + 1 {
        assert(rb >= ra) by (nonlinear_arith)
            requires a == d * qa + ra, b == d * qb + rb, a + d <= b, qb == qa + 1;
    }
}

/// The sqrt price of a tick is below that of the next tick.
pub proof fn lemma_sqrt_ratio_strict_step(t: int)
    requires
        MIN_TICK <= t < MAX_TICK,
    ensures
        spec_sqrt_ratio_at_tick(t) < spec_sqrt_ratio_at_tick(t + 1),
{
    let q = 0x1_0000_0000nat;
    let bb = b128();
    let top = (b256() - 1) as nat;
    if t + 1 <= 0 {
        let a = (-(t + 1)) as nat;
        lemma_fold_step_strict(a);
        lemma_div_ceil_strict(ratio_fold(a + 1, 0, bb), ratio_fold(a, 0, bb), q);
    } else if t >= 1 {
        let a = t as nat;
        lemma_fold_step_strict(a);
        lemma_fold_antitone(a + 1, 887272);
        lemma_ratio_max_tick();
        lemma_fold_le(a, 0, bb);
        let r1 = ratio_fold(a, 0, bb);
        let r2 = ratio_fold(a + 1, 0, bb);
        let x1 = top / r1;
        let x2 = top / r2;
        vstd::arithmetic::div_mod::lemma_fundamental_div_mod(top as int, r1 as int);
        vstd::arithmetic::div_mod::lemma_fundamental_div_mod(top as int, r2 as int);
        assert(x1 >= bb - 1) by {
            vstd::arithmetic::div_mod::lemma_div_is_ordered_by_denominator(top as int, r1 as int, bb as int);
            assert(top / bb == bb - 1) by {
                assert(top == (bb - 1) * bb + (bb - 1)) by (nonlinear_arith) requires top == bb * bb - 1;
                vstd::arithmetic::div_mod::lemma_fundamental_div_mod_converse(top as int, bb as int, (bb - 1) as int, (bb - 1) as int);
            }
        }
        assert(x1 + q <= x2) by (nonlinear_arith)
            requires
                top == r1 * x1 + top % r1,
                top == r2 * x2 + top % r2,
                0 <= top % r1 < r1,
                0 <= top % r2 < r2,
                r2 + 0x4_0000_0000 <= r1,
                r1 <= bb,
                r2 > 0,
                x1 >= bb - 1,
                bb == 0x1_0000_0000_0000_0000_0000_0000_0000_0000,
                q == 0x1_0000_0000,
        ;
        lemma_div_ceil_strict(x1, x2, q);
    } else {
        lemma_fold_zero(0, bb);
        lemma_fold_zero(1, spec_tick_multiplier(0));
        let c0 = spec_tick_multiplier(0);
        assert(ratio_fold(1, 0, bb) == ratio_fold(0, 1, (bb * c0) / bb));
        assert((bb * c0) / bb == c0) by {
            vstd::arithmetic::div_mod::lemma_div_multiples_vanish(c0 as int, bb as int);
            assert(bb * c0 == c0 * bb) by (nonlinear_arith);
        }
        assert(top / c0 >= bb + q);
        lemma_div_ceil_strict(bb, top / c0, q);
    }
}

/// The sqrt price rises strictly with the tick.
pub proof fn lemma_sqrt_ratio_strictly_increasing(a: int, b: int)
    requires
        MIN_TICK <= a < b <= MAX_TICK,
    ensures
        spec_sqrt_ratio_at_tick(a) < spec_sqrt_ratio_at_tick(b),
    decreases b - a,
{
    lemma_sqrt_ratio_strict_step(b - 1);
    if a < b - 1 {
        lemma_sqrt_ratio_strictly_increasing(a, b - 1);
    }
}

/// Converting a tick to its sqrt price and back gives the tick, and so does the price just
/// below the next tick's.
pub proof fn law_tick_price_roundtrip(t: int)
    requires
        MIN_TICK <= t < MAX_TICK,
    ensures
        spec_tick_at_sqrt_ratio(spec_sqrt_ratio_at_tick(t)) == t,
        spec_tick_at_sqrt_ratio((spec_sqrt_ratio_at_tick(t + 1) - 1) as nat) == t,
{
    lemma_sqrt_ratio_extremes();
    lemma_sqrt_ratio_strict_step(t);
    lemma_sqrt_ratio_monotone(MIN_TICK as int, t);
    lemma_sqrt_ratio_monotone(t + 1, MAX_TICK as int);
    lemma_tick_at_sqrt_ratio_bracket(spec_sqrt_ratio_at_tick(t), t);
    lemma_tick_at_sqrt_ratio_bracket((spec_sqrt_ratio_at_tick(t + 1) - 1) as nat, t);
}

} // verus!
