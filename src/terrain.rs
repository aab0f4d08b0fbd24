//! Terrain categories and the thresholds that sort noise samples into them.
//!
//! A noise sample is an integer in millionths: `-1_000_000` stands for `-1.0`
//! and `1_000_000` for `1.0`.
use vstd::prelude::*;

verus! {

/// The terrain a tile shows.
#[derive(Clone, Copy, Debug, PartialEq, Eq, Structural, Hash)]
pub enum TileType {
    Grass,
    Water,
    Mountain,
}

/// One noise unit (`1.0`) in sample units.
pub const SAMPLE_SCALE: i32 = 1_000_000;

/// Samples below this value are water (`-0.2`).
pub const WATER_BELOW: i32 = -200_000;

/// Samples at or above this value are mountains (`0.4`).
pub const MOUNTAIN_FROM: i32 = 400_000;

/// The category of an averaged noise sample.
pub open spec fn category_of(sample: int) -> TileType {
    if sample < WATER_BELOW {
        TileType::Water
    } else if sample < MOUNTAIN_FROM {
        TileType::Grass
    } else {
        TileType::Mountain
    }
}

/// Sorts an averaged noise sample into its terrain category.
pub fn classify_sample(sample: i32) -> (r: TileType)
    ensures
        r == category_of(sample as int),
{
    if sample < WATER_BELOW {
        TileType::Water
    } else if sample < MOUNTAIN_FROM {
        TileType::Grass
    } else {
        TileType::Mountain
    }
}

pub open spec fn sum_of(s: Seq<i32>) -> int
    decreases s.len(),
{
    if s.len() == 0 {
        0
    } else {
        sum_of(s.drop_last()) + s.last()
    }
}

/// The mean of the samples of several noise fields, rounded down.
pub open spec fn mean_of(s: Seq<i32>) -> int {
    sum_of(s) / (s.len() as int)
}

proof fn lemma_sum_bounds(s: Seq<i32>)
    ensures
        s.len() * (i32::MIN as int) <= sum_of(s) <= s.len() * (i32::MAX as int),
    decreases s.len(),
{
    if s.len() > 0 {
        lemma_sum_bounds(s.drop_last());
    }
}

/// Averages the samples of the configured noise fields (rounding down), so that
/// several fields classify as one.
pub fn mean_sample(samples: &Vec<i32>) -> (r: i32)
    requires
        samples@.len() > 0,
    ensures
        r == mean_of(samples@),
{
    let n: usize = samples.len();
    let mut total: i128 = 0;
    let mut i: usize = 0;
    while i < n
        invariant
            n == samples@.len(),
            i <= n,
            total == sum_of(samples@.take(i as int)),
            i * (i32::MIN as int) <= total <= i * (i32::MAX as int),
        decreases n - i,
    {
        proof {
            assert(samples@.take(i as int + 1).drop_last() =~= samples@.take(i as int));
        }
        assert(i * (i32::MIN as int) >= -0x8000_0000 * 0x1_0000_0000_0000_0000
            && i * (i32::MAX as int) <= 0x8000_0000 * 0x1_0000_0000_0000_0000) by (nonlinear_arith)
            requires
                0 <= i <= 0x1_0000_0000_0000_0000,
        ;
        total = total + samples[i] as i128;
        i = i + 1;
    }
    proof {
        assert(samples@.take(n as int) =~= samples@);
        lemma_sum_bounds(samples@);
    }
    let len: i128 = n as i128;
    let q: i128 = if total >= 0 {
        total / len
    } else {
        let m: i128 = -total;
        let f: i128 = m / len;
        if m % len == 0 {
            -f
        } else {
            -f - 1
        }
    };
    proof {
        let t = total as int;
        let l = len as int;
        if t >= 0 {
            vstd::arithmetic::div_mod::lemma_div_pos_is_pos(t, l);
        } else {
            let m = -t;
            let f = m / l;
            vstd::arithmetic::div_mod::lemma_fundamental_div_mod(m, l);
            if m % l == 0 {
                assert(t == (-f) * l + 0) by (nonlinear_arith)
                    requires
                        m == l * f + 0,
                        t == -m,
                ;
                vstd::arithmetic::div_mod::lemma_fundamental_div_mod_converse(t, l, -f, 0);
            } else {
                let r = m - f * l;
                assert(m == l * f + m % l);
                assert(0 < r < l);
                assert(t == (-f - 1) * l + (l - r)) by (nonlinear_arith)
                    requires
                        r == m - f * l,
                        t == -m,
                ;
                vstd::arithmetic::div_mod::lemma_fundamental_div_mod_converse(t, l, -f - 1, l - r);
            }
        }
        assert(i32::MIN <= t / l <= i32::MAX) by {
            vstd::arithmetic::div_mod::lemma_div_is_ordered(l * (i32::MIN as int), t, l);
            vstd::arithmetic::div_mod::lemma_div_is_ordered(t, l * (i32::MAX as int), l);
            vstd::arithmetic::div_mod::lemma_div_multiples_vanish(i32::MIN as int, l);
            vstd::arithmetic::div_mod::lemma_div_multiples_vanish(i32::MAX as int, l);
        }
    }
    q as i32
}

} // verus!
