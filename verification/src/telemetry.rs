//! Telemetry source for the dashboard.
//!
//! This is the seam where real sensor reads (soil moisture, humidity,
//! temperature) will replace the synthetic sweeps below. Keep the return shape
//! `(humidity %RH, temperature in degrees Celsius, watering active)` so the
//! render loop and widgets stay unchanged when the placeholder is swapped out.

use vstd::prelude::*;

verus! {

/// How far a phase is from the nearer end of its period: from the start on the
/// way up, from the end on the way down.
pub open spec fn sweep(phase: int, period: int) -> int {
    let p = phase % period;
    if p <= period - p {
        p
    } else {
        period - p
    }
}

/// A triangle wave that ramps from 0 to `max` and back over `period` steps.
pub open spec fn wave(phase: int, period: int, max: int) -> int {
    max * sweep(phase, period) / (period / 2)
}

/// Placeholder telemetry: slow triangle sweeps so the gauges visibly fill and
/// empty. `frame` advances once per displayed frame (~58 Hz).
pub fn telemetry(frame: u32) -> (reading: (u8, i16, bool))
    ensures
        reading.0 == wave(frame as int, 464, 100),
        reading.1 == 5 + wave(frame as int, 340, 30),
        reading.2 <==> reading.0 < 25,
        ({
            let p = frame as int % 464;
            let d = if p <= 232 {
                p
            } else {
                464 - p
            };
            232 * reading.0 <= 100 * d < 232 * (reading.0 + 1)
        }),
        ({
            let p = frame as int % 340;
            let d = if p <= 170 {
                p
            } else {
                340 - p
            };
            170 * (reading.1 - 5) <= 30 * d < 170 * (reading.1 - 4)
        }),
        reading.0 <= 100,
        5 <= reading.1 <= 35,
{
    proof {
        law_wave_is_bounded(frame as int, 464, 100);
        law_wave_is_bounded(frame as int, 340, 30);
    }
    let rh: u8 = triangle(frame, 464, 100) as u8;  // 0..100 %RH, ~8 s sweep
    let temp: i16 = 5 + triangle(frame, 340, 30) as i16;  // 5..35 degrees, ~6 s sweep
    let watering: bool = rh < 25;  // "water when it's dry"
    (rh, temp, watering)
}

/// Triangle wave: ramps 0 -> `max` -> 0 over `period` steps of `phase`.
pub fn triangle(phase: u32, period: u32, max: u32) -> (level: u32)
    requires
        period >= 2,
        max * sweep(phase as int, period as int) <= u32::MAX,
    ensures
        level == wave(phase as int, period as int, max as int),
        level <= max,
{
    let half: u32 = period / 2;
    let p: u32 = phase % period;
    let d: u32 = if p <= period - p {
        p
    } else {
        period - p
    };
    proof {
        law_wave_is_bounded(phase as int, period as int, max as int);
    }
    max * d / half
}

/// The wave repeats after its period.
pub proof fn law_wave_is_periodic(phase: int, period: int, max: int)
    requires
        period >= 2,
    ensures
        wave(phase + period, period, max) == wave(phase, period, max),
{
    vstd::arithmetic::div_mod::lemma_mod_add_multiples_vanish(phase, period);
}

/// The wave stays between 0 and `max`.
pub proof fn law_wave_is_bounded(phase: int, period: int, max: int)
    requires
        period >= 2,
        max >= 0,
    ensures
        0 <= sweep(phase, period) <= period / 2,
        0 <= max * sweep(phase, period) <= max * (period / 2),
        0 <= wave(phase, period, max) <= max,
{
    let s = sweep(phase, period);
    let half = period / 2;
    vstd::arithmetic::div_mod::lemma_mod_bound(phase, period);
    assert(0 <= max * s <= max * half) by (nonlinear_arith)
        requires
            0 <= s <= half,
            0 <= max,
    ;
    assert(0 <= max * s / half <= max) by (nonlinear_arith)
        requires
            0 <= max * s <= max * half,
            0 < half,
    ;
}

/// The wave starts at 0 and peaks at `max` in its middle.
pub proof fn law_wave_touches_its_bounds(period: int, max: int)
    requires
        period >= 2,
    ensures
        wave(0, period, max) == 0,
        wave(period / 2, period, max) == max,
{
    let half = period / 2;
    vstd::arithmetic::div_mod::lemma_small_mod(0, period as nat);
    vstd::arithmetic::div_mod::lemma_small_mod(half as nat, period as nat);
    assert(max * 0 == 0);
    assert(0int / half == 0) by (nonlinear_arith)
        requires
            half > 0,
    ;
    assert(max * half / half == max) by (nonlinear_arith)
        requires
            half > 0,
    ;
}

/// Within a period the wave does not fall on the way up and does not rise on
/// the way down.
pub proof fn law_wave_ramps(p: int, q: int, period: int, max: int)
    requires
        period >= 2,
        max >= 0,
        0 <= p <= q < period,
    ensures
        q <= period / 2 ==> wave(p, period, max) <= wave(q, period, max),
        period / 2 <= p ==> wave(q, period, max) <= wave(p, period, max),
{
    vstd::arithmetic::div_mod::lemma_small_mod(p as nat, period as nat);
    vstd::arithmetic::div_mod::lemma_small_mod(q as nat, period as nat);
    let half = period / 2;
    if q <= half {
        lemma_scale_is_monotone(p, q, max, half);
    }
    if half <= p {
        lemma_scale_is_monotone(sweep(q, period), sweep(p, period), max, half);
    }
}

/// The wave is its own mirror image: the way down retraces the way up.
pub proof fn law_wave_is_symmetric(p: int, period: int, max: int)
    requires
        period >= 2,
        0 < p < period,
    ensures
        wave(period - p, period, max) == wave(p, period, max),
{
    vstd::arithmetic::div_mod::lemma_small_mod(p as nat, period as nat);
    vstd::arithmetic::div_mod::lemma_small_mod((period - p) as nat, period as nat);
}

proof fn lemma_scale_is_monotone(a: int, b: int, max: int, half: int)
    requires
        0 <= a <= b,
        0 <= max,
        0 < half,
    ensures
        max * a / half <= max * b / half,
{
    assert(max * a <= max * b) by (nonlinear_arith)
        requires
            0 <= max,
            a <= b,
    ;
    vstd::arithmetic::div_mod::lemma_div_is_ordered(max * a, max * b, half);
}

/// The wave rises and falls evenly: `d` steps from the nearer end of a period
/// it has climbed the `d`-th part of half a period's share of `max`, rounded
/// down, and every period is like every other.
pub proof fn law_wave_is_even(cycle: int, p: int, period: int, max: int)
    requires
        period >= 2,
        0 <= p < period,
    ensures
        p <= period - p ==> wave(cycle * period + p, period, max) * (period / 2) <= max * p < (wave(
            cycle * period + p,
            period,
            max,
        ) + 1) * (period / 2),
        period - p <= p ==> wave(cycle * period + p, period, max) * (period / 2) <= max * (period
            - p) < (wave(cycle * period + p, period, max) + 1) * (period / 2),
{
    vstd::arithmetic::div_mod::lemma_mod_multiples_vanish(cycle, p, period);
    vstd::arithmetic::div_mod::lemma_small_mod(p as nat, period as nat);
    assert(cycle * period + p == period * cycle + p) by (nonlinear_arith);
    let d = sweep(cycle * period + p, period);
    let half = period / 2;
    let w = max * d / half;
    assert(w * half <= max * d < (w + 1) * half) by (nonlinear_arith)
        requires
            0 < half,
            w == (max * d) / half,
    ;
}

} // verus!
