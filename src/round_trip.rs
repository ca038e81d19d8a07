//! An RGB colour survives the round trip through HSL: each channel comes
//! back at most one step lower, never higher.

use vstd::prelude::*;
use crate::color::{
    FULL_TURN, channel_from, lower_tone, max, min, sector_hue, sector_intensity, spec_hsl_to_rgb,
    spec_rgb_to_hsl, upper_tone, wrap_hue,
};

verus! {

/// The lightness and saturation that `spec_rgb_to_hsl` finds for a colour
/// whose largest channel is `mx` and smallest `mn`.
spec fn lightness_of(mx: int, mn: int) -> int {
    (mx + mn) * 10000 / 510
}

spec fn saturation_of(mx: int, mn: int) -> int {
    if mx == mn {
        0
    } else if mx + mn < 255 {
        (mx - mn) * 10000 / (mx + mn)
    } else {
        (mx - mn) * 10000 / (510 - mx - mn)
    }
}

/// Scaled by 255, the upper tone sits just below `mx` and the lower tone
/// just around `mn`, in parts of `UNIT * UNIT`.
proof fn lemma_tone_bounds(mx: int, mn: int)
    requires
        0 <= mn < mx <= 255,
    ensures
        ({
            let l = lightness_of(mx, mn);
            let s = saturation_of(mx, mn);
            let t1 = upper_tone(s, l);
            let t2 = lower_tone(s, l);
            &&& 0 < s <= 10000
            &&& 0 <= l <= 10000
            &&& mx * 100000000 - 6400000 <= 255 * t1 <= mx * 100000000
            &&& mn * 100000000 - 6400000 <= 255 * t2 <= mn * 100000000 + 6400000
        }),
{
    let sum = mx + mn;
    let d = mx - mn;
    let l = lightness_of(mx, mn);
    let s = saturation_of(mx, mn);
    vstd::arithmetic::div_mod::lemma_fundamental_div_mod(sum * 10000, 510);
    vstd::arithmetic::div_mod::lemma_mod_bound(sum * 10000, 510);
    let rl = (sum * 10000) % 510;
    assert(510 * l + rl == 10000 * sum);
    assert(0 <= l <= 10000) by (nonlinear_arith)
        requires 510 * l + rl == 10000 * sum, 0 <= rl < 510, 0 <= sum <= 510;
    let t1 = upper_tone(s, l);
    if sum < 255 {
        vstd::arithmetic::div_mod::lemma_fundamental_div_mod(d * 10000, sum);
        vstd::arithmetic::div_mod::lemma_mod_bound(d * 10000, sum);
        let rs = (d * 10000) % sum;
        assert(sum * s + rs == 10000 * d);
        assert(2 * l < 10000) by (nonlinear_arith)
            requires 510 * l + rl == 10000 * sum, 0 <= rl, sum < 255;
        assert(0 < s <= 10000) by (nonlinear_arith)
            requires sum * s + rs == 10000 * d, 0 <= rs < sum, 1 <= d <= sum, sum <= 510;
        assert(t1 == l * (10000 + s));
        let ls = 510 * l;
        let ss = sum * (10000 + s);
        assert(510 * sum * t1 == ls * ss) by (nonlinear_arith)
            requires t1 == l * (10000 + s), ls == 510 * l, ss == sum * (10000 + s);
        assert(ss == 10000 * sum + sum * s) by (nonlinear_arith)
            requires ss == sum * (10000 + s);
        assert(ls == 10000 * sum - rl);
        assert(ss == 20000 * mx - rs);
        assert(510 * sum * t1 == (10000 * sum - rl) * (20000 * mx - rs));
        assert(510 * sum * t1 <= 2 * sum * (mx * 100000000)) by (nonlinear_arith)
            requires 510 * sum * t1 == (10000 * sum - rl) * (20000 * mx - rs), 0 <= rl < 510, 0 <= rs < sum,
                sum <= 2 * mx, 0 < sum;
        assert(510 * sum * t1 >= 2 * sum * (mx * 100000000 - 6400000)) by (nonlinear_arith)
            requires 510 * sum * t1 == (10000 * sum - rl) * (20000 * mx - rs), 0 <= rl < 510, 0 <= rs < sum,
                mx <= sum, sum < 255, 0 < sum;
        assert(mx * 100000000 - 6400000 <= 255 * t1 <= mx * 100000000) by (nonlinear_arith)
            requires 510 * sum * t1 <= 2 * sum * (mx * 100000000),
                510 * sum * t1 >= 2 * sum * (mx * 100000000 - 6400000), 0 < sum;
    } else {
        let q = 510 - sum;
        vstd::arithmetic::div_mod::lemma_fundamental_div_mod(d * 10000, q);
        vstd::arithmetic::div_mod::lemma_mod_bound(d * 10000, q);
        let rs = (d * 10000) % q;
        assert(q * s + rs == 10000 * d);
        assert(2 * l >= 10000) by (nonlinear_arith)
            requires 510 * l + rl == 10000 * sum, rl < 510, sum >= 255;
        assert(d <= q);
        assert(0 < s <= 10000) by (nonlinear_arith)
            requires q * s + rs == 10000 * d, 0 <= rs < q, 1 <= d <= q, q <= 510;
        assert(t1 == (l + s) * 10000 - l * s);
        let ls = 510 * l;
        let qs = q * s;
        assert(510 * q * t1 == 10000 * q * ls + qs * (5100000 - ls)) by (nonlinear_arith)
            requires t1 == (l + s) * 10000 - l * s, ls == 510 * l, qs == q * s;
        assert(ls == 10000 * sum - rl);
        assert(qs == 10000 * d - rs);
        assert(5100000 - ls == 10000 * q + rl);
        assert(10000 * q * ls == 100000000 * q * sum - 10000 * q * rl) by (nonlinear_arith)
            requires ls == 10000 * sum - rl;
        assert(qs * (5100000 - ls) == (10000 * d - rs) * (10000 * q + rl)) by (nonlinear_arith)
            requires qs == 10000 * d - rs, 5100000 - ls == 10000 * q + rl;
        assert((10000 * d - rs) * (10000 * q + rl) == 100000000 * d * q + 10000 * d * rl - 10000 * q * rs - rs * rl)
            by (nonlinear_arith);
        assert(100000000 * q * sum + 100000000 * d * q == 200000000 * q * mx) by (nonlinear_arith)
            requires sum + d == 2 * mx;
        assert(10000 * q * rl - 10000 * d * rl == 10000 * rl * (q - d)) by (nonlinear_arith);
        assert(510 * q * t1 == 200000000 * q * mx - 10000 * rl * (q - d) - 10000 * q * rs - rs * rl);
        assert(510 * q * t1 <= 200000000 * q * mx) by (nonlinear_arith)
            requires 510 * q * t1 == 200000000 * q * mx - 10000 * rl * (q - d) - 10000 * q * rs - rs * rl,
                0 <= rl, 0 <= rs, d <= q, 0 < q;
        assert(510 * q * t1 >= 2 * q * (mx * 100000000 - 6400000)) by (nonlinear_arith)
            requires 510 * q * t1 == 200000000 * q * mx - 10000 * rl * (q - d) - 10000 * q * rs - rs * rl,
                0 <= rl < 510, 0 <= rs < q, 0 <= d <= q, 0 < q <= 255;
        assert(mx * 100000000 - 6400000 <= 255 * t1 <= mx * 100000000) by (nonlinear_arith)
            requires 510 * q * t1 <= 200000000 * q * mx,
                510 * q * t1 >= 2 * q * (mx * 100000000 - 6400000), 0 < q;
    }
    let t2 = lower_tone(s, l);
    assert(255 * t2 == 100000000 * sum - 10000 * rl - 255 * t1) by (nonlinear_arith)
        requires t2 == 2 * l * 10000 - t1, 510 * l + rl == 10000 * sum;
}


/// `floor(6000 * k / d)`: how far into a sixty-degree sector a channel that
/// lies `k` steps above the smallest channel is, for a spread of `d`.
spec fn sector_offset(k: int, d: int) -> int {
    6000 * k / d
}

/// One channel comes back within a step below its value `c`, given the tone
/// bounds and that the shifted hue `hh` falls where `c` puts it.
proof fn lemma_channel(t1: int, t2: int, hh: int, mx: int, mn: int, c: int)
    requires
        0 <= mn < mx <= 255,
        mn <= c <= mx,
        mx * 100000000 - 6400000 <= 255 * t1 <= mx * 100000000,
        mn * 100000000 - 6400000 <= 255 * t2 <= mn * 100000000 + 6400000,
        0 <= hh < FULL_TURN,
        hh < 6000 ==> hh == sector_offset(c - mn, mx - mn),
        6000 <= hh < 18000 ==> c == mx,
        18000 <= hh < 24000 ==> 24000 - hh == sector_offset(c - mn, mx - mn),
        24000 <= hh ==> c == mn,
    ensures
        c - 1 <= channel_from(t1, t2, hh) <= c,
{
    let v = sector_intensity(t1, t2, hh);
    let big = 600000000000int;
    vstd::arithmetic::div_mod::lemma_fundamental_div_mod(v * 255, big);
    vstd::arithmetic::div_mod::lemma_mod_bound(v * 255, big);
    let ch = v * 255 / big;
    let rem = (v * 255) % big;
    assert(v * 255 == big * ch + rem);
    if 6000 <= hh < 18000 {
        assert(v == t1 * 6000);
        assert(c - 1 <= ch <= c) by (nonlinear_arith)
            requires v * 255 == big * ch + rem, 0 <= rem < big, v == t1 * 6000, big == 600000000000,
                c * 100000000 - 6400000 <= 255 * t1 <= c * 100000000;
    } else if 24000 <= hh {
        assert(v == t2 * 6000);
        assert(c - 1 <= ch <= c) by (nonlinear_arith)
            requires v * 255 == big * ch + rem, 0 <= rem < big, v == t2 * 6000, big == 600000000000,
                c * 100000000 - 6400000 <= 255 * t2 <= c * 100000000 + 6400000;
    } else {
        let x = if hh < 6000 { hh } else { 24000 - hh };
        let d = mx - mn;
        let k = c - mn;
        assert(v == t2 * 6000 + (t1 - t2) * x);
        assert(x == sector_offset(k, d));
        vstd::arithmetic::div_mod::lemma_fundamental_div_mod(6000 * k, d);
        vstd::arithmetic::div_mod::lemma_mod_bound(6000 * k, d);
        let rx = (6000 * k) % d;
        assert(d * x + rx == 6000 * k);
        assert(0 <= x <= 6000) by (nonlinear_arith)
            requires d * x + rx == 6000 * k, 0 <= rx < d, 0 <= k <= d;
        let a1 = 255 * t1;
        let a2 = 255 * t2;
        let e1 = mx * 100000000 - a1;
        let e2 = a2 - mn * 100000000;
        assert(v * 255 == 6000 * a2 + (a1 - a2) * x) by (nonlinear_arith)
            requires v == t2 * 6000 + (t1 - t2) * x, a1 == 255 * t1, a2 == 255 * t2;
        assert((a1 - a2) * x == (d * x) * 100000000 - (e1 + e2) * x) by (nonlinear_arith)
            requires a1 - a2 == d * 100000000 - e1 - e2;
        assert((d * x) * 100000000 == 600000000000 * k - 100000000 * rx) by (nonlinear_arith)
            requires d * x == 6000 * k - rx;
        let ex = (e1 + e2) * x;
        assert(-12800000 * 6000 <= ex <= 12800000 * 6000) by (nonlinear_arith)
            requires -6400000 <= e2 <= 6400000, 0 <= e1 <= 6400000, 0 <= x <= 6000, ex == (e1 + e2) * x;
        assert(0 - ex <= 6400000 * 6000) by (nonlinear_arith)
            requires -6400000 <= e2, 0 <= e1, 0 <= x <= 6000, ex == (e1 + e2) * x;
        let err = 6000 * e2 - 100000000 * rx - ex;
        assert(v * 255 == big * c + err);
        assert(-big < err < big);
        assert(c - 1 <= ch <= c) by (nonlinear_arith)
            requires v * 255 == big * ch + rem, 0 <= rem < big, v * 255 == big * c + err, -big < err < big,
                big > 0;
    }
}


proof fn lemma_offset_range(k: int, d: int)
    requires
        0 <= k <= d,
        1 <= d <= 255,
    ensures
        0 <= sector_offset(k, d) <= 6000,
        sector_offset(k, d) == 6000 <==> k == d,
        k >= 1 ==> sector_offset(k, d) >= 1,
{
    vstd::arithmetic::div_mod::lemma_fundamental_div_mod(6000 * k, d);
    vstd::arithmetic::div_mod::lemma_mod_bound(6000 * k, d);
    let x = sector_offset(k, d);
    let rx = (6000 * k) % d;
    assert(d * x + rx == 6000 * k);
    assert(0 <= x <= 6000) by (nonlinear_arith)
        requires d * x + rx == 6000 * k, 0 <= rx < d, 0 <= k <= d;
    assert(x == 6000 ==> k == d) by (nonlinear_arith)
        requires d * x + rx == 6000 * k, 0 <= rx < d, 0 <= k <= d;
    assert(k == d ==> x == 6000) by (nonlinear_arith)
        requires d * x + rx == 6000 * k, 0 <= rx < d, 1 <= d;
    assert(k >= 1 ==> x >= 1) by (nonlinear_arith)
        requires d * x + rx == 6000 * k, 0 <= rx < d, d <= 255;
}

proof fn lemma_turn(x: int, k: int, y: int)
    requires
        x == y + k * 36000,
        0 <= y < 36000,
    ensures
        x % (FULL_TURN as int) == y,
        wrap_hue(x) == y,
{
    vstd::arithmetic::div_mod::lemma_fundamental_div_mod_converse(x, 36000, k, y);
}

/// An RGB colour comes back from HSL with each channel at most one step
/// lower than it was, and never higher.
pub proof fn lemma_rgb_round_trip(r: int, g: int, b: int)
    requires
        0 <= r <= 255,
        0 <= g <= 255,
        0 <= b <= 255,
    ensures
        ({
            let hsl = spec_rgb_to_hsl(r, g, b);
            let c = spec_hsl_to_rgb(hsl.0, hsl.1, hsl.2);
            &&& r - 1 <= c.0 <= r
            &&& g - 1 <= c.1 <= g
            &&& b - 1 <= c.2 <= b
        }),
{
    let mn = min(min(r, g), b);
    let mx = max(max(r, g), b);
    let hsl = spec_rgb_to_hsl(r, g, b);
    let h = hsl.0;
    if mn == mx {
        assert(r == g && g == b);
        crate::color::lemma_grey_round_trip(r);
    } else {
        let d = mx - mn;
        lemma_tone_bounds(mx, mn);
        let l = lightness_of(mx, mn);
        let s = saturation_of(mx, mn);
        assert(hsl.1 == s && hsl.2 == l);
        let t1 = upper_tone(s, l);
        let t2 = lower_tone(s, l);
        let rh = (h + 12000) % (FULL_TURN as int);
        let bh = (h + 24000) % (FULL_TURN as int);
        if mx == r {
            if g >= b {
                let x = sector_offset(g - b, d);
                lemma_offset_range(g - b, d);
                lemma_turn(x, 0, x);
                assert(h == x);
                lemma_turn(x + 12000, 0, x + 12000);
                lemma_turn(x + 24000, 0, x + 24000);
                lemma_offset_range(d, d);
                lemma_channel(t1, t2, rh, mx, mn, r);
                lemma_channel(t1, t2, h, mx, mn, g);
                lemma_channel(t1, t2, bh, mx, mn, b);
            } else {
                let x = sector_offset(b - g, d);
                lemma_offset_range(b - g, d);
                lemma_turn(0 - x, -1, 36000 - x);
                assert(h == 36000 - x);
                lemma_turn(48000 - x, 1, 12000 - x);
                lemma_turn(60000 - x, 1, 24000 - x);
                lemma_channel(t1, t2, rh, mx, mn, r);
                lemma_channel(t1, t2, h, mx, mn, g);
                lemma_channel(t1, t2, bh, mx, mn, b);
            }
        } else if mx == g {
            if b >= r {
                let x = sector_offset(b - r, d);
                lemma_offset_range(b - r, d);
                lemma_turn(12000 + x, 0, 12000 + x);
                assert(h == 12000 + x);
                lemma_turn(24000 + x, 0, 24000 + x);
                lemma_turn(36000 + x, 1, x);
                lemma_offset_range(d, d);
                lemma_channel(t1, t2, rh, mx, mn, r);
                lemma_channel(t1, t2, h, mx, mn, g);
                lemma_channel(t1, t2, bh, mx, mn, b);
            } else {
                let x = sector_offset(r - b, d);
                lemma_offset_range(r - b, d);
                lemma_turn(12000 - x, 0, 12000 - x);
                assert(h == 12000 - x);
                lemma_turn(24000 - x, 0, 24000 - x);
                lemma_turn(36000 - x, 0, 36000 - x);
                lemma_channel(t1, t2, rh, mx, mn, r);
                lemma_channel(t1, t2, h, mx, mn, g);
                lemma_channel(t1, t2, bh, mx, mn, b);
            }
        } else {
            if r >= g {
                let x = sector_offset(r - g, d);
                lemma_offset_range(r - g, d);
                lemma_turn(24000 + x, 0, 24000 + x);
                assert(h == 24000 + x);
                lemma_turn(36000 + x, 1, x);
                lemma_turn(48000 + x, 1, 12000 + x);
                lemma_offset_range(d, d);
                lemma_channel(t1, t2, rh, mx, mn, r);
                lemma_channel(t1, t2, h, mx, mn, g);
                lemma_channel(t1, t2, bh, mx, mn, b);
            } else {
                let x = sector_offset(g - r, d);
                lemma_offset_range(g - r, d);
                lemma_turn(24000 - x, 0, 24000 - x);
                assert(h == 24000 - x);
                lemma_turn(36000 - x, 0, 36000 - x);
                lemma_turn(48000 - x, 1, 12000 - x);
                lemma_channel(t1, t2, rh, mx, mn, r);
                lemma_channel(t1, t2, h, mx, mn, g);
                lemma_channel(t1, t2, bh, mx, mn, b);
            }
        }
    }
}

} // verus!
