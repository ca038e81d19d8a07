//! RGB and HSL colours in fixed point, their conversions and interpolation.
//!
//! Saturation, lightness and interpolation ratios are parts of `UNIT`
//! (so `UNIT` stands for 1.0); a hue is in hundredths of a degree, below
//! `FULL_TURN`.

use vstd::prelude::*;

verus! {

/// The fixed-point one.
pub const UNIT: u32 = 10000;

/// A full turn of hue, in hundredths of a degree.
pub const FULL_TURN: u32 = 36000;

/// Half a turn of hue.
pub const HALF_TURN: u32 = 18000;

/// Sixty degrees, the width of one hue sector.
pub const SECTOR: u32 = 6000;

/// Why a constructor refused its input.
#[derive(Debug, Clone, Copy, PartialEq, Eq, Structural)]
pub enum ConfigError {
    SaturationOutOfRange,
    LightnessOutOfRange,
    CoordinateOutOfRange,
    MissingCorner,
}

#[derive(Debug, Clone, Copy, PartialEq, Eq, Structural)]
pub enum Color {
    RGB { r: u8, g: u8, b: u8 },
    HSL { h: u32, s: u32, l: u32 },
}

/// A ratio clamped to `[0, UNIT]`.
pub open spec fn clamp_ratio(t: int) -> int {
    if t > UNIT as int { UNIT as int } else if t < 0 { 0 } else { t }
}

/// Linear interpolation of two quantities, rounded down.
pub open spec fn lerp_value(a: int, b: int, t: int) -> int {
    (a * (UNIT - t) + b * t) / UNIT as int
}

/// The signed hue difference from `h1` to `h2` along the shorter arc.
pub open spec fn shortest_delta(h1: int, h2: int) -> int {
    let d = h2 - h1;
    if d > HALF_TURN as int {
        d - FULL_TURN
    } else if d < -(HALF_TURN as int) {
        d + FULL_TURN
    } else {
        d
    }
}

/// `d * t / UNIT`, rounded toward zero.
pub open spec fn scale_signed(d: int, t: int) -> int {
    if d >= 0 {
        d * t / UNIT as int
    } else {
        -((-d) * t / UNIT as int)
    }
}

/// A hue moved into `[0, FULL_TURN)`.
pub open spec fn wrap_hue(x: int) -> int {
    x % FULL_TURN as int
}

/// The hue a fraction `t / UNIT` of the way from `h1` to `h2` along the shorter arc.
pub open spec fn hue_between(h1: int, h2: int, t: int) -> int {
    wrap_hue(h1 + scale_signed(shortest_delta(h1, h2), t))
}

pub open spec fn abs(x: int) -> int {
    if x < 0 { -x } else { x }
}

pub open spec fn min(a: int, b: int) -> int {
    if a < b { a } else { b }
}

pub open spec fn max(a: int, b: int) -> int {
    if a < b { b } else { a }
}

impl Color {
    /// Each component within its range.
    pub open spec fn wf(self) -> bool {
        match self {
            Color::RGB { .. } => true,
            Color::HSL { h, s, l } => h < FULL_TURN && s <= UNIT && l <= UNIT,
        }
    }

    pub open spec fn same_variant(self, other: Color) -> bool {
        (self is RGB && other is RGB) || (self is HSL && other is HSL)
    }

    /// The colour a fraction `t / UNIT` of the way from `a` to `b`, for `t` in `[0, UNIT]`.
    pub open spec fn spec_lerp(a: Color, b: Color, t: int) -> Color {
        match (a, b) {
            (Color::RGB { r: r1, g: g1, b: b1 }, Color::RGB { r: r2, g: g2, b: b2 }) => Color::RGB {
                r: lerp_value(r1 as int, r2 as int, t) as u8,
                g: lerp_value(g1 as int, g2 as int, t) as u8,
                b: lerp_value(b1 as int, b2 as int, t) as u8,
            },
            (Color::HSL { h: h1, s: s1, l: l1 }, Color::HSL { h: h2, s: s2, l: l2 }) => Color::HSL {
                h: hue_between(h1 as int, h2 as int, t) as u32,
                s: lerp_value(s1 as int, s2 as int, t) as u32,
                l: lerp_value(l1 as int, l2 as int, t) as u32,
            },
            _ => a,
        }
    }

    /// Whether each component is within its range.
    pub fn is_valid(&self) -> (r: bool)
        ensures
            r == self.wf(),
    {
        match self {
            Color::RGB { .. } => true,
            Color::HSL { h, s, l } => *h < FULL_TURN && *s <= UNIT && *l <= UNIT,
        }
    }

    /// Whether both colours are RGB or both are HSL.
    pub fn same_kind(&self, other: &Color) -> (r: bool)
        ensures
            r == self.same_variant(*other),
    {
        match (self, other) {
            (Color::RGB { .. }, Color::RGB { .. }) => true,
            (Color::HSL { .. }, Color::HSL { .. }) => true,
            _ => false,
        }
    }

    pub fn rgb(r: u8, g: u8, b: u8) -> (c: Self)
        ensures
            c == (Color::RGB { r, g, b }),
            c.wf(),
    {
        Color::RGB { r, g, b }
    }

    /// An HSL colour; the hue is wrapped into `[0, FULL_TURN)`, saturation and
    /// lightness above `UNIT` are refused.
    pub fn hsl(h: u32, s: u32, l: u32) -> (res: Result<Self, ConfigError>)
        ensures
            s > UNIT ==> res == Err::<Color, ConfigError>(ConfigError::SaturationOutOfRange),
            s <= UNIT && l > UNIT ==> res == Err::<Color, ConfigError>(ConfigError::LightnessOutOfRange),
            s <= UNIT && l <= UNIT ==> res == Ok::<Color, ConfigError>(
                Color::HSL { h: (h % FULL_TURN) as u32, s, l },
            ),
            res matches Ok(c) ==> c.wf(),
    {
        if s > UNIT {
            Err(ConfigError::SaturationOutOfRange)
        } else if l > UNIT {
            Err(ConfigError::LightnessOutOfRange)
        } else {
            Ok(Color::HSL { h: h % FULL_TURN, s, l })
        }
    }
}

/// Interpolates one fixed-point quantity; the result lies between the two ends.
fn lerp_u32(a: u32, b: u32, t: u32) -> (r: u32)
    requires
        a <= 1_000_000,
        b <= 1_000_000,
        t <= UNIT,
    ensures
        r == lerp_value(a as int, b as int, t as int),
        min(a as int, b as int) <= r <= max(a as int, b as int),
{
    let a64 = a as u64;
    let b64 = b as u64;
    let t64 = t as u64;
    proof {
        assert(a64 * (10000 - t64) <= 1_000_000 * 10000) by (nonlinear_arith)
            requires a64 <= 1_000_000, t64 <= 10000;
        assert(b64 * t64 <= 1_000_000 * 10000) by (nonlinear_arith)
            requires b64 <= 1_000_000, t64 <= 10000;
        lemma_lerp_between(a as int, b as int, t as int);
    }
    ((a64 * (10000 - t64) + b64 * t64) / 10000) as u32
}

proof fn lemma_lerp_between(a: int, b: int, t: int)
    requires
        0 <= a,
        0 <= b,
        0 <= t <= UNIT,
    ensures
        min(a, b) <= lerp_value(a, b, t) <= max(a, b),
{
    let lo = min(a, b);
    let hi = max(a, b);
    assert(a * (10000 - t) + b * t >= lo * 10000) by (nonlinear_arith)
        requires lo <= a, lo <= b, 0 <= t <= 10000;
    assert(a * (10000 - t) + b * t <= hi * 10000) by (nonlinear_arith)
        requires a <= hi, b <= hi, 0 <= t <= 10000;
    assert(lo * 10000 / 10000 == lo) by (nonlinear_arith);
    assert(hi * 10000 / 10000 == hi) by (nonlinear_arith);
    lemma_div_monotone(lo * 10000, a * (10000 - t) + b * t, 10000);
    lemma_div_monotone(a * (10000 - t) + b * t, hi * 10000, 10000);
}

proof fn lemma_div_monotone(x: int, y: int, d: int)
    requires
        0 <= x <= y,
        0 < d,
    ensures
        x / d <= y / d,
{
    vstd::arithmetic::div_mod::lemma_div_is_ordered(x, y, d);
}

/// The hue a fraction `ratio / UNIT` of the way from `h1` to `h2`, going
/// along the shorter of the two arcs between them.
pub fn lerp_hue(h1: u32, h2: u32, ratio: u32) -> (r: u32)
    requires
        h1 < FULL_TURN,
        h2 < FULL_TURN,
        ratio <= UNIT,
    ensures
        r == hue_between(h1 as int, h2 as int, ratio as int),
        r < FULL_TURN,
{
    let d: i64 = h2 as i64 - h1 as i64;
    let delta: i64 = if d > HALF_TURN as i64 {
        d - FULL_TURN as i64
    } else if d < -(HALF_TURN as i64) {
        d + FULL_TURN as i64
    } else {
        d
    };
    let step: i64 = if delta >= 0 {
        proof {
            assert(delta * ratio <= 18000 * 10000) by (nonlinear_arith)
                requires 0 <= delta <= 18000, ratio <= 10000;
            assert(delta * ratio / 10000 <= 18000) by (nonlinear_arith)
                requires 0 <= delta * ratio <= 18000 * 10000;
        }
        delta * ratio as i64 / UNIT as i64
    } else {
        proof {
            assert((-delta) * ratio <= 18000 * 10000) by (nonlinear_arith)
                requires 0 <= -delta <= 18000, ratio <= 10000;
            assert((-delta) * ratio / 10000 <= 18000) by (nonlinear_arith)
                requires 0 <= (-delta) * ratio <= 18000 * 10000;
        }
        -((-delta) * ratio as i64 / UNIT as i64)
    };
    let x: i64 = h1 as i64 + step;
    let wrapped: i64 = if x < 0 {
        x + FULL_TURN as i64
    } else if x >= FULL_TURN as i64 {
        x - FULL_TURN as i64
    } else {
        x
    };
    proof {
        assert(wrap_hue(x as int) == wrapped) by {
            if x < 0 {
                vstd::arithmetic::div_mod::lemma_fundamental_div_mod_converse(x as int, 36000, -1, wrapped as int);
            } else if x >= 36000 {
                vstd::arithmetic::div_mod::lemma_fundamental_div_mod_converse(x as int, 36000, 1, wrapped as int);
            } else {
                vstd::arithmetic::div_mod::lemma_small_mod(x as nat, 36000);
            }
        }
    }
    wrapped as u32
}

impl Color {
    /// Interpolates between two colours of the same kind; `ratio` is clamped
    /// to `[0, UNIT]` first. RGB channels are interpolated one by one and
    /// rounded down; for HSL, saturation and lightness are interpolated and the
    /// hue goes along the shorter arc.
    pub fn lerp(a: Self, b: Self, ratio: u32) -> (c: Self)
        requires
            a.same_variant(b),
            a.wf(),
            b.wf(),
        ensures
            c == Color::spec_lerp(a, b, clamp_ratio(ratio as int)),
            c.wf(),
            c.same_variant(a),
    {
        let t: u32 = if ratio > UNIT { UNIT } else { ratio };
        if a.is_rgb() {
            let (r1, g1, b1) = a.unwrap_rgb();
            let (r2, g2, b2) = b.unwrap_rgb();
            let r = lerp_u32(r1 as u32, r2 as u32, t);
            let g = lerp_u32(g1 as u32, g2 as u32, t);
            let bl = lerp_u32(b1 as u32, b2 as u32, t);
            Color::RGB { r: r as u8, g: g as u8, b: bl as u8 }
        } else {
            let (h1, s1, l1) = a.unwrap_hsl();
            let (h2, s2, l2) = b.unwrap_hsl();
            let h = lerp_hue(h1, h2, t);
            let s = lerp_u32(s1, s2, t);
            let l = lerp_u32(l1, l2, t);
            Color::HSL { h, s, l }
        }
    }

    pub fn is_rgb(&self) -> (r: bool)
        ensures
            r == (*self is RGB),
    {
        match self {
            Color::RGB { .. } => true,
            Color::HSL { .. } => false,
        }
    }

    /// The channels of an RGB colour.
    pub fn unwrap_rgb(self) -> (c: (u8, u8, u8))
        requires
            self is RGB,
        ensures
            self == (Color::RGB { r: c.0, g: c.1, b: c.2 }),
    {
        match self {
            Color::RGB { r, g, b } => (r, g, b),
            Color::HSL { .. } => vstd::pervasive::unreached(),
        }
    }

    /// The components of an HSL colour.
    pub fn unwrap_hsl(self) -> (c: (u32, u32, u32))
        requires
            self is HSL,
        ensures
            self == (Color::HSL { h: c.0, s: c.1, l: c.2 }),
    {
        match self {
            Color::HSL { h, s, l } => (h, s, l),
            Color::RGB { .. } => vstd::pervasive::unreached(),
        }
    }
}


/// The upper tone of a saturation and lightness pair, in parts of `UNIT * UNIT`.
pub open spec fn upper_tone(s: int, l: int) -> int {
    if 2 * l < UNIT { l * (UNIT + s) } else { (l + s) * UNIT - l * s }
}

/// The lower tone, mirrored around the lightness.
pub open spec fn lower_tone(s: int, l: int) -> int {
    2 * l * UNIT - upper_tone(s, l)
}

/// The intensity of a channel whose hue, shifted to that channel, is `hh`,
/// in parts of `SECTOR * UNIT * UNIT`.
pub open spec fn sector_intensity(t1: int, t2: int, hh: int) -> int {
    if hh < SECTOR {
        t2 * SECTOR + (t1 - t2) * hh
    } else if hh < 3 * SECTOR {
        t1 * SECTOR
    } else if hh < 4 * SECTOR {
        t2 * SECTOR + (t1 - t2) * (4 * SECTOR - hh)
    } else {
        t2 * SECTOR
    }
}

/// A channel value from its intensity, rounded down.
pub open spec fn channel_from(t1: int, t2: int, hh: int) -> int {
    sector_intensity(t1, t2, hh) * 255 / (SECTOR * UNIT * UNIT) as int
}

/// The RGB channels of an HSL colour.
pub open spec fn spec_hsl_to_rgb(h: int, s: int, l: int) -> (int, int, int) {
    if s == 0 {
        (l * 255 / UNIT as int, l * 255 / UNIT as int, l * 255 / UNIT as int)
    } else {
        let t1 = upper_tone(s, l);
        let t2 = lower_tone(s, l);
        (
            channel_from(t1, t2, (h + 2 * SECTOR) % FULL_TURN as int),
            channel_from(t1, t2, h),
            channel_from(t1, t2, (h + 4 * SECTOR) % FULL_TURN as int),
        )
    }
}

proof fn lemma_tones(s: int, l: int)
    requires
        0 <= s <= UNIT,
        0 <= l <= UNIT,
    ensures
        0 <= lower_tone(s, l) <= upper_tone(s, l) <= UNIT * UNIT,
{
    if 2 * l < UNIT {
        assert(0 <= 2 * l * 10000 - l * (10000 + s) <= l * (10000 + s) <= 10000 * 10000) by (nonlinear_arith)
            requires 0 <= s <= 10000, 0 <= l, 2 * l < 10000;
    } else {
        assert(0 <= 2 * l * 10000 - ((l + s) * 10000 - l * s) <= (l + s) * 10000 - l * s <= 10000 * 10000) by (nonlinear_arith)
            requires 0 <= s <= 10000, l <= 10000, 2 * l >= 10000;
    }
}

proof fn lemma_channel_bound(t1: int, t2: int, hh: int)
    requires
        0 <= t2 <= t1 <= UNIT * UNIT,
        0 <= hh < FULL_TURN,
    ensures
        0 <= sector_intensity(t1, t2, hh) <= SECTOR * UNIT * UNIT,
        0 <= channel_from(t1, t2, hh) <= 255,
{
    let v = sector_intensity(t1, t2, hh);
    if hh < 6000 {
        assert(0 <= t2 * 6000 + (t1 - t2) * hh <= t1 * 6000) by (nonlinear_arith)
            requires 0 <= t2 <= t1, 0 <= hh < 6000;
    } else if hh < 18000 {
    } else if hh < 24000 {
        assert(0 <= t2 * 6000 + (t1 - t2) * (24000 - hh) <= t1 * 6000) by (nonlinear_arith)
            requires 0 <= t2 <= t1, 18000 <= hh < 24000;
    } else {
        assert(t2 * 6000 <= t1 * 6000) by (nonlinear_arith)
            requires t2 <= t1;
    }
    assert(v <= 6000 * 10000 * 10000) by (nonlinear_arith)
        requires v <= t1 * 6000, t1 <= 10000 * 10000;
    lemma_div_monotone(v * 255, 6000 * 10000 * 10000 * 255int, 6000 * 10000 * 10000int);
    assert(6000 * 10000 * 10000 * 255int / (6000 * 10000 * 10000int) == 255);
}

/// One channel of an HSL colour, from the two tones and the hue shifted to it.
fn channel(t1: u64, t2: u64, hh: u32) -> (v: u8)
    requires
        t2 <= t1 <= UNIT * UNIT,
        hh < FULL_TURN,
    ensures
        v == channel_from(t1 as int, t2 as int, hh as int),
{
    proof {
        lemma_channel_bound(t1 as int, t2 as int, hh as int);
    }
    let hh64 = hh as u64;
    let intensity: u64 = if hh < SECTOR {
        proof {
            assert((t1 - t2) * hh64 <= 10000 * 10000 * 6000) by (nonlinear_arith)
                requires t2 <= t1 <= 10000 * 10000, hh64 < 6000;
        }
        t2 * 6000 + (t1 - t2) * hh64
    } else if hh < 3 * SECTOR {
        t1 * 6000
    } else if hh < 4 * SECTOR {
        proof {
            assert((t1 - t2) * (24000 - hh64) <= 10000 * 10000 * 6000) by (nonlinear_arith)
                requires t2 <= t1 <= 10000 * 10000, 18000 <= hh64 < 24000;
        }
        t2 * 6000 + (t1 - t2) * (24000 - hh64)
    } else {
        t2 * 6000
    };
    (intensity * 255 / 600_000_000_000) as u8
}

/// Converts hue, saturation and lightness to red, green and blue.
pub fn hsl_to_rgb(hsl: (u32, u32, u32)) -> (rgb: (u8, u8, u8))
    requires
        hsl.0 < FULL_TURN,
        hsl.1 <= UNIT,
        hsl.2 <= UNIT,
    ensures
        spec_hsl_to_rgb(hsl.0 as int, hsl.1 as int, hsl.2 as int) == (
            rgb.0 as int,
            rgb.1 as int,
            rgb.2 as int,
        ),
{
    let (h, s, l) = hsl;
    if s == 0 {
        proof {
            lemma_div_monotone(l * 255, 10000 * 255int, 10000int);
        }
        let v = (l as u64 * 255 / 10000) as u8;
        return (v, v, v);
    }
    let s64 = s as u64;
    let l64 = l as u64;
    proof {
        lemma_tones(s as int, l as int);
        assert(l64 * s64 <= (l64 + s64) * 10000) by (nonlinear_arith)
            requires l64 <= 10000;
    }
    let t1: u64 = if 2 * l < UNIT {
        l64 * (10000 + s64)
    } else {
        (l64 + s64) * 10000 - l64 * s64
    };
    let t2: u64 = 2 * l64 * 10000 - t1;
    let r = channel(t1, t2, (h + 2 * SECTOR) % FULL_TURN);
    let g = channel(t1, t2, h);
    let b = channel(t1, t2, (h + 4 * SECTOR) % FULL_TURN);
    (r, g, b)
}


/// A hue `base` moved by a sixth of a turn times `(p - q) / d`, wrapped.
pub open spec fn sector_hue(base: int, p: int, q: int, d: int) -> int {
    if p >= q {
        wrap_hue(base + SECTOR * (p - q) / d)
    } else {
        wrap_hue(base - SECTOR * (q - p) / d)
    }
}

/// Hue, saturation and lightness of an RGB colour: the lightness is the mean
/// of the largest and smallest channel, the saturation their spread, and the
/// hue is found from the largest channel.
pub open spec fn spec_rgb_to_hsl(r: int, g: int, b: int) -> (int, int, int) {
    let mn = min(min(r, g), b);
    let mx = max(max(r, g), b);
    let d = mx - mn;
    let l = (mx + mn) * UNIT / 510;
    let s = if d == 0 {
        0
    } else if mx + mn < 255 {
        d * UNIT / (mx + mn)
    } else {
        d * UNIT / (510 - mx - mn)
    };
    let h = if d == 0 {
        0
    } else if mx == r {
        sector_hue(0, g, b, d)
    } else if mx == g {
        sector_hue(2 * SECTOR, b, r, d)
    } else {
        sector_hue(4 * SECTOR, r, g, d)
    };
    (h, s, l)
}

fn hue_in_sector(base: u32, p: u8, q: u8, d: u8) -> (h: u32)
    requires
        base <= 4 * SECTOR,
        p <= q + d,
        q <= p + d,
        d > 0,
    ensures
        h == sector_hue(base as int, p as int, q as int, d as int),
        h < FULL_TURN,
{
    let d32 = d as u32;
    if p >= q {
        let k = (p - q) as u32;
        proof {
            lemma_div_monotone(6000 * k, 6000 * d32, d32 as int);
            assert(6000 * d32 / d32 as int == 6000) by (nonlinear_arith) requires d32 > 0;
        }
        let h = base + 6000 * k / d32;
        proof {
            vstd::arithmetic::div_mod::lemma_small_mod(h as nat, 36000);
        }
        h
    } else {
        let k = (q - p) as u32;
        proof {
            lemma_div_monotone(6000 * k, 6000 * d32, d32 as int);
            assert(6000 * d32 / d32 as int == 6000) by (nonlinear_arith) requires d32 > 0;
        }
        let x = 6000 * k / d32;
        let v = base + 36000 - x;
        let h = if v >= 36000 { v - 36000 } else { v };
        proof {
            let shifted = base as int - x as int;
            if v >= 36000 {
                vstd::arithmetic::div_mod::lemma_fundamental_div_mod_converse(shifted, 36000, 0, h as int);
            } else {
                vstd::arithmetic::div_mod::lemma_fundamental_div_mod_converse(shifted, 36000, -1, h as int);
            }
        }
        h
    }
}

/// Converts red, green and blue to hue, saturation and lightness.
pub fn rgb_to_hsl(rgb: (u8, u8, u8)) -> (hsl: (u32, u32, u32))
    ensures
        spec_rgb_to_hsl(rgb.0 as int, rgb.1 as int, rgb.2 as int) == (
            hsl.0 as int,
            hsl.1 as int,
            hsl.2 as int,
        ),
        hsl.0 < FULL_TURN,
        hsl.1 <= UNIT,
        hsl.2 <= UNIT,
{
    let (r, g, b) = rgb;
    let mn: u8 = if r < g { r } else { g };
    let mn: u8 = if mn < b { mn } else { b };
    let mx: u8 = if r < g { g } else { r };
    let mx: u8 = if mx < b { b } else { mx };
    let d: u8 = mx - mn;
    let sum = mx as u32 + mn as u32;
    let diff = d as u32;
    proof {
        lemma_div_monotone(sum * 10000, 510 * 10000int, 510);
    }
    let l: u32 = sum * 10000 / 510;
    let s: u32 = if d == 0 {
        0
    } else if sum < 255 {
        proof {
            lemma_div_monotone(diff * 10000, sum * 10000, sum as int);
            assert(sum * 10000 / sum as int == 10000) by (nonlinear_arith) requires sum > 0;
        }
        diff * 10000 / sum
    } else {
        proof {
            lemma_div_monotone(diff * 10000, (510 - sum) * 10000, 510 - sum);
            assert((510 - sum) * 10000 / (510 - sum) == 10000) by (nonlinear_arith) requires 510 - sum > 0;
        }
        diff * 10000 / (510 - sum)
    };
    let h: u32 = if d == 0 {
        0
    } else if mx == r {
        hue_in_sector(0, g, b, d)
    } else if mx == g {
        hue_in_sector(2 * SECTOR, b, r, d)
    } else {
        hue_in_sector(4 * SECTOR, r, g, d)
    };
    (h, s, l)
}

impl Color {
    /// The same colour as RGB; an RGB colour is returned unchanged.
    pub fn to_rgb(self) -> (c: Self)
        requires
            self.wf(),
        ensures
            c is RGB,
            self is RGB ==> c == self,
            self matches Color::HSL { h, s, l } ==> {
                let (r, g, b) = spec_hsl_to_rgb(h as int, s as int, l as int);
                c == (Color::RGB { r: r as u8, g: g as u8, b: b as u8 })
            },
    {
        match self {
            Color::RGB { .. } => self,
            Color::HSL { h, s, l } => {
                let (r, g, b) = hsl_to_rgb((h, s, l));
                Color::rgb(r, g, b)
            },
        }
    }

    /// The same colour as HSL; an HSL colour is returned unchanged.
    pub fn to_hsl(self) -> (c: Self)
        requires
            self.wf(),
        ensures
            c is HSL,
            c.wf(),
            self is HSL ==> c == self,
            self matches Color::RGB { r, g, b } ==> {
                let (h, s, l) = spec_rgb_to_hsl(r as int, g as int, b as int);
                c == (Color::HSL { h: h as u32, s: s as u32, l: l as u32 })
            },
    {
        match self {
            Color::RGB { r, g, b } => {
                let (h, s, l) = rgb_to_hsl((r, g, b));
                Color::HSL { h, s, l }
            },
            Color::HSL { .. } => self,
        }
    }
}


/// Hue interpolation stays on the circle and goes the shorter way round: the
/// result lies in `[0, FULL_TURN)`; the arc taken from `h1` has length
/// `min(|h2 - h1|, FULL_TURN - |h2 - h1|)` and ends at `h2`; no step along it
/// is longer than the arc; ratio zero gives `h1` and ratio `UNIT` gives `h2`.
pub proof fn lemma_hue_shorter_arc(h1: int, h2: int, t: int)
    requires
        0 <= h1 < FULL_TURN,
        0 <= h2 < FULL_TURN,
        0 <= t <= UNIT,
    ensures
        0 <= hue_between(h1, h2, t) < FULL_TURN,
        abs(shortest_delta(h1, h2)) == min(abs(h2 - h1), FULL_TURN - abs(h2 - h1)),
        wrap_hue(h1 + shortest_delta(h1, h2)) == h2,
        abs(scale_signed(shortest_delta(h1, h2), t)) <= abs(shortest_delta(h1, h2)),
        hue_between(h1, h2, 0) == h1,
        hue_between(h1, h2, UNIT as int) == h2,
{
    let d = shortest_delta(h1, h2);
    let x = h1 + scale_signed(d, t);
    vstd::arithmetic::div_mod::lemma_mod_bound(x, 36000);
    if d >= 0 {
        assert(d * t <= d * 10000) by (nonlinear_arith) requires d >= 0, t <= 10000;
        assert(d * 10000 / 10000 == d) by (nonlinear_arith);
        assert(d * 0 / 10000 == 0) by (nonlinear_arith);
        assert(d * t >= 0) by (nonlinear_arith) requires d >= 0, t >= 0;
        vstd::arithmetic::div_mod::lemma_div_pos_is_pos(d * t, 10000);
        lemma_div_monotone(d * t, d * 10000, 10000);
    } else {
        assert((-d) * t <= (-d) * 10000) by (nonlinear_arith) requires d < 0, t <= 10000;
        assert((-d) * 10000 / 10000 == -d) by (nonlinear_arith);
        assert((-d) * 0 / 10000 == 0) by (nonlinear_arith);
        assert((-d) * t >= 0) by (nonlinear_arith) requires d < 0, t >= 0;
        vstd::arithmetic::div_mod::lemma_div_pos_is_pos((-d) * t, 10000);
        lemma_div_monotone((-d) * t, (-d) * 10000, 10000);
    }
    assert(scale_signed(d, 0) == 0);
    assert(scale_signed(d, 10000) == d);
    vstd::arithmetic::div_mod::lemma_small_mod(h1 as nat, 36000);
    let e = h1 + d;
    if e < 0 {
        vstd::arithmetic::div_mod::lemma_fundamental_div_mod_converse(e, 36000, -1, h2);
    } else if e >= 36000 {
        vstd::arithmetic::div_mod::lemma_fundamental_div_mod_converse(e, 36000, 1, h2);
    } else {
        vstd::arithmetic::div_mod::lemma_small_mod(e as nat, 36000);
    }
}

/// Ratio zero gives the first colour and ratio `UNIT` the second, exactly.
pub proof fn lemma_lerp_ends(a: Color, b: Color)
    requires
        a.wf(),
        b.wf(),
        a.same_variant(b),
    ensures
        Color::spec_lerp(a, b, 0) == a,
        Color::spec_lerp(a, b, UNIT as int) == b,
{
    assert forall|x: int, y: int| lerp_value(x, y, 0) == x && lerp_value(x, y, UNIT as int) == y by {
        assert((x * 10000 + y * 0) / 10000 == x) by (nonlinear_arith);
        assert((x * 0 + y * 10000) / 10000 == y) by (nonlinear_arith);
    }
    if let (Color::HSL { h: h1, .. }, Color::HSL { h: h2, .. }) = (a, b) {
        lemma_hue_shorter_arc(h1 as int, h2 as int, 0);
    }
}


/// A grey (all three channels equal) comes back from the round trip through
/// HSL as a grey, at most one step darker.
pub proof fn lemma_grey_round_trip(v: int)
    requires
        0 <= v <= 255,
    ensures
        ({
            let hsl = spec_rgb_to_hsl(v, v, v);
            let rgb = spec_hsl_to_rgb(hsl.0, hsl.1, hsl.2);
            &&& hsl.1 == 0
            &&& rgb.0 == rgb.1 == rgb.2
            &&& v - 1 <= rgb.0 <= v
        }),
{
    let l = (v + v) * 10000 / 510;
    vstd::arithmetic::div_mod::lemma_fundamental_div_mod((v + v) * 10000, 510);
    let m = (v + v) * 10000 % 510;
    assert(0 <= m < 510) by {
        vstd::arithmetic::div_mod::lemma_mod_bound((v + v) * 10000, 510);
    }
    let back = l * 255 / 10000;
    vstd::arithmetic::div_mod::lemma_fundamental_div_mod(l * 255, 10000);
    vstd::arithmetic::div_mod::lemma_mod_bound(l * 255, 10000);
    assert(v - 1 <= back <= v) by (nonlinear_arith)
        requires
            (v + v) * 10000 == 510 * l + m,
            0 <= m < 510,
            l * 255 == 10000 * back + l * 255 % 10000,
            0 <= l * 255 % 10000 < 10000;
}

} // verus!
