//! The difficulty-driven settings of a level: grid size, gradient,
//! locking pattern and shuffle seed.

use vstd::prelude::*;
use crate::chance::{random_below, random_seed, weight_sum, weighted_pick};
use crate::color::{Color, FULL_TURN, UNIT, spec_hsl_to_rgb};
use crate::gradient::{Gradient, Position, bilinear};

verus! {

/// The shorter side of the grid at the lowest difficulty.
pub const MIN_CELLS: usize = 5;

/// The widest spread of hues, in hundredths of a degree.
pub const MAX_HUE_VARIANCE: u32 = 30000;

/// The narrowest spread of hues, in hundredths of a degree.
pub const MIN_HUE_VARIANCE: u32 = 9000;

/// Which cells of a grid are locked in place.
#[derive(Debug, Clone, Copy, PartialEq, Eq, Structural)]
pub enum LockingPattern {
    Corners,
    Borders,
    ReverseBorders,
    CheckerboardA,
    CheckerboardB,
    HalfCheckerboardA,
    HalfCheckerboardB,
    ShortLinesA,
    ShortLinesB,
    LongLinesA,
    LongLinesB,
}

/// Whether the cell `(x, y)` of a `w` by `h` grid is locked under `p`.
pub open spec fn spec_locked(p: LockingPattern, w: int, h: int, x: int, y: int) -> bool {
    let corner = (x == 0 || x == w - 1) && (y == 0 || y == h - 1);
    let border = x == 0 || x == w - 1 || y == 0 || y == h - 1;
    let checkered = (x + y) % 2 == 0;
    let short_lines = (if w > h { x } else { y }) % 2 == 0;
    let long_lines = (if w < h { x } else { y }) % 2 == 0;
    match p {
        LockingPattern::Corners => corner,
        LockingPattern::Borders => border,
        LockingPattern::ReverseBorders => !border,
        LockingPattern::CheckerboardA => checkered,
        LockingPattern::CheckerboardB => !checkered,
        LockingPattern::HalfCheckerboardA => x % 2 == 0 && y % 2 == 0,
        LockingPattern::HalfCheckerboardB => x % 2 != 0 && y % 2 != 0,
        LockingPattern::ShortLinesA => short_lines,
        LockingPattern::ShortLinesB => !short_lines,
        LockingPattern::LongLinesA => long_lines,
        LockingPattern::LongLinesB => !long_lines,
    }
}

/// The patterns in the order of the selection table.
pub open spec fn spec_pattern_at(i: int) -> LockingPattern {
    if i == 0 {
        LockingPattern::Corners
    } else if i == 1 {
        LockingPattern::Borders
    } else if i == 2 {
        LockingPattern::HalfCheckerboardA
    } else if i == 3 {
        LockingPattern::HalfCheckerboardB
    } else if i == 4 {
        LockingPattern::ShortLinesA
    } else if i == 5 {
        LockingPattern::ShortLinesB
    } else if i == 6 {
        LockingPattern::LongLinesA
    } else if i == 7 {
        LockingPattern::LongLinesB
    } else if i == 8 {
        LockingPattern::CheckerboardA
    } else if i == 9 {
        LockingPattern::CheckerboardB
    } else {
        LockingPattern::ReverseBorders
    }
}

/// The selection weights: easier patterns are picked more often.
pub open spec fn spec_pattern_weights() -> Seq<usize> {
    seq![1, 2, 5, 5, 6, 6, 7, 7, 7, 7, 2]
}

/// The selection weights, in the order of `spec_pattern_at`.
pub fn pattern_weights() -> (r: Vec<usize>)
    ensures
        r@ == spec_pattern_weights(),
{
    let r: Vec<usize> = vec![1, 2, 5, 5, 6, 6, 7, 7, 7, 7, 2];
    assert(r@ =~= spec_pattern_weights());
    r
}

/// The pattern at index `i` of the selection table.
pub fn pattern_at(i: usize) -> (p: LockingPattern)
    requires
        i < 11,
    ensures
        p == spec_pattern_at(i as int),
{
    match i {
        0 => LockingPattern::Corners,
        1 => LockingPattern::Borders,
        2 => LockingPattern::HalfCheckerboardA,
        3 => LockingPattern::HalfCheckerboardB,
        4 => LockingPattern::ShortLinesA,
        5 => LockingPattern::ShortLinesB,
        6 => LockingPattern::LongLinesA,
        7 => LockingPattern::LongLinesB,
        8 => LockingPattern::CheckerboardA,
        9 => LockingPattern::CheckerboardB,
        _ => LockingPattern::ReverseBorders,
    }
}

/// Picks a locking pattern at random by the fixed weights; the difficulty
/// does not change them.
pub fn generate_locking_pattern(_difficulty: usize) -> (p: LockingPattern)
    ensures
        exists|i: int| 0 <= i < 11 && spec_pattern_weights()[i] > 0 && p == spec_pattern_at(i),
{
    let weights = pattern_weights();
    proof {
        reveal_with_fuel(weight_sum, 12);
        assert(weight_sum(weights@) == 55);
    }
    let i = weighted_pick(&weights);
    pattern_at(i)
}

/// The grid size for a shorter side of `MIN_CELLS + growth` cells: the
/// longer side keeps the viewport's aspect ratio (rounded, at least 2), and
/// the shorter side lies along the viewport's shorter side.
pub open spec fn spec_puzzle_size(growth: int, win_width: int, win_height: int) -> (int, int) {
    let short = MIN_CELLS + growth;
    let mx = if win_width < win_height { win_height } else { win_width };
    let mn = if win_width < win_height { win_width } else { win_height };
    let rounded = (2 * short * mx + mn) / (2 * mn);
    let long = if rounded < 2 { 2 } else { rounded };
    if win_width < win_height {
        (short, long)
    } else {
        (long, short)
    }
}

/// The shorter of two sides.
pub open spec fn shorter_side(w: int, h: int) -> int {
    if w < h { w } else { h }
}

/// Grid dimensions from the growth of the shorter side over `MIN_CELLS`
/// (`floor(log4(difficulty)^2)`) and the viewport size.
pub fn generate_puzzle_size(growth: usize, win_size: (usize, usize)) -> (r: (usize, usize))
    requires
        win_size.0 >= 1,
        win_size.1 >= 1,
        2 * (MIN_CELLS + growth) * (win_size.0 + win_size.1) <= usize::MAX,
    ensures
        (r.0 as int, r.1 as int) == spec_puzzle_size(growth as int, win_size.0 as int, win_size.1 as int),
        r.0 >= 2,
        r.1 >= 2,
        win_size.0 < win_size.1 ==> r.0 == MIN_CELLS + growth && r.1 >= r.0,
        win_size.0 >= win_size.1 ==> r.1 == MIN_CELLS + growth && r.0 >= r.1,
{
    let (win_width, win_height) = win_size;
    proof {
        let k = MIN_CELLS + growth;
        assert(k <= 2 * k * (win_width + win_height)) by (nonlinear_arith)
            requires k >= 0, win_width + win_height >= 2;
    }
    let short = MIN_CELLS + growth;
    let mx = if win_width < win_height { win_height } else { win_width };
    let mn = if win_width < win_height { win_width } else { win_height };
    proof {
        assert(2 * short * mx <= 2 * short * (win_width + win_height) - 2 * short * mn) by (nonlinear_arith)
            requires mx + mn == win_width + win_height, short >= 0;
        assert(2 * short <= 2 * short * (win_width + win_height)) by (nonlinear_arith)
            requires short >= 0, win_width + win_height >= 1;
        assert(2 * short * mx <= 2 * short * (win_width + win_height)) by (nonlinear_arith)
            requires short >= 0, mx <= win_width + win_height;
        assert(mn <= 2 * short * mn) by (nonlinear_arith)
            requires short >= 1, mn >= 0;
        assert(2 * mn <= 2 * short * (win_width + win_height)) by (nonlinear_arith)
            requires mn <= win_width + win_height, short >= 1;
    }
    proof {
        assert(2 * short * mx + mn >= short * (2 * mn)) by (nonlinear_arith)
            requires mx >= mn, short >= 0, mn >= 0;
        vstd::arithmetic::div_mod::lemma_div_is_ordered(short * (2 * mn), 2 * short * mx + mn, 2 * mn);
        vstd::arithmetic::div_mod::lemma_div_by_multiple(short as int, 2 * mn);
    }
    let rounded = (2 * short * mx + mn) / (2 * mn);
    let long = if rounded < 2 { 2 } else { rounded };
    if win_width < win_height {
        (short, long)
    } else {
        (long, short)
    }
}


proof fn lemma_fraction_of_unit(x: int, d: int)
    requires
        0 <= x <= d,
        d >= 1,
    ensures
        0 <= x * UNIT / d <= UNIT,
{
    assert(x * 10000 <= d * 10000) by (nonlinear_arith)
        requires x <= d;
    vstd::arithmetic::div_mod::lemma_div_is_ordered(x * 10000, d * 10000, d);
    vstd::arithmetic::div_mod::lemma_div_by_multiple(10000, d);
    assert(d * 10000 == 10000 * d) by (nonlinear_arith);
    vstd::arithmetic::div_mod::lemma_div_pos_is_pos(x * 10000, d);
}

/// Saturation and lightness of one corner of the gradient, in parts of `UNIT`.
#[derive(Debug, Clone, Copy, PartialEq, Eq, Structural)]
pub struct Tone {
    pub saturation: u32,
    pub lightness: u32,
}

impl Tone {
    pub open spec fn wf(self) -> bool {
        self.saturation <= UNIT && self.lightness <= UNIT
    }
}

/// How far apart, in hundredths of a degree, the gradient's hues spread at
/// a difficulty: narrower as the difficulty grows, never below the minimum.
pub open spec fn spec_hue_variance(difficulty: int) -> int {
    let v = MAX_HUE_VARIANCE - (difficulty - 1) * 100;
    if v < MIN_HUE_VARIANCE { MIN_HUE_VARIANCE as int } else { v }
}

/// The RGB colour of the HSL colour with hue `h` (wrapped) and tone `t`.
pub open spec fn corner_color(h: int, t: Tone) -> Color {
    let c = spec_hsl_to_rgb(h % FULL_TURN as int, t.saturation as int, t.lightness as int);
    Color::RGB { r: c.0 as u8, g: c.1 as u8, b: c.2 as u8 }
}

/// The corner colours (top left, top right, bottom left, bottom right) of
/// the gradient for a difficulty, a starting hue and four tones. Going
/// clockwise from the top left, each corner's hue is a quarter of the hue
/// variance past the previous one; `tones` follows that clockwise order.
pub open spec fn spec_gradient_colors(difficulty: int, start_hue: int, tones: Seq<Tone>) -> (Color, Color, Color, Color) {
    let q = spec_hue_variance(difficulty) / 4;
    (
        corner_color(start_hue, tones[0]),
        corner_color(start_hue + q, tones[1]),
        corner_color(start_hue + 3 * q, tones[3]),
        corner_color(start_hue + 2 * q, tones[2]),
    )
}

/// The hue spread at a difficulty, in hundredths of a degree.
pub fn hue_variance(difficulty: usize) -> (v: u32)
    requires
        difficulty >= 1,
    ensures
        v == spec_hue_variance(difficulty as int),
        MIN_HUE_VARIANCE <= v <= MAX_HUE_VARIANCE,
{
    if difficulty - 1 >= 210 {
        MIN_HUE_VARIANCE
    } else {
        let v = MAX_HUE_VARIANCE - (difficulty - 1) as u32 * 100;
        if v < MIN_HUE_VARIANCE { MIN_HUE_VARIANCE } else { v }
    }
}

/// One corner: an HSL colour with hue `h` and tone `t`, turned into RGB.
fn corner(h: u32, t: Tone) -> (c: Color)
    requires
        t.wf(),
    ensures
        c == corner_color(h as int, t),
        c.wf(),
{
    match Color::hsl(h, t.saturation, t.lightness) {
        Ok(c) => c.to_rgb(),
        Err(_) => vstd::pervasive::unreached(),
    }
}

/// The gradient of a level: four hues spread evenly over the hue variance
/// from `start_hue`, each with its tone, converted to RGB.
pub fn generate_gradient(difficulty: usize, start_hue: u32, tones: [Tone; 4]) -> (g: Gradient)
    requires
        difficulty >= 1,
        start_hue < FULL_TURN,
        forall|i: int| 0 <= i < 4 ==> (#[trigger] tones@[i]).wf(),
    ensures
        g.colors() == spec_gradient_colors(difficulty as int, start_hue as int, tones@),
        g.uniform(),
{
    let diff = hue_variance(difficulty) / 4;
    let top_left = corner(start_hue, tones[0]);
    let top_right = corner(start_hue + diff, tones[1]);
    let bottom_right = corner(start_hue + diff * 2, tones[2]);
    let bottom_left = corner(start_hue + diff * 3, tones[3]);
    let built = Gradient::builder()
        .top_left(top_left)
        .top_right(top_right)
        .bottom_left(bottom_left)
        .bottom_right(bottom_right)
        .build();
    match built {
        Ok(g) => g,
        Err(_) => vstd::pervasive::unreached(),
    }
}

/// Everything a level is generated from.
#[derive(Debug, Clone, Copy, PartialEq, Eq, Structural)]
pub struct PuzzleSettings {
    difficulty: usize,
    width: usize,
    height: usize,
    gradient: Gradient,
    locking_pattern: LockingPattern,
    shuffle_seed: u64,
}

impl PuzzleSettings {
    pub closed spec fn spec_difficulty(self) -> int {
        self.difficulty as int
    }

    pub closed spec fn spec_width(self) -> int {
        self.width as int
    }

    pub closed spec fn spec_height(self) -> int {
        self.height as int
    }

    pub closed spec fn spec_gradient(self) -> Gradient {
        self.gradient
    }

    pub closed spec fn spec_locking_pattern(self) -> LockingPattern {
        self.locking_pattern
    }

    pub closed spec fn spec_shuffle_seed(self) -> u64 {
        self.shuffle_seed
    }

    /// A difficulty of at least 1, a grid of at least 2 by 2 whose cell
    /// count fits a `usize`, and a gradient of one kind of colour.
    pub open spec fn wf(self) -> bool {
        &&& self.spec_difficulty() >= 1
        &&& self.spec_width() >= 2
        &&& self.spec_height() >= 2
        &&& self.spec_width() * self.spec_height() <= usize::MAX
        &&& self.spec_gradient().uniform()
    }

    /// The same settings with another shuffle seed.
    pub open spec fn reseeded(self, other: PuzzleSettings) -> bool {
        &&& other.spec_difficulty() == self.spec_difficulty()
        &&& other.spec_width() == self.spec_width()
        &&& other.spec_height() == self.spec_height()
        &&& other.spec_gradient() == self.spec_gradient()
        &&& other.spec_locking_pattern() == self.spec_locking_pattern()
    }

    /// Settings from their parts, or `None` where they do not form valid settings.
    pub fn from_parts(
        difficulty: usize,
        width: usize,
        height: usize,
        gradient: Gradient,
        locking_pattern: LockingPattern,
        shuffle_seed: u64,
    ) -> (r: Option<Self>)
        ensures
            r is Some <==> (difficulty >= 1 && width >= 2 && height >= 2 && width * height <= usize::MAX
                && gradient.uniform()),
            r matches Some(s) ==> {
                &&& s.spec_difficulty() == difficulty
                &&& s.spec_width() == width
                &&& s.spec_height() == height
                &&& s.spec_gradient() == gradient
                &&& s.spec_locking_pattern() == locking_pattern
                &&& s.spec_shuffle_seed() == shuffle_seed
            },
    {
        let c = gradient.corner_colors();
        let uniform = c.0.is_valid() && c.1.is_valid() && c.2.is_valid() && c.3.is_valid()
            && c.0.same_kind(&c.1) && c.0.same_kind(&c.2) && c.0.same_kind(&c.3);
        if difficulty < 1 || width < 2 || height < 2 || !uniform {
            return None;
        }
        if width > usize::MAX / height {
            proof {
                vstd::arithmetic::div_mod::lemma_fundamental_div_mod(usize::MAX as int, height as int);
                assert(width * height > usize::MAX) by (nonlinear_arith)
                    requires width >= usize::MAX / height + 1, height >= 1,
                        usize::MAX == height * (usize::MAX / height) + usize::MAX % height,
                        usize::MAX % height < height;
            }
            return None;
        }
        proof {
            assert(width * height <= usize::MAX) by (nonlinear_arith)
                requires width <= usize::MAX / height, height >= 1;
        }
        Some(PuzzleSettings { difficulty, width, height, gradient, locking_pattern, shuffle_seed })
    }

    /// The settings of a level from every value that goes into them: the
    /// growth of the shorter side, the viewport, the first hue, the four
    /// tones, the locking pattern and the shuffle seed.
    pub fn from_draws(
        difficulty: usize,
        growth: usize,
        win_size: (usize, usize),
        start_hue: u32,
        tones: [Tone; 4],
        locking_pattern: LockingPattern,
        shuffle_seed: u64,
    ) -> (s: Self)
        requires
            difficulty >= 1,
            win_size.0 >= 1,
            win_size.1 >= 1,
            2 * (MIN_CELLS + growth) * (win_size.0 + win_size.1) <= usize::MAX,
            spec_puzzle_size(growth as int, win_size.0 as int, win_size.1 as int).0
                * spec_puzzle_size(growth as int, win_size.0 as int, win_size.1 as int).1 <= usize::MAX,
            start_hue < FULL_TURN,
            forall|i: int| 0 <= i < 4 ==> (#[trigger] tones@[i]).wf(),
        ensures
            s.wf(),
            s.spec_difficulty() == difficulty,
            (s.spec_width(), s.spec_height()) == spec_puzzle_size(growth as int, win_size.0 as int, win_size.1 as int),
            shorter_side(s.spec_width(), s.spec_height()) == MIN_CELLS + growth,
            s.spec_gradient().colors() == spec_gradient_colors(difficulty as int, start_hue as int, tones@),
            s.spec_locking_pattern() == locking_pattern,
            s.spec_shuffle_seed() == shuffle_seed,
    {
        let (width, height) = generate_puzzle_size(growth, win_size);
        let gradient = generate_gradient(difficulty, start_hue, tones);
        PuzzleSettings { difficulty, width, height, gradient, locking_pattern, shuffle_seed }
    }

    /// The settings of a new level: the first hue, the locking pattern and
    /// the shuffle seed are drawn at random, the rest is as in `from_draws`.
    pub fn from_difficulty(difficulty: usize, growth: usize, win_size: (usize, usize), tones: [Tone; 4]) -> (s: Self)
        requires
            difficulty >= 1,
            win_size.0 >= 1,
            win_size.1 >= 1,
            2 * (MIN_CELLS + growth) * (win_size.0 + win_size.1) <= usize::MAX,
            spec_puzzle_size(growth as int, win_size.0 as int, win_size.1 as int).0
                * spec_puzzle_size(growth as int, win_size.0 as int, win_size.1 as int).1 <= usize::MAX,
            forall|i: int| 0 <= i < 4 ==> (#[trigger] tones@[i]).wf(),
        ensures
            s.wf(),
            s.spec_difficulty() == difficulty,
            (s.spec_width(), s.spec_height()) == spec_puzzle_size(growth as int, win_size.0 as int, win_size.1 as int),
            shorter_side(s.spec_width(), s.spec_height()) == MIN_CELLS + growth,
            exists|h: int| 0 <= h < FULL_TURN
                && s.spec_gradient().colors() == #[trigger] spec_gradient_colors(difficulty as int, h, tones@),
            exists|i: int| 0 <= i < 11 && s.spec_locking_pattern() == #[trigger] spec_pattern_at(i),
    {
        let start_hue = random_below(FULL_TURN);
        let locking_pattern = generate_locking_pattern(difficulty);
        let shuffle_seed = random_seed();
        Self::from_draws(difficulty, growth, win_size, start_hue, tones, locking_pattern, shuffle_seed)
    }

    /// Whether the cell `(x, y)` is locked under this level's pattern.
    pub fn is_cell_locked(&self, x: usize, y: usize) -> (r: bool)
        requires
            x < self.spec_width(),
            y < self.spec_height(),
        ensures
            r == spec_locked(self.spec_locking_pattern(), self.spec_width(), self.spec_height(), x as int, y as int),
    {
        let w = self.width;
        let h = self.height;
        let is_corner = (x == 0 || x == w - 1) && (y == 0 || y == h - 1);
        let is_border = x == 0 || x == w - 1 || y == 0 || y == h - 1;
        let is_checkerboard = (x % 2 == 0) == (y % 2 == 0);
        let is_shortlines = (if w > h { x } else { y }) % 2 == 0;
        let is_longlines = (if w < h { x } else { y }) % 2 == 0;
        proof {
            assert(((x + y) % 2 == 0) == ((x % 2 == 0) == (y % 2 == 0))) by (nonlinear_arith);
        }
        match self.locking_pattern {
            LockingPattern::Corners => is_corner,
            LockingPattern::Borders => is_border,
            LockingPattern::ReverseBorders => !is_border,
            LockingPattern::CheckerboardA => is_checkerboard,
            LockingPattern::CheckerboardB => !is_checkerboard,
            LockingPattern::HalfCheckerboardA => x % 2 == 0 && y % 2 == 0,
            LockingPattern::HalfCheckerboardB => x % 2 != 0 && y % 2 != 0,
            LockingPattern::ShortLinesA => is_shortlines,
            LockingPattern::ShortLinesB => !is_shortlines,
            LockingPattern::LongLinesA => is_longlines,
            LockingPattern::LongLinesB => !is_longlines,
        }
    }

    /// The gradient's colour at the cell `(x, y)`: the cell's place in the
    /// grid, scaled to the unit square.
    pub fn get_cell_color(&self, x: usize, y: usize) -> (c: Color)
        requires
            self.wf(),
            x < self.spec_width(),
            y < self.spec_height(),
        ensures
            c == bilinear(
                self.spec_gradient().colors(),
                x * UNIT / (self.spec_width() - 1),
                y * UNIT / (self.spec_height() - 1),
            ),
            c.wf(),
    {
        let x_off = x as u128 * 10000 / (self.width - 1) as u128;
        let y_off = y as u128 * 10000 / (self.height - 1) as u128;
        proof {
            lemma_fraction_of_unit(x as int, self.width - 1);
            lemma_fraction_of_unit(y as int, self.height - 1);
        }
        match Position::new(x_off as u32, y_off as u32) {
            Ok(at) => self.gradient.color_at(at),
            Err(_) => vstd::pervasive::unreached(),
        }
    }

    pub fn difficulty(&self) -> (r: usize)
        ensures
            r == self.spec_difficulty(),
    {
        self.difficulty
    }

    pub fn width(&self) -> (r: usize)
        ensures
            r == self.spec_width(),
    {
        self.width
    }

    pub fn height(&self) -> (r: usize)
        ensures
            r == self.spec_height(),
    {
        self.height
    }

    pub fn gradient(&self) -> (r: Gradient)
        ensures
            r == self.spec_gradient(),
    {
        self.gradient
    }

    pub fn locking_pattern(&self) -> (r: LockingPattern)
        ensures
            r == self.spec_locking_pattern(),
    {
        self.locking_pattern
    }

    pub fn shuffle_seed(&self) -> (r: u64)
        ensures
            r == self.spec_shuffle_seed(),
    {
        self.shuffle_seed
    }

    /// The same settings with the shuffle seed moved on by one (wrapping).
    pub fn next_seed(&self) -> (r: Self)
        ensures
            self.reseeded(r),
            r.spec_shuffle_seed() == self.spec_shuffle_seed().wrapping_add(1),
    {
        PuzzleSettings { shuffle_seed: self.shuffle_seed.wrapping_add(1), ..*self }
    }
}

} // verus!
