//! A four-corner colour gradient over the unit square, sampled bilinearly.

use vstd::prelude::*;
use crate::color::{Color, ConfigError, UNIT, clamp_ratio, lemma_lerp_ends};

verus! {

/// A point of the unit square, each coordinate in parts of `UNIT`.
#[derive(Debug, Clone, Copy, PartialEq, Eq, Structural)]
pub struct Position {
    x: u32,
    y: u32,
}

impl Position {
    pub closed spec fn spec_x(self) -> int {
        self.x as int
    }

    pub closed spec fn spec_y(self) -> int {
        self.y as int
    }

    /// A position; a coordinate above `UNIT` is refused.
    pub fn new(x: u32, y: u32) -> (res: Result<Self, ConfigError>)
        ensures
            x <= UNIT && y <= UNIT <==> res is Ok,
            res is Err ==> res == Err::<Position, ConfigError>(ConfigError::CoordinateOutOfRange),
            res matches Ok(p) ==> p.spec_x() == x && p.spec_y() == y,
    {
        if x > UNIT || y > UNIT {
            Err(ConfigError::CoordinateOutOfRange)
        } else {
            Ok(Position { x, y })
        }
    }

    pub fn x(&self) -> (r: u32)
        ensures
            r == self.spec_x(),
    {
        self.x
    }

    pub fn y(&self) -> (r: u32)
        ensures
            r == self.spec_y(),
    {
        self.y
    }
}

/// A colour pinned to a corner.
#[derive(Debug, Clone, Copy, PartialEq, Eq, Structural)]
struct Stop {
    color: Color,
    position: Position,
}

/// Four colours at the corners (0, 0), (1, 0), (0, 1) and (1, 1).
#[derive(Debug, Clone, Copy, PartialEq, Eq, Structural)]
pub struct Gradient {
    top_left: Stop,
    top_right: Stop,
    bottom_left: Stop,
    bottom_right: Stop,
}

/// The colour at `(x, y)` of the gradient with corner colours `c`
/// (top left, top right, bottom left, bottom right): the top and bottom
/// edges are interpolated at `x`, then the two results at `y`.
pub open spec fn bilinear(c: (Color, Color, Color, Color), x: int, y: int) -> Color {
    Color::spec_lerp(Color::spec_lerp(c.0, c.1, x), Color::spec_lerp(c.2, c.3, x), y)
}

impl Gradient {
    /// The corner colours: top left, top right, bottom left, bottom right.
    pub closed spec fn colors(self) -> (Color, Color, Color, Color) {
        (self.top_left.color, self.top_right.color, self.bottom_left.color, self.bottom_right.color)
    }

    /// Every corner colour is well formed and all four are of one kind.
    pub open spec fn uniform(self) -> bool {
        let c = self.colors();
        &&& c.0.wf() && c.1.wf() && c.2.wf() && c.3.wf()
        &&& c.0.same_variant(c.1) && c.0.same_variant(c.2) && c.0.same_variant(c.3)
    }

    pub fn builder() -> (r: GradientBuilder)
        ensures
            r.corners() == (None::<Color>, None::<Color>, None::<Color>, None::<Color>),
    {
        GradientBuilder::new()
    }

    /// The bilinearly interpolated colour at `at`.
    pub fn color_at(&self, at: Position) -> (c: Color)
        requires
            self.uniform(),
        ensures
            c == bilinear(self.colors(), clamp_ratio(at.spec_x()), clamp_ratio(at.spec_y())),
            c.wf(),
            c.same_variant(self.colors().0),
    {
        let top_color = Color::lerp(self.top_left.color, self.top_right.color, at.x);
        let bottom_color = Color::lerp(self.bottom_left.color, self.bottom_right.color, at.x);
        Color::lerp(top_color, bottom_color, at.y)
    }

    /// The corner colours, in the order of `colors`.
    pub fn corner_colors(&self) -> (r: (Color, Color, Color, Color))
        ensures
            r == self.colors(),
    {
        (self.top_left.color, self.top_right.color, self.bottom_left.color, self.bottom_right.color)
    }
}

/// Sampling at a corner gives that corner's colour exactly.
pub proof fn lemma_corners_exact(g: Gradient)
    requires
        g.uniform(),
    ensures
        bilinear(g.colors(), 0, 0) == g.colors().0,
        bilinear(g.colors(), UNIT as int, 0) == g.colors().1,
        bilinear(g.colors(), 0, UNIT as int) == g.colors().2,
        bilinear(g.colors(), UNIT as int, UNIT as int) == g.colors().3,
{
    let c = g.colors();
    lemma_lerp_ends(c.0, c.1);
    lemma_lerp_ends(c.2, c.3);
    lemma_lerp_ends(c.0, c.2);
    lemma_lerp_ends(c.1, c.3);
}

/// Collects the four corner colours of a gradient.
pub struct GradientBuilder {
    top_left: Option<Stop>,
    top_right: Option<Stop>,
    bottom_left: Option<Stop>,
    bottom_right: Option<Stop>,
}

spec fn stop_color(s: Option<Stop>) -> Option<Color> {
    match s {
        Some(stop) => Some(stop.color),
        None => None,
    }
}

impl GradientBuilder {
    /// The corners set so far: top left, top right, bottom left, bottom right.
    pub closed spec fn corners(self) -> (Option<Color>, Option<Color>, Option<Color>, Option<Color>) {
        (
            stop_color(self.top_left),
            stop_color(self.top_right),
            stop_color(self.bottom_left),
            stop_color(self.bottom_right),
        )
    }

    pub fn new() -> (r: Self)
        ensures
            r.corners() == (None::<Color>, None::<Color>, None::<Color>, None::<Color>),
    {
        GradientBuilder { top_left: None, top_right: None, bottom_left: None, bottom_right: None }
    }

    /// The gradient, once all four corners are set.
    pub fn build(self) -> (res: Result<Gradient, ConfigError>)
        ensures
            res is Ok <==> (self.corners().0 is Some && self.corners().1 is Some
                && self.corners().2 is Some && self.corners().3 is Some),
            res is Err ==> res == Err::<Gradient, ConfigError>(ConfigError::MissingCorner),
            res matches Ok(g) ==> g.colors() == (
                self.corners().0.unwrap(),
                self.corners().1.unwrap(),
                self.corners().2.unwrap(),
                self.corners().3.unwrap(),
            ),
    {
        match (self.top_left, self.top_right, self.bottom_left, self.bottom_right) {
            (Some(top_left), Some(top_right), Some(bottom_left), Some(bottom_right)) => Ok(
                Gradient { top_left, top_right, bottom_left, bottom_right },
            ),
            _ => Err(ConfigError::MissingCorner),
        }
    }

    pub fn top_left(self, color: Color) -> (r: Self)
        ensures
            r.corners() == (Some(color), self.corners().1, self.corners().2, self.corners().3),
    {
        let position = Position { x: 0, y: 0 };
        GradientBuilder { top_left: Some(Stop { color, position }), ..self }
    }

    pub fn top_right(self, color: Color) -> (r: Self)
        ensures
            r.corners() == (self.corners().0, Some(color), self.corners().2, self.corners().3),
    {
        let position = Position { x: UNIT, y: 0 };
        GradientBuilder { top_right: Some(Stop { color, position }), ..self }
    }

    pub fn bottom_left(self, color: Color) -> (r: Self)
        ensures
            r.corners() == (self.corners().0, self.corners().1, Some(color), self.corners().3),
    {
        let position = Position { x: 0, y: UNIT };
        GradientBuilder { bottom_left: Some(Stop { color, position }), ..self }
    }

    pub fn bottom_right(self, color: Color) -> (r: Self)
        ensures
            r.corners() == (self.corners().0, self.corners().1, self.corners().2, Some(color)),
    {
        let position = Position { x: UNIT, y: UNIT };
        GradientBuilder { bottom_right: Some(Stop { color, position }), ..self }
    }
}

} // verus!
