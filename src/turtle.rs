//! The turtle's drawing state: position, heading, pen and color, and how
//! each primitive changes it. Where a line ends is computed by unsvg.
use vstd::prelude::*;

verus! {

/// Coordinates handed to the end-point computation stay within this bound.
pub const COORD_LIMIT: i32 = 1073741824;

/// Line lengths handed to the end-point computation stay within this bound.
pub const LENGTH_LIMIT: i32 = 536870912;

/// Relies on `unsvg::get_end_coordinates`: the end of a line of `length`
/// pixels from (`x`, `y`) at heading `direction`. Its floating-point maths
/// is not promised to give the same result everywhere, so nothing is stated
/// of the end. It panics only when the end does not fit an `i32`; the end lies
/// within `|length|` of the start (plus rounding), so the bounds rule that out.
#[verifier::external_body]
fn end_coordinates(x: i32, y: i32, direction: i32, length: i32) -> (r: (i32, i32))
    requires
        -COORD_LIMIT <= x <= COORD_LIMIT,
        -COORD_LIMIT <= y <= COORD_LIMIT,
        -LENGTH_LIMIT <= length <= LENGTH_LIMIT,
{
    unsvg::get_end_coordinates(x, y, direction, length)
}

/// A line to draw: its start, heading, length and palette color.
#[derive(Debug, Clone, Copy, PartialEq, Eq, Structural)]
pub struct Segment {
    pub x: i32,
    pub y: i32,
    pub direction: i32,
    pub length: i32,
    pub color_idx: u32,
}

#[derive(Debug, Clone, Copy, PartialEq, Eq, Structural)]
pub struct Turtle {
    pub direction: i32,
    pub x: i32,
    pub y: i32,
    pub color_idx: u32,
    pub pen_down: bool,
}

pub open spec fn in_canvas(t: Turtle) -> bool {
    -COORD_LIMIT <= t.x <= COORD_LIMIT && -COORD_LIMIT <= t.y <= COORD_LIMIT
}

pub open spec fn fits_length(v: int) -> bool {
    -LENGTH_LIMIT <= v <= LENGTH_LIMIT
}

pub open spec fn fits_i32(v: int) -> bool {
    i32::MIN <= v <= i32::MAX
}

pub open spec fn with_direction(t: Turtle, d: int) -> Turtle {
    Turtle { direction: d as i32, ..t }
}

pub open spec fn with_x(t: Turtle, v: int) -> Turtle {
    Turtle { x: v as i32, ..t }
}

pub open spec fn with_y(t: Turtle, v: int) -> Turtle {
    Turtle { y: v as i32, ..t }
}

/// Whether a move of `length` pixels at heading `direction` from `t` stays
/// within the bounds the end-point computation accepts.
pub open spec fn move_allowed(t: Turtle, direction: int, length: int) -> bool {
    in_canvas(t) && fits_length(length) && fits_i32(direction)
}

/// The line a move draws: none when the pen is up.
pub open spec fn segment_of(t: Turtle, direction: int, length: int) -> Option<Segment> {
    if t.pen_down {
        Some(
            Segment {
                x: t.x,
                y: t.y,
                direction: direction as i32,
                length: length as i32,
                color_idx: t.color_idx,
            },
        )
    } else {
        None
    }
}

/// After a move: the new heading, pen and color as given, the position where
/// the end-point computation put it.
pub open spec fn moved_state(old: Turtle, new: Turtle, direction: int) -> bool {
    new.direction == direction && new.pen_down == old.pen_down && new.color_idx == old.color_idx
}

/// The move's outcome: the line drawn and the state after it, or nothing when
/// the move is not allowed.
pub open spec fn move_outcome(old: Turtle, new: Turtle, direction: int, length: int, r: Option<
    Option<Segment>,
>) -> bool {
    if move_allowed(old, direction, length) {
        r == Some(segment_of(old, direction, length)) && moved_state(old, new, direction)
    } else {
        r is None && new == old
    }
}

impl Turtle {
    /// A turtle in the middle of a `width` by `height` image, heading up, pen
    /// up, color 7.
    pub fn new(width: u32, height: u32) -> (r: Turtle)
        ensures
            r == (Turtle {
                direction: 0,
                x: (width / 2) as i32,
                y: (height / 2) as i32,
                color_idx: 7,
                pen_down: false,
            }),
    {
        Turtle {
            direction: 0,
            x: (width / 2) as i32,
            y: (height / 2) as i32,
            color_idx: 7,
            pen_down: false,
        }
    }

    /// Puts the turtle at `end`, the end of a line of `length` pixels at
    /// heading `direction`; returns the line drawn, if the pen is down.
    pub fn advance(&mut self, direction: i32, length: i32, end: (i32, i32)) -> (r: Option<Segment>)
        ensures
            r == segment_of(*old(self), direction as int, length as int),
            *final(self) == (Turtle { direction, x: end.0, y: end.1, ..*old(self) }),
    {
        let seg = if self.pen_down {
            Some(Segment { x: self.x, y: self.y, direction, length, color_idx: self.color_idx })
        } else {
            None
        };
        self.direction = direction;
        self.x = end.0;
        self.y = end.1;
        seg
    }

    fn draw(&mut self, direction: i32, pixel: i64) -> (r: Option<Option<Segment>>)
        ensures
            move_outcome(*old(self), *final(self), direction as int, pixel as int, r),
    {
        if self.x < -COORD_LIMIT || self.x > COORD_LIMIT || self.y < -COORD_LIMIT || self.y
            > COORD_LIMIT || pixel < -(LENGTH_LIMIT as i64) || pixel > LENGTH_LIMIT as i64 {
            return None;
        }
        let length = pixel as i32;
        let end = end_coordinates(self.x, self.y, direction, length);
        Some(self.advance(direction, length, end))
    }

    /// Moves `pixel` along the heading; a negative distance first turns the
    /// heading by 180 degrees. Returns the line drawn, if the pen is down.
    pub fn foreward(&mut self, pixel: i64) -> (r: Option<Option<Segment>>)
        ensures
            move_outcome(
                *old(self),
                *final(self),
                if pixel < 0 {
                    old(self).direction + 180
                } else {
                    old(self).direction as int
                },
                pixel as int,
                r,
            ),
    {
        let d = self.direction as i64 + if pixel < 0 {
            180
        } else {
            0
        };
        if d > i32::MAX as i64 {
            return None;
        }
        self.draw(d as i32, pixel)
    }

    /// Moves back: forward by the opposite distance.
    pub fn back(&mut self, pixel: i64) -> (r: Option<Option<Segment>>)
        ensures
            pixel == i64::MIN ==> r is None && *final(self) == *old(self),
            pixel != i64::MIN ==> move_outcome(
                *old(self),
                *final(self),
                if -pixel < 0 {
                    old(self).direction + 180
                } else {
                    old(self).direction as int
                },
                -pixel,
                r,
            ),
    {
        if pixel == i64::MIN {
            return None;
        }
        self.foreward(-pixel)
    }

    /// Turns a quarter left (three quarters for a negative distance), then
    /// moves `pixel`.
    pub fn left(&mut self, pixel: i64) -> (r: Option<Option<Segment>>)
        ensures
            move_outcome(
                *old(self),
                *final(self),
                old(self).direction + if pixel < 0 {
                    270int
                } else {
                    90int
                },
                pixel as int,
                r,
            ),
    {
        let d = self.direction as i64 + if pixel < 0 {
            270
        } else {
            90
        };
        if d > i32::MAX as i64 {
            return None;
        }
        self.draw(d as i32, pixel)
    }

    /// Moves right: left by the opposite distance.
    pub fn right(&mut self, pixel: i64) -> (r: Option<Option<Segment>>)
        ensures
            pixel == i64::MIN ==> r is None && *final(self) == *old(self),
            pixel != i64::MIN ==> move_outcome(
                *old(self),
                *final(self),
                old(self).direction + if -pixel < 0 {
                    270int
                } else {
                    90int
                },
                -pixel,
                r,
            ),
    {
        if pixel == i64::MIN {
            return None;
        }
        self.left(-pixel)
    }

    /// Turns the heading by `|degree|` degrees counterclockwise.
    pub fn turn(&mut self, degree: i64) -> (r: bool)
        ensures
            ({
                let d = if degree < 0 {
                    old(self).direction + degree
                } else {
                    old(self).direction - degree
                };
                if fits_i32(d) {
                    r && *final(self) == with_direction(*old(self), d)
                } else {
                    !r && *final(self) == *old(self)
                }
            }),
    {
        let cur = self.direction as i64;
        let d: i64 = if degree < 0 {
            if degree < i32::MIN as i64 - cur {
                return false;
            }
            cur + degree
        } else {
            if degree > cur - i32::MIN as i64 {
                return false;
            }
            cur - degree
        };
        if d > i32::MAX as i64 {
            return false;
        }
        self.direction = d as i32;
        true
    }

    /// Sets the heading; false when it does not fit an `i32`.
    pub fn set_heading(&mut self, degree: i64) -> (r: bool)
        ensures
            fits_i32(degree as int) ==> r && *final(self) == with_direction(*old(self), degree as int),
            !fits_i32(degree as int) ==> !r && *final(self) == *old(self),
    {
        if degree < i32::MIN as i64 || degree > i32::MAX as i64 {
            return false;
        }
        self.direction = degree as i32;
        true
    }

    /// Sets the x coordinate; false when it does not fit an `i32`.
    pub fn set_x_coordinate(&mut self, pixel: i64) -> (r: bool)
        ensures
            fits_i32(pixel as int) ==> r && *final(self) == with_x(*old(self), pixel as int),
            !fits_i32(pixel as int) ==> !r && *final(self) == *old(self),
    {
        if pixel < i32::MIN as i64 || pixel > i32::MAX as i64 {
            return false;
        }
        self.x = pixel as i32;
        true
    }

    /// Sets the y coordinate; false when it does not fit an `i32`.
    pub fn set_y_coordinate(&mut self, pixel: i64) -> (r: bool)
        ensures
            fits_i32(pixel as int) ==> r && *final(self) == with_y(*old(self), pixel as int),
            !fits_i32(pixel as int) ==> !r && *final(self) == *old(self),
    {
        if pixel < i32::MIN as i64 || pixel > i32::MAX as i64 {
            return false;
        }
        self.y = pixel as i32;
        true
    }
}

pub struct ExecutorFactory;

impl ExecutorFactory {
    /// The turtle for a new `width` by `height` image.
    pub fn create_turtle(width: u32, height: u32) -> (r: Turtle)
        ensures
            r == (Turtle {
                direction: 0,
                x: (width / 2) as i32,
                y: (height / 2) as i32,
                color_idx: 7,
                pen_down: false,
            }),
    {
        Turtle::new(width, height)
    }
}

} // verus!
