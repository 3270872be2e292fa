//! The drawing collaborator: the operations the evaluator invokes and the
//! queries it reads.
use crate::expression::Snapshot;
use vstd::prelude::*;

verus! {

/// One operation invoked on the collaborator, with its argument.
#[derive(Debug, Clone, Copy, PartialEq, Eq, Structural)]
pub enum Command {
    PenUp,
    PenDown,
    Forward(i64),
    Back(i64),
    Left(i64),
    Right(i64),
    SetColor(u32),
    Turn(i64),
    SetHeading(i64),
    SetX(i64),
    SetY(i64),
}

/// The drawing state that statements act on. Distances and coordinates are in
/// whole pixels, angles in whole degrees, colors are palette indices 0 to 15.
pub trait Executor {
    fn pen_up(&mut self);

    fn pen_down(&mut self);

    fn foreward(&mut self, pixel: i64);

    fn back(&mut self, pixel: i64);

    fn left(&mut self, pixel: i64);

    fn right(&mut self, pixel: i64);

    fn set_color(&mut self, color: u32);

    fn turn(&mut self, degree: i64);

    fn set_heading(&mut self, degree: i64);

    fn set_x_coordinate(&mut self, pixel: i64);

    fn set_y_coordinate(&mut self, pixel: i64);

    fn get_x_coordinate(&self) -> i64;

    fn get_y_coordinate(&self) -> i64;

    fn get_heading(&self) -> i64;

    fn get_color(&self) -> u32;
}

/// Invokes the operation that `c` names.
pub(crate) fn perform<E: Executor>(executor: &mut E, c: Command) {
    match c {
        Command::PenUp => executor.pen_up(),
        Command::PenDown => executor.pen_down(),
        Command::Forward(v) => executor.foreward(v),
        Command::Back(v) => executor.back(v),
        Command::Left(v) => executor.left(v),
        Command::Right(v) => executor.right(v),
        Command::SetColor(v) => executor.set_color(v),
        Command::Turn(v) => executor.turn(v),
        Command::SetHeading(v) => executor.set_heading(v),
        Command::SetX(v) => executor.set_x_coordinate(v),
        Command::SetY(v) => executor.set_y_coordinate(v),
    }
}

/// The answers of the four queries now.
pub(crate) fn snapshot<E: Executor>(executor: &E) -> (r: Snapshot)
    ensures
        0 <= r.color <= u32::MAX,
{
    let x = executor.get_x_coordinate();
    let y = executor.get_y_coordinate();
    let heading = executor.get_heading();
    let color = executor.get_color();
    Snapshot { x, y, heading, color: color as i64 }
}

} // verus!
