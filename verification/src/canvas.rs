//! The drawing surface: an `unsvg` image together with the record of every
//! segment drawn on it.
//!
//! The endpoint a line reaches is computed by `unsvg` and is named here by
//! the uninterpreted function [`end_coords`]; the library's own geometry
//! claims nothing about its value beyond determinism.  `unsvg` converts
//! the endpoint back to a whole number and panics when that leaves the
//! `i32` range, so every entry point bounds the coordinates and the
//! length by [`COORD_LIMIT`], which keeps the endpoint's magnitude under
//! a quarter of that range.
use vstd::prelude::*;

verus! {

/// The largest coordinate or segment length the surface accepts.  An
/// endpoint is at most `|x| + |length|` plus rounding, so starting data
/// within this bound keeps the endpoint far inside the `i32` range that
/// `unsvg`'s conversions require.
pub const COORD_LIMIT: i32 = 0x2000_0000;

/// The point `unsvg` moves the turtle to: starting at `(x, y)`, facing
/// `direction` degrees (0 is up, clockwise), travelling `length` units.
/// `unsvg` computes this from the arguments alone, rounding to whole
/// coordinates.
pub uninterp spec fn end_coords(x: int, y: int, direction: int, length: int) -> (int, int);

#[verifier::external_type_specification]
#[verifier::external_body]
pub struct ExImage(unsvg::Image);

/// Relies on unsvg::Image::new.  Its size conversion accepts any positive
/// dimensions; zero panics, so it is excluded here.
#[verifier::external_body]
fn new_image(width: u32, height: u32) -> unsvg::Image
    requires
        1 <= width,
        1 <= height,
{
    unsvg::Image::new(width, height)
}

/// Relies on unsvg::Image::draw_simple_line: it draws one segment and
/// returns the endpoint that unsvg::get_end_coordinates gives for the
/// same arguments, which depends on the arguments alone.  The bounds on
/// the coordinates and the length keep the endpoint inside the integer
/// range its conversion requires; the palette holds sixteen colors, so
/// larger indices are excluded.  For the two-point path built here the
/// underlying path builder cannot fail, so the call returns the endpoint
/// whenever the bounds hold.
#[verifier::external_body]
fn draw_simple_line_raw(
    image: &mut unsvg::Image,
    x: i32,
    y: i32,
    direction: i32,
    length: i32,
    color_index: usize,
) -> (r: (i32, i32))
    requires
        -COORD_LIMIT <= x <= COORD_LIMIT,
        -COORD_LIMIT <= y <= COORD_LIMIT,
        -COORD_LIMIT <= length <= COORD_LIMIT,
        color_index < 16,
    ensures
        (r.0 as int, r.1 as int) == end_coords(
            x as int,
            y as int,
            direction as int,
            length as int,
        ),
{
    image.draw_simple_line(x, y, direction, length, unsvg::COLORS[color_index]).unwrap()
}

/// Relies on unsvg::get_end_coordinates: a pure function of its
/// arguments, used when the pen is up and no segment is drawn.  The same
/// bounds as for drawing keep its integer conversion in range.
#[verifier::external_body]
fn get_end_coordinates_raw(x: i32, y: i32, direction: i32, length: i32) -> (r: (i32, i32))
    requires
        -COORD_LIMIT <= x <= COORD_LIMIT,
        -COORD_LIMIT <= y <= COORD_LIMIT,
        -COORD_LIMIT <= length <= COORD_LIMIT,
    ensures
        (r.0 as int, r.1 as int) == end_coords(x as int, y as int, direction as int, length as int),
{
    unsvg::get_end_coordinates(x, y, direction, length)
}

/// One drawn line segment: its starting point, absolute direction in
/// degrees, length, and palette color index.
#[derive(Debug, Clone, Copy, PartialEq, Eq, Structural)]
pub struct Segment {
    pub x: i32,
    pub y: i32,
    pub direction: i32,
    pub length: i32,
    pub color: u32,
}

/// The surface the interpreter draws on: the image, and the ordered record
/// of the segments drawn so far.
pub struct Canvas {
    pub image: unsvg::Image,
    pub segments: Vec<Segment>,
}

impl View for Canvas {
    type V = Seq<Segment>;

    open spec fn view(&self) -> Seq<Segment> {
        self.segments@
    }
}

impl Canvas {
    /// A fresh surface with no segments drawn.
    pub fn new(width: u32, height: u32) -> (r: Canvas)
        requires
            1 <= width,
            1 <= height,
        ensures
            r@ == Seq::<Segment>::empty(),
    {
        Canvas { image: new_image(width, height), segments: Vec::new() }
    }

    /// Draws one segment and reports the endpoint the surface computed.
    pub fn draw_move(&mut self, x: i32, y: i32, direction: i32, length: i32, color: u32) -> (r: (
        i32,
        i32,
    ))
        requires
            -COORD_LIMIT <= x <= COORD_LIMIT,
            -COORD_LIMIT <= y <= COORD_LIMIT,
            -COORD_LIMIT <= length <= COORD_LIMIT,
            color < 16,
        ensures
            (r.0 as int, r.1 as int) == end_coords(
                x as int,
                y as int,
                direction as int,
                length as int,
            ),
            final(self)@ == old(self)@.push(Segment { x, y, direction, length, color }),
    {
        let p = draw_simple_line_raw(&mut self.image, x, y, direction, length, color as usize);
        self.segments.push(Segment { x, y, direction, length, color });
        p
    }

    /// The endpoint of a move made with the pen up: nothing is drawn.
    pub fn project_move(&self, x: i32, y: i32, direction: i32, length: i32) -> (r: (i32, i32))
        requires
            -COORD_LIMIT <= x <= COORD_LIMIT,
            -COORD_LIMIT <= y <= COORD_LIMIT,
            -COORD_LIMIT <= length <= COORD_LIMIT,
        ensures
            (r.0 as int, r.1 as int) == end_coords(
                x as int,
                y as int,
                direction as int,
                length as int,
            ),
    {
        get_end_coordinates_raw(x, y, direction, length)
    }
}

} // verus!
