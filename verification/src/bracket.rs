//! The items of `bracket-lib` that the grid relies on. Their contracts are
//! stated from the crate's source and are taken on trust.

use vstd::prelude::*;
use crate::grid::Coordinate;

verus! {

/// The random number generator of `bracket_lib`. Nothing is known of what is
/// inside it.
#[verifier::external_type_specification]
#[verifier::external_body]
pub struct ExRandomNumberGenerator(bracket_lib::prelude::RandomNumberGenerator);

/// `RandomNumberGenerator::new`: a generator seeded by the machine. Nothing
/// is promised of it.
#[verifier::external_body]
pub(crate) fn rng_new() -> (rng: bracket_lib::prelude::RandomNumberGenerator) {
    bracket_lib::prelude::RandomNumberGenerator::new()
}

/// `RandomNumberGenerator::range` on `i32`: some number from `min` up to, but
/// not including, `max`. The range must not be empty.
#[verifier::external_body]
pub(crate) fn rng_range(
    rng: &mut bracket_lib::prelude::RandomNumberGenerator,
    min: i32,
    max: i32,
) -> (r: i32)
    requires
        min < max,
    ensures
        min <= r < max,
{
    rng.range(min, max)
}

/// A rectangle of cells: the columns from `x1` up to, but not including,
/// `x2`, and the rows from `y1` up to, but not including, `y2`. It holds
/// what a `Rect` of `bracket_lib` holds.
#[derive(Copy, Clone, PartialEq, Eq, Structural, Debug)]
pub struct Region {
    pub x1: i32,
    pub x2: i32,
    pub y1: i32,
    pub y2: i32,
}

impl Region {
    pub open spec fn holds(self, x: int, y: int) -> bool {
        self.x1 <= x < self.x2 && self.y1 <= y < self.y2
    }

    /// The number of cells in the rectangle.
    pub open spec fn count(self) -> int {
        if self.x1 < self.x2 && self.y1 < self.y2 {
            (self.x2 - self.x1) * (self.y2 - self.y1)
        } else {
            0
        }
    }
}

/// `Rect::with_size` on `i32`: the rectangle with its first corner at
/// `(x, y)`, `w` columns wide and `h` rows high. The sums must fit in `i32`.
#[verifier::external_body]
pub(crate) fn rect_with_size(x: i32, y: i32, w: i32, h: i32) -> (region: Region)
    requires
        i32::MIN <= x + w <= i32::MAX,
        i32::MIN <= y + h <= i32::MAX,
    ensures
        region.x1 == x,
        region.y1 == y,
        region.x2 == x + w,
        region.y2 == y + h,
{
    let rect = bracket_lib::prelude::Rect::with_size(x, y, w, h);
    Region { x1: rect.x1, x2: rect.x2, y1: rect.y1, y2: rect.y2 }
}

/// `Rect::for_each`, on the `Rect` that `Rect::with_exact` makes of the four
/// bounds: the points that it hands out. They are the points of the
/// rectangle, each once.
#[verifier::external_body]
pub(crate) fn rect_points(region: Region) -> (points: Vec<Coordinate>)
    requires
        region.count() <= usize::MAX,
    ensures
        points@.len() == region.count(),
        forall|j: int|
            0 <= j < points@.len() ==> region.holds(
                (#[trigger] points@[j]).x as int,
                points@[j].y as int,
            ),
        forall|p: Coordinate|
            region.holds(p.x as int, p.y as int) ==> #[trigger] points@.contains(p),
{
    let mut points = Vec::new();
    bracket_lib::prelude::Rect::with_exact(region.x1, region.y1, region.x2, region.y2).for_each(
        |p| note_point(&mut points, p.x, p.y),
    );
    points
}

/// Puts the point `(x, y)` at the end of the list.
pub fn note_point(points: &mut Vec<Coordinate>, x: i32, y: i32)
    ensures
        final(points)@ == old(points)@.push(Coordinate { x, y }),
{
    points.push(Coordinate::new(x, y));
}

/// The code that `to_cp437` of `bracket_lib` gives a character in code page
/// 437.
pub uninterp spec fn cp437_code(c: char) -> u16;

/// `to_cp437`: the code of the character in code page 437, a function of
/// the character alone.
#[verifier::external_body]
pub(crate) fn glyph_code(c: char) -> (code: u16)
    ensures
        code == cp437_code(c),
{
    bracket_lib::prelude::to_cp437(c)
}

pub open spec fn rgb_white() -> (u8, u8, u8) {
    (255u8, 255u8, 255u8)
}

pub open spec fn rgb_blue() -> (u8, u8, u8) {
    (0u8, 0u8, 255u8)
}

pub open spec fn rgb_light_blue() -> (u8, u8, u8) {
    (173u8, 216u8, 230u8)
}

pub open spec fn rgb_dark_green() -> (u8, u8, u8) {
    (0u8, 100u8, 0u8)
}

pub open spec fn rgb_green() -> (u8, u8, u8) {
    (0u8, 255u8, 0u8)
}

pub open spec fn rgb_green_yellow() -> (u8, u8, u8) {
    (173u8, 255u8, 47u8)
}

pub open spec fn rgb_blue_violet() -> (u8, u8, u8) {
    (138u8, 43u8, 226u8)
}

pub open spec fn rgb_dark_blue() -> (u8, u8, u8) {
    (0u8, 0u8, 139u8)
}

pub open spec fn rgb_light_green() -> (u8, u8, u8) {
    (144u8, 238u8, 144u8)
}

/// The constant `WHITE` of `bracket_lib::prelude`: full red, green and blue.
#[verifier::external_body]
pub(crate) fn white() -> (c: (u8, u8, u8))
    ensures
        c == rgb_white(),
{
    bracket_lib::prelude::WHITE
}

/// The constant `BLUE` of `bracket_lib::prelude`.
#[verifier::external_body]
pub(crate) fn blue() -> (c: (u8, u8, u8))
    ensures
        c == rgb_blue(),
{
    bracket_lib::prelude::BLUE
}

/// The constant `LIGHT_BLUE` of `bracket_lib::prelude`.
#[verifier::external_body]
pub(crate) fn light_blue() -> (c: (u8, u8, u8))
    ensures
        c == rgb_light_blue(),
{
    bracket_lib::prelude::LIGHT_BLUE
}

/// The constant `DARK_GREEN` of `bracket_lib::prelude`.
#[verifier::external_body]
pub(crate) fn dark_green() -> (c: (u8, u8, u8))
    ensures
        c == rgb_dark_green(),
{
    bracket_lib::prelude::DARK_GREEN
}

/// The constant `GREEN` of `bracket_lib::prelude`.
#[verifier::external_body]
pub(crate) fn green() -> (c: (u8, u8, u8))
    ensures
        c == rgb_green(),
{
    bracket_lib::prelude::GREEN
}

/// The constant `GREEN_YELLOW` of `bracket_lib::prelude`.
#[verifier::external_body]
pub(crate) fn green_yellow() -> (c: (u8, u8, u8))
    ensures
        c == rgb_green_yellow(),
{
    bracket_lib::prelude::GREEN_YELLOW
}

/// The constant `BLUE_VIOLET` of `bracket_lib::prelude`.
#[verifier::external_body]
pub(crate) fn blue_violet() -> (c: (u8, u8, u8))
    ensures
        c == rgb_blue_violet(),
{
    bracket_lib::prelude::BLUE_VIOLET
}

/// The constant `DARK_BLUE` of `bracket_lib::prelude`.
#[verifier::external_body]
pub(crate) fn dark_blue() -> (c: (u8, u8, u8))
    ensures
        c == rgb_dark_blue(),
{
    bracket_lib::prelude::DARK_BLUE
}

/// The constant `LIGHT_GREEN` of `bracket_lib::prelude`.
#[verifier::external_body]
pub(crate) fn light_green() -> (c: (u8, u8, u8))
    ensures
        c == rgb_light_green(),
{
    bracket_lib::prelude::LIGHT_GREEN
}

/// What `char::from_digit` gives for radix ten: the decimal digit's
/// character for a number below ten, nothing for any other number.
pub open spec fn decimal_digit(num: u32) -> Option<char> {
    if num == 0 {
        Some('0')
    } else if num == 1 {
        Some('1')
    } else if num == 2 {
        Some('2')
    } else if num == 3 {
        Some('3')
    } else if num == 4 {
        Some('4')
    } else if num == 5 {
        Some('5')
    } else if num == 6 {
        Some('6')
    } else if num == 7 {
        Some('7')
    } else if num == 8 {
        Some('8')
    } else if num == 9 {
        Some('9')
    } else {
        None
    }
}

/// `char::from_digit` with radix ten. The standard library documents that it
/// returns the digit's character where the number is below the radix and
/// `None` otherwise.
#[verifier::external_body]
pub(crate) fn digit_char(num: u32) -> (r: Option<char>)
    ensures
        r == decimal_digit(num),
{
    char::from_digit(num, 10)
}

} // verus!
