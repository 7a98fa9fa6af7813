//! Points, rectangles and directions on the virtual screen.

use vstd::prelude::*;

verus! {

/// A point on the virtual screen, in pixels.
#[derive(Clone, Copy, Debug, PartialEq, Eq, Structural)]
pub struct Point {
    pub x: i32,
    pub y: i32,
}

/// A rectangle on the virtual screen, in pixels.
#[derive(Clone, Copy, Debug, PartialEq, Eq, Structural)]
pub struct Rect {
    pub left: i32,
    pub top: i32,
    pub right: i32,
    pub bottom: i32,
}

/// Whether a mathematical integer is a value of `i32`.
pub open spec fn fits_i32(value: int) -> bool {
    i32::MIN <= value <= i32::MAX
}

impl Rect {
    /// Whether the width and the height can be expressed in pixels.
    pub open spec fn measurable(self) -> bool {
        &&& fits_i32(self.right - self.left)
        &&& fits_i32(self.bottom - self.top)
    }

    /// Makes a rectangle from its top-left corner and its size.
    pub fn from_xy(x: i32, y: i32, width: i32, height: i32) -> (rect: Rect)
        requires
            fits_i32(x + width),
            fits_i32(y + height),
        ensures
            rect.left == x,
            rect.top == y,
            rect.right == x + width,
            rect.bottom == y + height,
    {
        Rect { left: x, top: y, right: x + width, bottom: y + height }
    }

    pub fn x(&self) -> (x: i32)
        ensures
            x == self.left,
    {
        self.left
    }

    pub fn y(&self) -> (y: i32)
        ensures
            y == self.top,
    {
        self.top
    }

    pub fn width(&self) -> (width: i32)
        requires
            self.measurable(),
        ensures
            width == self.right - self.left,
    {
        self.right - self.left
    }

    pub fn height(&self) -> (height: i32)
        requires
            self.measurable(),
        ensures
            height == self.bottom - self.top,
    {
        self.bottom - self.top
    }
}

/// Half of a length, rounded towards zero.
pub open spec fn half(length: int) -> int {
    if length >= 0 {
        length / 2
    } else {
        -((-length) / 2)
    }
}

/// Gets the center point of a rectangle.
pub fn rect_center(rect: &Rect) -> (center: Point)
    requires
        rect.measurable(),
    ensures
        center.x == rect.left + half(rect.right - rect.left),
        center.y == rect.top + half(rect.bottom - rect.top),
{
    Point { x: rect.x() + rect.width() / 2, y: rect.y() + rect.height() / 2 }
}

/// A direction in which to look for, or move, a container.
#[derive(Clone, Copy, Debug, PartialEq, Eq, Structural)]
pub enum Direction {
    Left,
    Right,
    Up,
    Down,
}

impl Direction {
    pub open spec fn spec_inverse(self) -> Direction {
        match self {
            Direction::Left => Direction::Right,
            Direction::Right => Direction::Left,
            Direction::Up => Direction::Down,
            Direction::Down => Direction::Up,
        }
    }

    /// Gets the opposite direction.
    pub fn inverse(&self) -> (inverse: Direction)
        ensures
            inverse == self.spec_inverse(),
    {
        match self {
            Direction::Left => Direction::Right,
            Direction::Right => Direction::Left,
            Direction::Up => Direction::Down,
            Direction::Down => Direction::Up,
        }
    }
}

/// The axis along which a container lays out its children.
#[derive(Clone, Copy, Debug, PartialEq, Eq, Structural)]
pub enum TilingDirection {
    Horizontal,
    Vertical,
}

impl TilingDirection {
    pub open spec fn spec_inverse(self) -> TilingDirection {
        match self {
            TilingDirection::Horizontal => TilingDirection::Vertical,
            TilingDirection::Vertical => TilingDirection::Horizontal,
        }
    }

    /// Gets the perpendicular axis.
    pub fn inverse(&self) -> (inverse: TilingDirection)
        ensures
            inverse == self.spec_inverse(),
    {
        match self {
            TilingDirection::Horizontal => TilingDirection::Vertical,
            TilingDirection::Vertical => TilingDirection::Horizontal,
        }
    }

    pub open spec fn spec_from_direction(direction: Direction) -> TilingDirection {
        match direction {
            Direction::Left | Direction::Right => TilingDirection::Horizontal,
            Direction::Up | Direction::Down => TilingDirection::Vertical,
        }
    }

    /// Gets the axis that a direction runs along.
    pub fn from_direction(direction: &Direction) -> (axis: TilingDirection)
        ensures
            axis == TilingDirection::spec_from_direction(*direction),
    {
        match direction {
            Direction::Left | Direction::Right => TilingDirection::Horizontal,
            Direction::Up | Direction::Down => TilingDirection::Vertical,
        }
    }
}

/// The edges of a window that follow the cursor while it is resized.
#[derive(Clone, Copy, Debug, PartialEq, Eq, Structural)]
pub struct ResizeEdges {
    /// The right edge moves if set, the left edge otherwise.
    pub is_right: bool,
    /// The bottom edge moves if set, the top edge otherwise.
    pub is_bottom: bool,
}

impl ResizeEdges {
    pub open spec fn spec_from_grab_point(rect: Rect, point: Point) -> ResizeEdges {
        ResizeEdges {
            is_right: point.x >= rect.left + half(rect.right - rect.left),
            is_bottom: point.y >= rect.top + half(rect.bottom - rect.top),
        }
    }

    /// Gets the edges to resize when a rectangle is grabbed at a point: those
    /// of the quadrant that the point is in.
    pub fn from_grab_point(rect: &Rect, point: &Point) -> (edges: ResizeEdges)
        requires
            rect.measurable(),
        ensures
            edges == ResizeEdges::spec_from_grab_point(*rect, *point),
    {
        let center = rect_center(rect);
        ResizeEdges { is_right: point.x >= center.x, is_bottom: point.y >= center.y }
    }

    pub open spec fn width_delta(self, delta_x: int) -> int {
        if self.is_right {
            delta_x
        } else {
            -delta_x
        }
    }

    pub open spec fn height_delta(self, delta_y: int) -> int {
        if self.is_bottom {
            delta_y
        } else {
            -delta_y
        }
    }

    /// Gets by how much the width and the height change when the cursor has
    /// moved by the given distance.
    pub fn size_delta(&self, delta_x: i32, delta_y: i32) -> (delta: (i32, i32))
        requires
            fits_i32(self.width_delta(delta_x as int)),
            fits_i32(self.height_delta(delta_y as int)),
        ensures
            delta.0 == self.width_delta(delta_x as int),
            delta.1 == self.height_delta(delta_y as int),
    {
        (
            if self.is_right {
                delta_x
            } else {
                -delta_x
            },
            if self.is_bottom {
                delta_y
            } else {
                -delta_y
            },
        )
    }
}

/// The opposite direction runs along the same axis and is another one, and its
/// opposite is the direction itself.
pub proof fn law_opposite_directions(direction: Direction)
    ensures
        direction.spec_inverse() != direction,
        direction.spec_inverse().spec_inverse() == direction,
        TilingDirection::spec_from_direction(direction.spec_inverse())
            == TilingDirection::spec_from_direction(direction),
        TilingDirection::spec_from_direction(direction) == TilingDirection::Horizontal
            <==> direction == Direction::Left || direction == Direction::Right,
{
}

/// The perpendicular axis is the other one.
pub proof fn law_perpendicular_axes(axis: TilingDirection)
    ensures
        axis.spec_inverse() != axis,
        axis.spec_inverse().spec_inverse() == axis,
{
}

/// The center of a rectangle is as far from one side as from the other one, or
/// one pixel closer to the left or to the top.
pub proof fn law_center(rect: Rect, center: Point)
    requires
        rect.left <= rect.right,
        rect.top <= rect.bottom,
        center.x == rect.left + half(rect.right - rect.left),
        center.y == rect.top + half(rect.bottom - rect.top),
    ensures
        0 <= (rect.right - center.x) - (center.x - rect.left) <= 1,
        0 <= (rect.bottom - center.y) - (center.y - rect.top) <= 1,
{
}

/// A rectangle is grabbed by the edges that are closer to the point.
pub proof fn law_grabbed_edges_are_the_closer_ones(rect: Rect, point: Point)
    requires
        rect.left <= rect.right,
        rect.top <= rect.bottom,
    ensures
        ({
            let edges = ResizeEdges::spec_from_grab_point(rect, point);
            &&& rect.right - point.x < point.x - rect.left ==> edges.is_right
            &&& rect.right - point.x > point.x - rect.left + 1 ==> !edges.is_right
            &&& rect.bottom - point.y < point.y - rect.top ==> edges.is_bottom
            &&& rect.bottom - point.y > point.y - rect.top + 1 ==> !edges.is_bottom
            &&& edges.is_right <==> point.x - rect.left >= (rect.right - rect.left) / 2
            &&& edges.is_bottom <==> point.y - rect.top >= (rect.bottom - rect.top) / 2
        }),
{
}

/// The size changes by as much as the cursor has moved away from the opposite
/// edges.
pub proof fn law_size_follows_the_cursor(edges: ResizeEdges, delta_x: int, delta_y: int)
    ensures
        edges.is_right ==> edges.width_delta(delta_x) == delta_x,
        !edges.is_right ==> edges.width_delta(delta_x) + delta_x == 0,
        edges.is_bottom ==> edges.height_delta(delta_y) == delta_y,
        !edges.is_bottom ==> edges.height_delta(delta_y) + delta_y == 0,
{
}

} // verus!
