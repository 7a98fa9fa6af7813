//! Where windows go that are moved or resized by dragging them.

use vstd::prelude::*;

use crate::geometry::{self, Rect, ResizeEdges};

verus! {

/// The rectangle with the given top-left corner and size.
pub open spec fn rect_at(x: int, y: int, width: int, height: int) -> Rect {
    Rect { left: x as i32, top: y as i32, right: (x + width) as i32, bottom: (y + height) as i32 }
}

pub open spec fn least(a: int, b: int) -> int {
    if a <= b {
        a
    } else {
        b
    }
}

pub open spec fn greatest(a: int, b: int) -> int {
    if a >= b {
        a
    } else {
        b
    }
}

/// The value closest to `value` from `low` to `high`.
pub open spec fn between(value: int, low: int, high: int) -> int {
    if value < low {
        low
    } else if value > high {
        high
    } else {
        value
    }
}

/// The width of a rectangle that has to fit in an area.
pub open spec fn clamped_width(rect: Rect, area: Rect) -> int {
    least(rect.right - rect.left, area.right - area.left)
}

/// The height of a rectangle that has to fit in an area.
pub open spec fn clamped_height(rect: Rect, area: Rect) -> int {
    least(rect.bottom - rect.top, area.bottom - area.top)
}

/// The left edge of a rectangle that has to lie in an area.
pub open spec fn clamped_x(rect: Rect, area: Rect) -> int {
    between(rect.left as int, area.left as int, area.right - clamped_width(rect, area))
}

/// The top edge of a rectangle that has to lie in an area.
pub open spec fn clamped_y(rect: Rect, area: Rect) -> int {
    between(rect.top as int, area.top as int, area.bottom - clamped_height(rect, area))
}

/// Whether clamping stays within the range of coordinates.
pub open spec fn clamp_in_range(rect: Rect, area: Rect) -> bool {
    &&& rect.measurable()
    &&& area.measurable()
    &&& geometry::fits_i32(area.right - clamped_width(rect, area))
    &&& geometry::fits_i32(area.bottom - clamped_height(rect, area))
    &&& geometry::fits_i32(clamped_x(rect, area) + clamped_width(rect, area))
    &&& geometry::fits_i32(clamped_y(rect, area) + clamped_height(rect, area))
}

/// A rectangle moved into an area. Its size is kept as far as it fits.
pub open spec fn clamped(rect: Rect, area: Rect) -> Rect {
    rect_at(
        clamped_x(rect, area),
        clamped_y(rect, area),
        clamped_width(rect, area),
        clamped_height(rect, area),
    )
}

/// Clamps a rectangle so that it stays within the given area.
///
/// A rectangle that is larger than the area is cut down to its size, and
/// its top-left corner is put on that of the area.
pub fn clamp_rect_to_area(rect: &Rect, area: &Rect) -> (r: Rect)
    requires
        clamp_in_range(*rect, *area),
    ensures
        r == clamped(*rect, *area),
{
    let width = if rect.width() <= area.width() {
        rect.width()
    } else {
        area.width()
    };
    let height = if rect.height() <= area.height() {
        rect.height()
    } else {
        area.height()
    };
    let x = if rect.x() < area.x() {
        area.x()
    } else if rect.x() > area.right - width {
        area.right - width
    } else {
        rect.x()
    };
    let y = if rect.y() < area.y() {
        area.y()
    } else if rect.y() > area.bottom - height {
        area.bottom - height
    } else {
        rect.y()
    };
    Rect::from_xy(x, y, width, height)
}

/// A rectangle whose edges are not in reverse order.
pub open spec fn is_upright(rect: Rect) -> bool {
    rect.left <= rect.right && rect.top <= rect.bottom
}

/// Whether a rectangle lies within an area.
pub open spec fn is_inside(rect: Rect, area: Rect) -> bool {
    &&& area.left <= rect.left
    &&& area.top <= rect.top
    &&& rect.right <= area.right
    &&& rect.bottom <= area.bottom
}

/// A clamped rectangle lies within the area, and is as large as before
/// unless the area is smaller than that.
pub proof fn law_clamped_rect_is_inside(rect: Rect, area: Rect)
    requires
        is_upright(rect),
        is_upright(area),
        rect.measurable(),
        area.measurable(),
    ensures
        clamp_in_range(rect, area),
        is_inside(clamped(rect, area), area),
        clamped(rect, area).right - clamped(rect, area).left == least(
            rect.right - rect.left,
            area.right - area.left,
        ),
        clamped(rect, area).bottom - clamped(rect, area).top == least(
            rect.bottom - rect.top,
            area.bottom - area.top,
        ),
{
}

/// A rectangle that lies within the area already is left as it is.
pub proof fn law_clamping_keeps_what_is_inside(rect: Rect, area: Rect)
    requires
        is_upright(rect),
        is_inside(rect, area),
    ensures
        clamped(rect, area) == rect,
{
}

/// Clamping once more changes nothing.
pub proof fn law_clamping_is_idempotent(rect: Rect, area: Rect)
    requires
        is_upright(rect),
        is_upright(area),
        rect.measurable(),
        area.measurable(),
    ensures
        clamped(clamped(rect, area), area) == clamped(rect, area),
{
}

/// The left edge of a resized rectangle.
pub open spec fn anchored_x(rect: Rect, edges: ResizeEdges, width: int) -> int {
    if edges.is_right {
        rect.left as int
    } else {
        rect.right - width
    }
}

/// The top edge of a resized rectangle.
pub open spec fn anchored_y(rect: Rect, edges: ResizeEdges, height: int) -> int {
    if edges.is_bottom {
        rect.top as int
    } else {
        rect.bottom - height
    }
}

/// Whether resizing a rectangle stays within the range of coordinates.
pub open spec fn anchor_in_range(rect: Rect, edges: ResizeEdges, width: int, height: int) -> bool {
    &&& geometry::fits_i32(anchored_x(rect, edges, width))
    &&& geometry::fits_i32(anchored_y(rect, edges, height))
    &&& geometry::fits_i32(anchored_x(rect, edges, width) + width)
    &&& geometry::fits_i32(anchored_y(rect, edges, height) + height)
}

/// A rectangle with a new size, whose edges opposite to the given ones have
/// stayed in place.
pub open spec fn anchored(rect: Rect, edges: ResizeEdges, width: int, height: int) -> Rect {
    rect_at(anchored_x(rect, edges, width), anchored_y(rect, edges, height), width, height)
}

/// Resizes a rectangle, keeping the edges opposite to the dragged ones in
/// place.
pub fn anchored_rect(rect: &Rect, edges: ResizeEdges, width: i32, height: i32) -> (r: Rect)
    requires
        anchor_in_range(*rect, edges, width as int, height as int),
    ensures
        r == anchored(*rect, edges, width as int, height as int),
{
    let x = if edges.is_right {
        rect.left
    } else {
        rect.right - width
    };
    let y = if edges.is_bottom {
        rect.top
    } else {
        rect.bottom - height
    };
    Rect::from_xy(x, y, width, height)
}

/// The edges opposite to the dragged ones stay in place, and the size is the
/// requested one.
pub proof fn law_opposite_edges_stay(rect: Rect, edges: ResizeEdges, width: int, height: int)
    requires
        anchor_in_range(rect, edges, width, height),
    ensures
        ({
            let r = anchored(rect, edges, width, height);
            &&& edges.is_right ==> r.left == rect.left
            &&& !edges.is_right ==> r.right == rect.right
            &&& edges.is_bottom ==> r.top == rect.top
            &&& !edges.is_bottom ==> r.bottom == rect.bottom
            &&& r.right - r.left == width
            &&& r.bottom - r.top == height
        }),
{
}

/// Clamping moves a rectangle no farther than it has to: no other place for
/// the clamped rectangle within the area is closer to where it was.
pub proof fn law_clamping_moves_as_little_as_possible(rect: Rect, area: Rect, x: int, y: int)
    requires
        is_upright(rect),
        is_upright(area),
        rect.measurable(),
        area.measurable(),
        ({
            let r = clamped(rect, area);
            &&& area.left <= x
            &&& area.top <= y
            &&& x + (r.right - r.left) <= area.right
            &&& y + (r.bottom - r.top) <= area.bottom
        }),
    ensures
        ({
            let r = clamped(rect, area);
            &&& rect.left <= r.left ==> r.left - rect.left <= if x >= rect.left {
                x - rect.left
            } else {
                rect.left - x
            }
            &&& r.left <= rect.left ==> rect.left - r.left <= if x >= rect.left {
                x - rect.left
            } else {
                rect.left - x
            }
            &&& rect.top <= r.top ==> r.top - rect.top <= if y >= rect.top {
                y - rect.top
            } else {
                rect.top - y
            }
            &&& r.top <= rect.top ==> rect.top - r.top <= if y >= rect.top {
                y - rect.top
            } else {
                rect.top - y
            }
        }),
{
}

/// A rectangle that is larger than the area covers all of it along that axis.
/// One that sticks out on a side is put against that side.
pub proof fn law_clamping_along_each_axis(rect: Rect, area: Rect)
    requires
        is_upright(rect),
        is_upright(area),
        rect.measurable(),
        area.measurable(),
    ensures
        ({
            let r = clamped(rect, area);
            let width = rect.right - rect.left;
            let height = rect.bottom - rect.top;
            &&& width >= area.right - area.left ==> r.left == area.left && r.right == area.right
            &&& width < area.right - area.left && rect.left < area.left ==> r.left == area.left
                && r.right == area.left + width
            &&& width < area.right - area.left && rect.right > area.right ==> r.right == area.right
                && r.left == area.right - width
            &&& area.left <= rect.left && rect.right <= area.right ==> r.left == rect.left && r.right
                == rect.right
            &&& height >= area.bottom - area.top ==> r.top == area.top && r.bottom == area.bottom
            &&& height < area.bottom - area.top && rect.top < area.top ==> r.top == area.top
                && r.bottom == area.top + height
            &&& height < area.bottom - area.top && rect.bottom > area.bottom ==> r.bottom
                == area.bottom && r.top == area.bottom - height
            &&& area.top <= rect.top && rect.bottom <= area.bottom ==> r.top == rect.top && r.bottom
                == rect.bottom
        }),
{
}

} // verus!
