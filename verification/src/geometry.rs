//! The multi-monitor geometry calculator: the minimal axis-aligned rectangle
//! covering an arbitrary set of monitors, in the physical-pixel coordinate
//! space that describes monitor positions and sizes.

use vstd::prelude::*;

verus! {

/// One monitor, as the host window layer reports it: position of its
/// top-left corner (signed: a monitor may sit left of or above the primary
/// one) and its size in physical pixels.
#[derive(Debug, Clone, Copy, PartialEq, Eq, Structural)]
pub struct MonitorDescriptor {
    pub x: i32,
    pub y: i32,
    pub width: u32,
    pub height: u32,
}

/// The minimal axis-aligned rectangle covering a set of monitors; consumed
/// by the host to size and position the overlay window.
#[derive(Debug, Clone, Copy, PartialEq, Eq, Structural)]
pub struct BoundingRect {
    pub x: i32,
    pub y: i32,
    pub width: u32,
    pub height: u32,
}

/// The least left edge over a non-empty set of monitors.
pub open spec fn min_left(s: Seq<MonitorDescriptor>) -> int
    recommends
        s.len() > 0,
    decreases s.len(),
{
    if s.len() <= 1 {
        s[0].x as int
    } else {
        let rest = min_left(s.drop_last());
        let v = s.last().x as int;
        if v < rest {
            v
        } else {
            rest
        }
    }
}

/// The least top edge over a non-empty set of monitors.
pub open spec fn min_top(s: Seq<MonitorDescriptor>) -> int
    recommends
        s.len() > 0,
    decreases s.len(),
{
    if s.len() <= 1 {
        s[0].y as int
    } else {
        let rest = min_top(s.drop_last());
        let v = s.last().y as int;
        if v < rest {
            v
        } else {
            rest
        }
    }
}

/// The greatest right edge (position plus width) over a non-empty set of
/// monitors.
pub open spec fn max_right(s: Seq<MonitorDescriptor>) -> int
    recommends
        s.len() > 0,
    decreases s.len(),
{
    if s.len() <= 1 {
        s[0].x + s[0].width
    } else {
        let rest = max_right(s.drop_last());
        let v = s.last().x + s.last().width;
        if v > rest {
            v
        } else {
            rest
        }
    }
}

/// The greatest bottom edge (position plus height) over a non-empty set of
/// monitors.
pub open spec fn max_bottom(s: Seq<MonitorDescriptor>) -> int
    recommends
        s.len() > 0,
    decreases s.len(),
{
    if s.len() <= 1 {
        s[0].y + s[0].height
    } else {
        let rest = max_bottom(s.drop_last());
        let v = s.last().y + s.last().height;
        if v > rest {
            v
        } else {
            rest
        }
    }
}

/// Compute the bounding rectangle of a set of monitors.
///
/// An empty set has no bounds. Otherwise the origin is the least left and
/// top edge over the monitors and the size spans to their greatest right and
/// bottom edge; duplicate or overlapping monitors need no tie-break, since
/// minima and maxima are insensitive to them. A span too wide for the
/// rectangle's unsigned pixel fields likewise yields no bounds, so the
/// caller leaves the window geometry untouched.
pub fn compute_bounds(monitors: &Vec<MonitorDescriptor>) -> (r: Option<BoundingRect>)
    ensures
        monitors@.len() == 0 ==> r is None,
        monitors@.len() > 0 ==> {
            let ox = min_left(monitors@);
            let oy = min_top(monitors@);
            let w = max_right(monitors@) - ox;
            let h = max_bottom(monitors@) - oy;
            if w <= u32::MAX && h <= u32::MAX {
                r == Some(
                    (BoundingRect {
                        x: ox as i32,
                        y: oy as i32,
                        width: w as u32,
                        height: h as u32,
                    }),
                )
            } else {
                r is None
            }
        },
{
    if monitors.len() == 0 {
        return None;
    }
    let first = monitors[0];
    let mut left: i32 = first.x;
    let mut top: i32 = first.y;
    let mut right: i64 = first.x as i64 + first.width as i64;
    let mut bottom: i64 = first.y as i64 + first.height as i64;
    proof {
        assert(monitors@.take(1)[0] == monitors@[0]);
    }
    let mut i: usize = 1;
    while i < monitors.len()
        invariant
            1 <= i <= monitors@.len(),
            left as int == min_left(monitors@.take(i as int)),
            top as int == min_top(monitors@.take(i as int)),
            right as int == max_right(monitors@.take(i as int)),
            bottom as int == max_bottom(monitors@.take(i as int)),
            left as int <= right as int <= i32::MAX + u32::MAX,
            top as int <= bottom as int <= i32::MAX + u32::MAX,
        decreases monitors@.len() - i,
    {
        let m = monitors[i];
        if m.x < left {
            left = m.x;
        }
        if m.y < top {
            top = m.y;
        }
        let m_right = m.x as i64 + m.width as i64;
        if m_right > right {
            right = m_right;
        }
        let m_bottom = m.y as i64 + m.height as i64;
        if m_bottom > bottom {
            bottom = m_bottom;
        }
        proof {
            assert(monitors@.take(i as int + 1).drop_last() =~= monitors@.take(i as int));
            assert(monitors@.take(i as int + 1).last() == monitors@[i as int]);
        }
        i = i + 1;
    }
    proof {
        assert(monitors@.take(monitors@.len() as int) =~= monitors@);
    }
    let width = right - left as i64;
    let height = bottom - top as i64;
    if width <= u32::MAX as i64 && height <= u32::MAX as i64 {
        Some(BoundingRect { x: left, y: top, width: width as u32, height: height as u32 })
    } else {
        None
    }
}

} // verus!
