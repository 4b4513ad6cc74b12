//! Screen rectangles, and the two calls into ratatui's layout that the sidebar makes.

use vstd::prelude::*;

verus! {

/// A rectangle of terminal cells.
#[derive(Clone, Copy, Debug, PartialEq, Eq, Structural)]
pub struct Rect {
    pub x: u16,
    pub y: u16,
    pub width: u16,
    pub height: u16,
}

/// `u16::saturating_add`.
pub open spec fn sat_add(a: u16, b: u16) -> u16 {
    if a + b > u16::MAX {
        u16::MAX
    } else {
        (a + b) as u16
    }
}

/// `u16::saturating_sub`.
pub open spec fn sat_sub(a: u16, b: u16) -> u16 {
    if a < b {
        0
    } else {
        (a - b) as u16
    }
}

/// The rectangle `ratatui::layout::Rect::new` builds: width and height are clamped so
/// that the right and bottom edges fit in `u16`.
pub open spec fn clamped_rect(x: u16, y: u16, width: u16, height: u16) -> Rect {
    Rect {
        x,
        y,
        width: if width > u16::MAX - x {
            (u16::MAX - x) as u16
        } else {
            width
        },
        height: if height > u16::MAX - y {
            (u16::MAX - y) as u16
        } else {
            height
        },
    }
}

impl Rect {
    /// The empty rectangle at the origin.
    pub fn zero() -> (r: Rect)
        ensures
            r == (Rect { x: 0, y: 0, width: 0, height: 0 }),
    {
        Rect { x: 0, y: 0, width: 0, height: 0 }
    }

    /// Whether the rectangle covers no cell.
    pub fn is_empty(&self) -> (b: bool)
        ensures
            b == (self.width == 0 || self.height == 0),
    {
        self.width == 0 || self.height == 0
    }
}

/// `ratatui::layout::Rect::new`: its source clamps `width` to `u16::MAX - x` and
/// `height` to `u16::MAX - y`, and keeps `x` and `y`.
#[verifier::external_body]
pub(crate) fn rect_new(x: u16, y: u16, width: u16, height: u16) -> (r: Rect)
    ensures
        r == clamped_rect(x, y, width, height),
{
    let r = ratatui::layout::Rect::new(x, y, width, height);
    Rect { x: r.x, y: r.y, width: r.width, height: r.height }
}

/// `ratatui::widgets::Block::inner` for a default block with only a left border: its
/// source moves `x` one cell right (not past the right edge) and narrows the width by
/// one, and keeps `y` and `height`.
#[verifier::external_body]
pub(crate) fn left_bordered_block_inner(area: Rect) -> (r: Rect)
    ensures
        r.x == (if sat_add(area.x, 1) < sat_add(area.x, area.width) {
            sat_add(area.x, 1)
        } else {
            sat_add(area.x, area.width)
        }),
        r.width == sat_sub(area.width, 1),
        r.y == area.y,
        r.height == area.height,
{
    let block = ratatui::widgets::Block::default().borders(ratatui::widgets::Borders::LEFT);
    let inner = block.inner(
        ratatui::layout::Rect { x: area.x, y: area.y, width: area.width, height: area.height },
    );
    Rect { x: inner.x, y: inner.y, width: inner.width, height: inner.height }
}

} // verus!
