//! Placement of dialogs on the screen.
use vstd::prelude::*;

verus! {

/// A rectangle of terminal cells.
#[derive(Debug, Clone, Copy, PartialEq, Eq, Structural)]
pub struct Rect {
    pub x: u16,
    pub y: u16,
    pub width: u16,
    pub height: u16,
}

/// A `width` by `height` rectangle centred in `area`, clipped to it.
pub fn centered_rect(width: u16, height: u16, area: Rect) -> (r: Rect)
    requires
        area.x + area.width <= u16::MAX,
        area.y + area.height <= u16::MAX,
    ensures
        r.x == area.x + (if area.width >= width { (area.width - width) / 2 } else { 0 }),
        r.y == area.y + (if area.height >= height { (area.height - height) / 2 } else { 0 }),
        r.width == if width <= area.width { width } else { area.width },
        r.height == if height <= area.height { height } else { area.height },
{
    let dx = area.width.saturating_sub(width) / 2;
    let dy = area.height.saturating_sub(height) / 2;
    Rect {
        x: area.x + dx,
        y: area.y + dy,
        width: if width <= area.width { width } else { area.width },
        height: if height <= area.height { height } else { area.height },
    }
}

/// The centred rectangle lies inside the area.
pub proof fn law_centered_rect_inside(width: u16, height: u16, area: Rect)
    requires
        area.x + area.width <= u16::MAX,
        area.y + area.height <= u16::MAX,
    ensures
        ({
            let dx: int = if area.width >= width { (area.width - width) / 2 } else { 0 };
            let w: int = if width <= area.width { width as int } else { area.width as int };
            area.x + dx + w <= area.x + area.width
        }),
{
}

} // verus!
