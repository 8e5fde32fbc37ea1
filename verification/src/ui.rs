//! Viewport scroll geometry.
//!
//! A listing of `total` entries is shown through a window of
//! `visible_height` rows.  The window trails the selection: once the
//! listing overflows, the selected row is always the last visible row,
//! and the window never jumps further than necessary.

use vstd::prelude::*;

verus! {

/// Number of listing rows that fit inside a bordered pane of the given
/// height: two rows are lost to the border, and the result is never zero.
pub open spec fn spec_visible_rows(height: u16) -> usize {
    if height <= 2 {
        1
    } else {
        (height - 2) as usize
    }
}

/// Effective window height: a non-positive height is treated as one row.
pub open spec fn effective_height(visible_height: usize) -> usize {
    if visible_height == 0 {
        1
    } else {
        visible_height
    }
}

/// Index of the first entry shown in the viewport.
pub open spec fn spec_scroll_offset(total: usize, selected: usize, visible_height: usize) -> usize {
    let h = effective_height(visible_height);
    if total <= h {
        0
    } else if selected >= h - 1 {
        (selected - (h - 1)) as usize
    } else {
        0
    }
}

pub fn visible_rows(height: u16) -> (rows: usize)
    ensures
        rows == spec_visible_rows(height),
        rows >= 1,
{
    if height <= 2 {
        1
    } else {
        (height - 2) as usize
    }
}

/// Maps the listing length, the selected index and the window height to
/// the scroll offset and the highlight position inside the window.
///
/// When the selection is in range, the highlight stays inside the window
/// and the offset and the highlight together recover the selection.
pub fn scroll(total: usize, selected: usize, visible_height: usize) -> (r: (usize, usize))
    ensures
        r.0 == spec_scroll_offset(total, selected, visible_height),
        r.0 <= selected,
        r.1 == selected - r.0,
        selected < total ==> r.1 < effective_height(visible_height),
        selected < total ==> r.1 < total,
{
    let h: usize = if visible_height == 0 {
        1
    } else {
        visible_height
    };
    let offset: usize = if total <= h {
        0
    } else if selected >= h - 1 {
        selected - (h - 1)
    } else {
        0
    };
    (offset, selected - offset)
}

} // verus!
