//! Scroll position and dimensions of the visible content area.
use vstd::prelude::*;

verus! {

/// Manages scroll position and dimensions for the visible content area.
#[derive(Debug)]
pub struct Viewport {
    /// Vertical scroll offset (0 = top of content).
    pub scroll_y: u16,
    /// Horizontal scroll offset (0 = left of content).
    pub scroll_x: u16,
    /// Visible rows in the content area.
    pub height: u16,
    /// Visible columns in the content area.
    pub width: u16,
}

impl Default for Viewport {
    fn default() -> (v: Viewport)
        ensures
            v.scroll_y == 0 && v.scroll_x == 0 && v.height == 0 && v.width == 0,
    {
        Viewport { scroll_y: 0, scroll_x: 0, height: 0, width: 0 }
    }
}

/// The smaller of two `u16`.
pub open spec fn min16(a: u16, b: u16) -> u16 {
    if a <= b {
        a
    } else {
        b
    }
}

/// The largest vertical offset for `total_rows` rows in a view `height` rows
/// tall: the offset whose view ends at the last row (a view of no height
/// counts as one row), 0 when all rows fit, saturated at `u16::MAX`.
pub open spec fn y_max(total_rows: usize, height: u16) -> u16 {
    let h: usize = if height == 0 {
        1
    } else {
        height as usize
    };
    let m = total_rows.saturating_sub(h);
    if m <= u16::MAX as usize {
        m as u16
    } else {
        u16::MAX
    }
}

/// The largest horizontal offset for content `max_content_width` columns wide
/// in a view `width` columns wide.
pub open spec fn x_max(max_content_width: u16, width: u16) -> u16 {
    max_content_width.saturating_sub(width)
}

/// The vertical offset after `n` steps down from `y`.
pub open spec fn down_n(y: u16, total_rows: usize, height: u16, n: nat) -> u16
    decreases n,
{
    if n == 0 {
        y
    } else {
        down_n(min16(y.saturating_add(1), y_max(total_rows, height)), total_rows, height, (n - 1) as nat)
    }
}

/// The horizontal offset after `n` steps of `cols` columns right from `x`.
pub open spec fn right_n(x: u16, cols: u16, max_content_width: u16, width: u16, n: nat) -> u16
    decreases n,
{
    if n == 0 {
        x
    } else {
        right_n(
            min16(x.saturating_add(cols), x_max(max_content_width, width)),
            cols,
            max_content_width,
            width,
            (n - 1) as nat,
        )
    }
}

impl Viewport {
    /// Maximum vertical scroll offset that keeps content bottom at or below viewport bottom.
    pub fn scroll_y_max(&self, total_rows: usize) -> (r: u16)
        ensures
            r == y_max(total_rows, self.height),
    {
        let h: usize = if self.height == 0 {
            1
        } else {
            self.height as usize
        };
        let m = total_rows.saturating_sub(h);
        if m <= u16::MAX as usize {
            m as u16
        } else {
            u16::MAX
        }
    }

    /// Clamp scroll position to valid bounds after a resize or content change.
    pub fn clamp(&mut self, total_rows: usize, max_content_width: u16)
        ensures
            final(self).scroll_y == min16(old(self).scroll_y, y_max(total_rows, old(self).height)),
            final(self).scroll_x == min16(old(self).scroll_x, x_max(max_content_width, old(self).width)),
            final(self).height == old(self).height,
            final(self).width == old(self).width,
    {
        let m = self.scroll_y_max(total_rows);
        self.scroll_y = if self.scroll_y <= m { self.scroll_y } else { m };
        let mx = max_content_width.saturating_sub(self.width);
        self.scroll_x = if self.scroll_x <= mx { self.scroll_x } else { mx };
    }

    /// Scroll down by one line, clamped.
    pub fn scroll_down(&mut self, total_rows: usize)
        ensures
            final(self).scroll_y == min16(old(self).scroll_y.saturating_add(1), y_max(total_rows, old(self).height)),
            final(self).scroll_x == old(self).scroll_x,
            final(self).height == old(self).height,
            final(self).width == old(self).width,
    {
        let next = self.scroll_y.saturating_add(1);
        let m = self.scroll_y_max(total_rows);
        self.scroll_y = if next <= m { next } else { m };
    }

    /// Scroll up by one line, clamped.
    pub fn scroll_up(&mut self)
        ensures
            final(self).scroll_y == old(self).scroll_y.saturating_sub(1),
            final(self).scroll_x == old(self).scroll_x,
            final(self).height == old(self).height,
            final(self).width == old(self).width,
    {
        self.scroll_y = self.scroll_y.saturating_sub(1);
    }

    /// Jump to top.
    pub fn scroll_to_top(&mut self)
        ensures
            final(self).scroll_y == 0,
            final(self).scroll_x == old(self).scroll_x,
            final(self).height == old(self).height,
            final(self).width == old(self).width,
    {
        self.scroll_y = 0;
    }

    /// Jump to bottom, clamped.
    pub fn scroll_to_bottom(&mut self, total_rows: usize)
        ensures
            final(self).scroll_y == y_max(total_rows, old(self).height),
            final(self).scroll_x == old(self).scroll_x,
            final(self).height == old(self).height,
            final(self).width == old(self).width,
    {
        self.scroll_y = self.scroll_y_max(total_rows);
    }

    /// Scroll right by `cols` columns, clamped.
    pub fn scroll_right(&mut self, cols: u16, max_content_width: u16)
        ensures
            final(self).scroll_x == min16(old(self).scroll_x.saturating_add(cols), x_max(max_content_width, old(self).width)),
            final(self).scroll_y == old(self).scroll_y,
            final(self).height == old(self).height,
            final(self).width == old(self).width,
    {
        let next = self.scroll_x.saturating_add(cols);
        let m = max_content_width.saturating_sub(self.width);
        self.scroll_x = if next <= m { next } else { m };
    }

    /// Scroll left by `cols` columns, clamped.
    pub fn scroll_left(&mut self, cols: u16)
        ensures
            final(self).scroll_x == old(self).scroll_x.saturating_sub(cols),
            final(self).scroll_y == old(self).scroll_y,
            final(self).height == old(self).height,
            final(self).width == old(self).width,
    {
        self.scroll_x = self.scroll_x.saturating_sub(cols);
    }

    /// Jump to left edge.
    pub fn scroll_to_left(&mut self)
        ensures
            final(self).scroll_x == 0,
            final(self).scroll_y == old(self).scroll_y,
            final(self).height == old(self).height,
            final(self).width == old(self).width,
    {
        self.scroll_x = 0;
    }

    /// Jump to right edge, clamped.
    pub fn scroll_to_right(&mut self, max_content_width: u16)
        ensures
            final(self).scroll_x == x_max(max_content_width, old(self).width),
            final(self).scroll_y == old(self).scroll_y,
            final(self).height == old(self).height,
            final(self).width == old(self).width,
    {
        self.scroll_x = max_content_width.saturating_sub(self.width);
    }
}

/// Scrolling to the bottom is where repeated scrolling down ends: enough
/// steps down from any offset reach the largest offset and stay there.
pub proof fn law_bottom_is_limit_of_down(y: u16, total_rows: usize, height: u16, n: nat)
    requires
        n >= y_max(total_rows, height) - y,
        n >= 1 || y <= y_max(total_rows, height),
    ensures
        down_n(y, total_rows, height, n) == y_max(total_rows, height),
    decreases n,
{
    let m = y_max(total_rows, height);
    if n > 0 {
        let y1 = min16(y.saturating_add(1), m);
        if y >= m {
            assert(y1 == m);
        } else {
            assert(y1 == y + 1);
        }
        law_bottom_is_limit_of_down(y1, total_rows, height, (n - 1) as nat);
    }
}

/// Scrolling to the right edge is where repeated scrolling right ends:
/// enough steps of a positive width from any offset reach the largest offset
/// and stay there.
pub proof fn law_right_edge_is_limit_of_right(x: u16, cols: u16, max_content_width: u16, width: u16, n: nat)
    requires
        cols > 0,
        n * cols >= x_max(max_content_width, width) - x,
        n >= 1 || x <= x_max(max_content_width, width),
    ensures
        right_n(x, cols, max_content_width, width, n) == x_max(max_content_width, width),
    decreases n,
{
    let m = x_max(max_content_width, width);
    if n > 0 {
        let x1 = min16(x.saturating_add(cols), m);
        let k = (n - 1) as nat;
        assert(n * cols == k * cols + cols) by (nonlinear_arith)
            requires
                k == n - 1,
        ;
        assert(k * cols >= 0) by (nonlinear_arith);
        if x as int + cols as int >= m {
            assert(x1 == m);
        } else {
            assert(x1 == x + cols);
        }
        law_right_edge_is_limit_of_right(x1, cols, max_content_width, width, k);
    } else {
        assert(n * cols == 0) by (nonlinear_arith)
            requires
                n == 0,
        ;
    }
}

} // verus!
