//! The view model and the text-level pieces of the renderer.
//!
//! Rendering itself is a pure function of this model: the slot list, the
//! state of each slot, the selection and the animation tick.  Drawing to
//! the terminal happens outside; here live the parts with content worth
//! stating — selection clamping and synchronisation, the status labels,
//! the spinner frame and the header line.

use std::collections::HashMap;

use vstd::prelude::*;

use crate::state::WindowState;
use crate::text::dec_str;
use crate::tmux::WindowInfo;

verus! {

/// The view model of one frame: what the renderer reads, owned by the
/// live-view loop and recomputed every tick.
pub struct SidebarWidget {
    /// The visible slots, in display order.
    pub windows: Vec<WindowInfo>,
    /// The resolved state of each slot, keyed by slot identifier.
    pub states: HashMap<u32, WindowState>,
    /// The selected row.
    pub selected: usize,
    /// The animation tick.
    pub tick: u64,
}

impl SidebarWidget {
    /// The selection always points at a row, except that an empty list
    /// pins it to zero.
    pub open spec fn wf(&self) -> bool {
        if self.windows@.len() == 0 {
            self.selected == 0
        } else {
            self.selected < self.windows@.len()
        }
    }
}

/// The refresh cadence: every this many ticks the slot list is
/// re-queried from the host; states are re-resolved every tick either
/// way.
pub const REFRESH_EVERY: u64 = 2;

/// Is this a tick on which the slot list is re-queried?
pub fn should_refresh(tick: u64) -> (r: bool)
    ensures
        r == (tick % REFRESH_EVERY == 0),
{
    tick % REFRESH_EVERY == 0
}

/// Where the selection lands after the slot list changed: an index past
/// the end snaps to the last valid row, and an empty list pins it to
/// zero.
pub open spec fn clamp_spec(selected: int, count: int) -> int {
    if count == 0 {
        0
    } else if selected >= count {
        count - 1
    } else {
        selected
    }
}

/// Clamp the selection into the new slot count.
pub fn clamp_selection(selected: usize, count: usize) -> (r: usize)
    ensures
        r == clamp_spec(selected as int, count as int),
        count == 0 ==> r == 0,
        count > 0 ==> r < count,
{
    if count == 0 {
        0
    } else if selected >= count {
        count - 1
    } else {
        selected
    }
}

/// The row the host reports as active: the first active slot, or zero
/// when none is marked active.
pub open spec fn active_row(ws: Seq<WindowInfo>) -> int
    decreases ws.len(),
{
    active_row_from(ws, 0)
}

pub open spec fn active_row_from(ws: Seq<WindowInfo>, i: int) -> int
    decreases ws.len() - i,
{
    if i < 0 || i >= ws.len() {
        0
    } else if ws[i].is_active {
        i
    } else {
        active_row_from(ws, i + 1)
    }
}

/// Resynchronise the selection from the host's notion of focus: the
/// first slot the host marks active, or row zero.
pub fn sync_selection(windows: &Vec<WindowInfo>) -> (r: usize)
    ensures
        r == active_row(windows@),
        windows@.len() > 0 ==> r < windows@.len(),
        windows@.len() == 0 ==> r == 0,
{
    let n = windows.len();
    let mut i: usize = 0;
    while i < n
        invariant
            n == windows@.len(),
            i <= n,
            active_row(windows@) == active_row_from(windows@, i as int),
        decreases n - i,
    {
        if windows[i].is_active {
            return i;
        }
        i = i + 1;
    }
    0
}

/// The status label shown beside a slot's name.  `Working` shows a
/// spinner instead, and a fresh slot shows nothing.
pub open spec fn status_text_spec(state: WindowState) -> Seq<char> {
    match state {
        WindowState::Working => ""@,
        WindowState::Asking => "waiting\u{2026}"@,
        WindowState::Idle => "ready"@,
        WindowState::Done => "done"@,
        WindowState::Fresh => ""@,
    }
}

/// The status label shown beside a slot's name.
pub fn status_text(state: WindowState) -> (r: &'static str)
    ensures
        r@ == status_text_spec(state),
{
    match state {
        WindowState::Working => "",
        WindowState::Asking => "waiting\u{2026}",
        WindowState::Idle => "ready",
        WindowState::Done => "done",
        WindowState::Fresh => "",
    }
}

/// The spinner glyph for an animation tick; ten frames, repeating.
pub open spec fn spinner_spec(tick: u64) -> char {
    let f = tick % 10;
    if f == 0 {
        '\u{280b}'
    } else if f == 1 {
        '\u{2819}'
    } else if f == 2 {
        '\u{2839}'
    } else if f == 3 {
        '\u{2838}'
    } else if f == 4 {
        '\u{283c}'
    } else if f == 5 {
        '\u{2834}'
    } else if f == 6 {
        '\u{2826}'
    } else if f == 7 {
        '\u{2827}'
    } else if f == 8 {
        '\u{2807}'
    } else {
        '\u{280f}'
    }
}

/// The spinner glyph for an animation tick.
pub fn spinner_frame(tick: u64) -> (r: char)
    ensures
        r == spinner_spec(tick),
{
    let f = tick % 10;
    if f == 0 {
        '\u{280b}'
    } else if f == 1 {
        '\u{2819}'
    } else if f == 2 {
        '\u{2839}'
    } else if f == 3 {
        '\u{2838}'
    } else if f == 4 {
        '\u{283c}'
    } else if f == 5 {
        '\u{2834}'
    } else if f == 6 {
        '\u{2826}'
    } else if f == 7 {
        '\u{2827}'
    } else if f == 8 {
        '\u{2807}'
    } else {
        '\u{280f}'
    }
}

/// The blank run that right-aligns a status label against the legend
/// column; zero when the row is already too wide.
pub fn status_pad(right_col: usize, name_width: usize, status_width: usize) -> (r: usize)
    ensures
        name_width + status_width <= right_col ==> r == right_col - (name_width + status_width),
        name_width + status_width > right_col ==> r == 0,
{
    if name_width > right_col {
        return 0;
    }
    let rest = right_col - name_width;
    if status_width > rest {
        0
    } else {
        rest - status_width
    }
}

/// The header line: the session count with a plural mark.
pub fn header_text(count: u64) -> (r: String)
    ensures
        r@ == dec_str(count as int) + (if count == 1 {
            " session"@
        } else {
            " sessions"@
        }),
{
    let mut s = crate::text::u64_to_string(count);
    if count == 1 {
        s.append(" session");
    } else {
        s.append(" sessions");
    }
    s
}

} // verus!
