//! The cursor/viewport state machine: terminal dimensions, the boundary
//! offsets that center the board, and the cursor kept inside the bordered
//! play area.

use vstd::prelude::*;

verus! {

/// What the caller must do after an event has been processed.
pub enum Status {
    /// Move the visible terminal cursor to this column and row.
    MoveCursor(u16, u16),
    /// Stop the session, for the given human-readable reason.
    End(String),
    /// Nothing to do.
    Nothing,
}

/// The viewport and cursor bookkeeping of a running game.
#[derive(Clone, Copy)]
pub struct State {
    pub term_width: u16,
    pub term_height: u16,
    pub boundary_left: u32,
    pub boundary_top: u32,
    pub cursor_column: u16,
    pub cursor_row: u16,
}

/// A sparse update to a [`State`]: only the fields that changed.
pub struct StateUpdate {
    pub term_width: Option<u16>,
    pub term_height: Option<u16>,
    pub cursor_column: Option<u16>,
    pub cursor_row: Option<u16>,
}

impl Default for StateUpdate {
    /// An update that changes nothing.
    fn default() -> (u: StateUpdate)
        ensures
            u.term_width is None,
            u.term_height is None,
            u.cursor_column is None,
            u.cursor_row is None,
    {
        StateUpdate { term_width: None, term_height: None, cursor_column: None, cursor_row: None }
    }
}

/// The offset that centers `dim + 2` bordered columns (or rows) in a
/// viewport of `term` columns (or rows): the ceiling of
/// `(term - dim - 2) / 2`, negative when the viewport is too narrow.
pub open spec fn center_offset(term: int, dim: int) -> int {
    (term - dim - 1) / 2
}

/// Where the cursor snaps back to when it has drifted out of the play
/// band `[bound, bound + dim + 1]`: just inside the near border.
pub open spec fn clamped_cursor(cur: u16, bound: u32, dim: u32) -> int {
    if (cur as int) < bound as int || cur as int > bound as int + dim as int + 1 {
        bound as int + 1
    } else {
        cur as int
    }
}

/// A proposed cursor position is taken only when it lands strictly inside
/// the play band; a proposal on or beyond the border is ignored.
pub open spec fn applied_cursor(clamped: int, proposal: Option<u16>, bound: u32, dim: u32) -> int {
    match proposal {
        Some(p) => {
            if (bound as int) < (p as int) && (p as int) < bound as int + dim as int + 1 {
                p as int
            } else {
                clamped
            }
        },
        None => clamped,
    }
}

/// The cursor clamp, pair by pair: a proposal on either border of the
/// play band is rejected and the cursor stays put, while a proposal
/// strictly inside the band is accepted.
pub proof fn lemma_cursor_clamp(clamped: int, p: u16, bound: u32, dim: u32)
    ensures
        p as int == bound as int || p as int == bound as int + dim as int + 1 ==> applied_cursor(
            clamped,
            Some(p),
            bound,
            dim,
        ) == clamped,
        (bound as int) < (p as int) && (p as int) < bound as int + dim as int + 1 ==> applied_cursor(
            clamped,
            Some(p),
            bound,
            dim,
        ) == p as int,
{
}

/// The state an update record carries a state to: new terminal dimensions
/// applied, a stale cursor repaired against the old boundaries, an
/// in-band cursor proposal taken, and the centering offsets recomputed
/// last -- left untouched where the viewport is too small.
pub open spec fn update_state(pre: State, width: u32, height: u32, u: StateUpdate) -> State {
    let tw = match u.term_width {
        Some(t) => t,
        None => pre.term_width,
    };
    let th = match u.term_height {
        Some(t) => t,
        None => pre.term_height,
    };
    let cc = applied_cursor(
        clamped_cursor(pre.cursor_column, pre.boundary_left, width),
        u.cursor_column,
        pre.boundary_left,
        width,
    );
    let cr = applied_cursor(
        clamped_cursor(pre.cursor_row, pre.boundary_top, height),
        u.cursor_row,
        pre.boundary_top,
        height,
    );
    let bl = center_offset(tw as int, width as int);
    let bt = center_offset(th as int, height as int);
    State {
        term_width: tw,
        term_height: th,
        cursor_column: cc as u16,
        cursor_row: cr as u16,
        boundary_left: if bl < 0 { pre.boundary_left } else { bl as u32 },
        boundary_top: if bl < 0 || bt < 0 { pre.boundary_top } else { bt as u32 },
    }
}

/// Whether an update succeeds: both centering offsets come out
/// non-negative, so the bordered board fits the viewport.
pub open spec fn update_ok(pre: State, width: u32, height: u32, u: StateUpdate) -> bool {
    let tw = match u.term_width {
        Some(t) => t,
        None => pre.term_width,
    };
    let th = match u.term_height {
        Some(t) => t,
        None => pre.term_height,
    };
    center_offset(tw as int, width as int) >= 0 && center_offset(th as int, height as int) >= 0
}

impl State {
    /// The boundary offsets stay small enough that clamp arithmetic fits:
    /// an offset computed from a `u16` viewport never exceeds this.
    pub open spec fn wf(self) -> bool {
        self.boundary_left <= 0x7ffe && self.boundary_top <= 0x7ffe
    }

    /// The all-zero state a fresh game starts from.
    pub fn new() -> (s: State)
        ensures
            s.term_width == 0,
            s.term_height == 0,
            s.boundary_left == 0,
            s.boundary_top == 0,
            s.cursor_column == 0,
            s.cursor_row == 0,
            s.wf(),
    {
        State {
            term_width: 0,
            term_height: 0,
            boundary_left: 0,
            boundary_top: 0,
            cursor_column: 0,
            cursor_row: 0,
        }
    }

    /// Processes one update record: applies new terminal dimensions,
    /// repairs a stale cursor, takes an in-band cursor proposal, then
    /// recomputes the centering offsets, failing when the viewport cannot
    /// fit the bordered board.
    pub fn update(&mut self, width: u32, height: u32, update: StateUpdate) -> (status: Status)
        requires
            old(self).wf(),
            1 <= width,
            1 <= height,
        ensures
            final(self).wf(),
            *final(self) == update_state(*old(self), width, height, update),
            update_ok(*old(self), width, height, update) ==> (status matches Status::MoveCursor(
                a,
                b,
            ) && a == final(self).cursor_column && b == final(self).cursor_row),
            !update_ok(*old(self), width, height, update) ==> (status matches Status::End(m) && m@
                == "Game window too small! Aborting"@),
    {
        if let Some(tw) = update.term_width {
            self.term_width = tw;
        }
        if let Some(th) = update.term_height {
            self.term_height = th;
        }
        if (self.cursor_column as u64) < self.boundary_left as u64 || (self.cursor_column as u64)
            > self.boundary_left as u64 + width as u64 + 1 {
            self.cursor_column = (self.boundary_left + 1) as u16;
        }
        if (self.cursor_row as u64) < self.boundary_top as u64 || (self.cursor_row as u64)
            > self.boundary_top as u64 + height as u64 + 1 {
            self.cursor_row = (self.boundary_top + 1) as u16;
        }
        if let Some(cc) = update.cursor_column {
            if (cc as u64) > self.boundary_left as u64 && (cc as u64) < self.boundary_left as u64
                + width as u64 + 1 {
                self.cursor_column = cc;
            }
        }
        if let Some(cr) = update.cursor_row {
            if (cr as u64) > self.boundary_top as u64 && (cr as u64) < self.boundary_top as u64
                + height as u64 + 1 {
                self.cursor_row = cr;
            }
        }
        if (self.term_width as u32) <= width {
            return Status::End("Game window too small! Aborting".to_owned());
        }
        self.boundary_left = (self.term_width as u32 - width - 1) / 2;
        if (self.term_height as u32) <= height {
            return Status::End("Game window too small! Aborting".to_owned());
        }
        self.boundary_top = (self.term_height as u32 - height - 1) / 2;
        Status::MoveCursor(self.cursor_column, self.cursor_row)
    }
}

} // verus!
