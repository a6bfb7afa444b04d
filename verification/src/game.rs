//! The game aggregate and its state machine: board, mine list, viewport
//! state, and the operations that process one input event at a time.

use vstd::prelude::*;
use crate::board::spec_generate;
use crate::board::generate_map;
use crate::grid::col_of;
use crate::grid::contains_u32;
use crate::grid::get_coord_vec;
use crate::grid::lemma_cell_index;
use crate::grid::mine_at;
use crate::grid::row_of;
use crate::sweep::flood;
use crate::sweep::idx_set;
use crate::sweep::minesweeper;
use crate::tile::Tile;
use crate::tile::TileState;
use crate::tile::TileType;
use crate::view::State;
use crate::view::StateUpdate;
use crate::view::Status;

verus! {

/// A key press, already decoded by the caller's event source.
pub enum KeyInput {
    Left,
    Right,
    Up,
    Down,
    Enter,
    Character(char),
    Escape,
    Other,
}

/// A mouse button, as far as the game distinguishes them.
pub enum MouseButtonInput {
    LeftButton,
    RightButton,
    OtherButton,
}

/// A mouse event: a button pressed at an absolute terminal column and
/// row, or anything else, which the game ignores.
pub enum MouseInput {
    Press(MouseButtonInput, u16, u16),
    Other,
}

/// A full game: the board, the mine indices, the dimensions, the
/// viewport/cursor state, and whether the first dig has happened.
pub struct Game {
    pub map: Vec<Tile>,
    pub mines: Vec<u32>,
    pub width: u32,
    pub height: u32,
    pub state: State,
    pub not_first_mine: bool,
}

impl Game {
    /// Positive dimensions whose product fits the index type, and sane
    /// viewport offsets.
    pub open spec fn wf(self) -> bool {
        &&& 1 <= self.width
        &&& 1 <= self.height
        &&& self.width as int * self.height as int <= u32::MAX
        &&& self.state.wf()
    }

    /// The board has been generated: one well-formed tile per cell.
    pub open spec fn map_ready(self) -> bool {
        &&& self.map@.len() == self.width as int * self.height as int
        &&& forall|i: int| 0 <= i < self.map@.len() ==> self.map@[i].wf()
    }

    /// Every listed mine index lies on the board.
    pub open spec fn mines_ok(self) -> bool {
        forall|k: int|
            0 <= k < self.mines@.len() ==> (self.mines@[k] as int) < self.width as int
                * self.height as int
    }

    /// The cursor sits strictly inside the bordered play area, so it
    /// denotes a board tile.
    pub open spec fn cursor_in_board(self) -> bool {
        &&& (self.state.boundary_left as int) < (self.state.cursor_column as int)
        &&& (self.state.cursor_column as int) <= self.state.boundary_left as int
            + self.width as int
        &&& (self.state.boundary_top as int) < (self.state.cursor_row as int)
        &&& (self.state.cursor_row as int) <= self.state.boundary_top as int + self.height as int
    }

    /// The board column the cursor points at.
    pub open spec fn cursor_col(self) -> int {
        self.state.cursor_column as int - self.state.boundary_left as int - 1
    }

    /// The board row the cursor points at.
    pub open spec fn cursor_row_rel(self) -> int {
        self.state.cursor_row as int - self.state.boundary_top as int - 1
    }

    /// The linear board index the cursor points at.
    pub open spec fn cursor_index(self) -> int {
        self.cursor_row_rel() * self.width as int + self.cursor_col()
    }

    /// A fresh game of the given dimensions: empty board and mine list,
    /// all-zero viewport state, first dig still pending.
    pub fn new(width: u32, height: u32) -> (game: Game)
        requires
            1 <= width,
            1 <= height,
            width as int * height as int <= u32::MAX,
        ensures
            game.width == width,
            game.height == height,
            game.map@.len() == 0,
            game.mines@.len() == 0,
            game.state.term_width == 0,
            game.state.term_height == 0,
            game.state.boundary_left == 0,
            game.state.boundary_top == 0,
            game.state.cursor_column == 0,
            game.state.cursor_row == 0,
            !game.not_first_mine,
            game.wf(),
            game.mines_ok(),
    {
        Game {
            map: Vec::new(),
            mines: Vec::new(),
            width,
            height,
            state: State::new(),
            not_first_mine: false,
        }
    }

    /// Draws `mine_count` uniformly random board indices, duplicates
    /// allowed, and regenerates the board from them.  Must run before
    /// play.
    pub fn new_map(&mut self, mine_count: u32)
        requires
            old(self).wf(),
        ensures
            final(self).width == old(self).width,
            final(self).height == old(self).height,
            final(self).state == old(self).state,
            final(self).not_first_mine == old(self).not_first_mine,
            final(self).mines@.len() == mine_count,
            final(self).map@ == spec_generate(
                final(self).mines@,
                old(self).width as int,
                old(self).height as int,
            ),
            final(self).wf(),
            final(self).map_ready(),
            final(self).mines_ok(),
    {
        proof {
            assert(1 <= self.width as int * self.height as int) by (nonlinear_arith)
                requires
                    1 <= self.width,
                    1 <= self.height,
            ;
        }
        let area = self.width * self.height;
        let mut mines: Vec<u32> = Vec::new();
        let mut i: u32 = 0;
        while i < mine_count
            invariant
                i <= mine_count,
                mines@.len() == i,
                area == self.width * self.height,
                1 <= area,
                forall|k: int| 0 <= k < i ==> (mines@[k] as int) < area as int,
            decreases mine_count - i,
        {
            let draw = random_u32() % area;
            mines.push(draw);
            i += 1;
        }
        self.mines = mines;
        self.map = generate_map(self.width, self.height, &self.mines);
        proof {
            assert forall|j: int| 0 <= j < self.map@.len() implies self.map@[j].wf() by {
                crate::board::lemma_gen_tile_wf(
                    self.mines@,
                    self.width as int,
                    self.height as int,
                    j,
                );
            }
        }
    }

    /// Records new terminal dimensions and recomputes the centering
    /// offsets and cursor clamp.
    pub fn resize(&mut self, columns: u16, rows: u16) -> (status: Status)
        requires
            old(self).wf(),
        ensures
            final(self).map == old(self).map,
            final(self).mines == old(self).mines,
            final(self).width == old(self).width,
            final(self).height == old(self).height,
            final(self).not_first_mine == old(self).not_first_mine,
            final(self).wf(),
            ({
                let u = (StateUpdate {
                    term_width: Some(columns),
                    term_height: Some(rows),
                    cursor_column: None,
                    cursor_row: None,
                });
                &&& final(self).state == crate::view::update_state(
                    old(self).state,
                    old(self).width,
                    old(self).height,
                    u,
                )
                &&& crate::view::update_ok(old(self).state, old(self).width, old(self).height, u)
                    ==> (status matches Status::MoveCursor(a, b) && a
                    == final(self).state.cursor_column && b == final(self).state.cursor_row)
                &&& !crate::view::update_ok(old(self).state, old(self).width, old(self).height, u)
                    ==> (status matches Status::End(m) && m@
                    == "Game window too small! Aborting"@)
            }),
    {
        let width = self.width;
        let height = self.height;
        self.state.update(
            width,
            height,
            StateUpdate {
                term_width: Some(columns),
                term_height: Some(rows),
                cursor_column: None,
                cursor_row: None,
            },
        )
    }
}

/// Relies on `rand::random`: an independent uniformly distributed value;
/// nothing is assumed of which value comes back.
#[verifier::external_body]
fn random_u32() -> u32 {
    rand::random::<u32>()
}

/// Every tile outside the mine list is revealed: the player has won.
pub open spec fn all_safe_revealed(map: Seq<Tile>, mines: Seq<u32>) -> bool {
    forall|i: int| 0 <= i < map.len() ==> map[i].state is Revealed || mine_at(mines, i)
}

/// The status the win check owes: `End("You win!")` exactly when every
/// non-mine tile is revealed, `Nothing` otherwise.
pub open spec fn win_status(map: Seq<Tile>, mines: Seq<u32>, status: Status) -> bool {
    &&& all_safe_revealed(map, mines) ==> (status matches Status::End(m) && m@ == "You win!"@)
    &&& !all_safe_revealed(map, mines) ==> status is Nothing
}

/// Scans the board and reports a win exactly when everything but the
/// mines is revealed.
pub fn check_map(map: &Vec<Tile>, mines: &Vec<u32>) -> (status: Status)
    requires
        map@.len() <= u32::MAX,
    ensures
        win_status(map@, mines@, status),
{
    let mut i: usize = 0;
    while i < map.len()
        invariant
            i <= map@.len(),
            map@.len() <= u32::MAX,
            forall|j: int| 0 <= j < i ==> map@[j].state is Revealed || mine_at(mines@, j),
        decreases map@.len() - i,
    {
        let revealed = match map[i].state {
            TileState::Revealed => true,
            _ => false,
        };
        if !revealed {
            if !contains_u32(mines, i as u32) {
                proof {
                    assert(!(map@[i as int].state is Revealed || mine_at(mines@, i as int)));
                }
                return Status::Nothing;
            }
        }
        i += 1;
    }
    Status::End("You win!".to_owned())
}

/// Converts the cursor's absolute terminal position to board-relative
/// (column, row) coordinates.
pub fn get_cursor_relative(game: &Game) -> (coord: (u32, u32))
    requires
        game.cursor_in_board(),
    ensures
        coord.0 as int == game.cursor_col(),
        coord.1 as int == game.cursor_row_rel(),
        (coord.0 as int) < game.width as int,
        (coord.1 as int) < game.height as int,
{
    (
        (game.state.cursor_column as u32) - game.state.boundary_left - 1,
        (game.state.cursor_row as u32) - game.state.boundary_top - 1,
    )
}

/// How a mark toggle changes a game: only the tile under the cursor, and
/// only its visibility, Hidden and Marked trading places.
pub open spec fn mark_transition(pre: Game, post: Game) -> bool {
    let ci = pre.cursor_index();
    &&& post.mines == pre.mines
    &&& post.width == pre.width
    &&& post.height == pre.height
    &&& post.state == pre.state
    &&& post.not_first_mine == pre.not_first_mine
    &&& post.map@.len() == pre.map@.len()
    &&& forall|j: int| 0 <= j < pre.map@.len() && j != ci ==> post.map@[j] == pre.map@[j]
    &&& post.map@[ci].tiletype == pre.map@[ci].tiletype
    &&& post.map@[ci].state == (match pre.map@[ci].state {
        TileState::Revealed => TileState::Revealed,
        TileState::Marked => TileState::Hidden,
        TileState::Hidden => TileState::Marked,
    })
}

/// Toggles the mark on the hidden tile under the cursor; a revealed tile
/// is left alone.
pub fn mark_tile(game: &mut Game)
    requires
        old(game).wf(),
        old(game).map_ready(),
        old(game).cursor_in_board(),
    ensures
        final(game).wf(),
        final(game).map_ready(),
        mark_transition(*old(game), *final(game)),
{
    let cursor = get_cursor_relative(game);
    proof {
        lemma_cell_index(
            game.width as int,
            game.height as int,
            cursor.1 as int,
            cursor.0 as int,
        );
    }
    let cursor_vec = get_coord_vec(cursor, game.width);
    let t = game.map[cursor_vec];
    match t.state {
        TileState::Revealed => (),
        TileState::Marked => {
            game.map.set(cursor_vec, Tile { tiletype: t.tiletype, state: TileState::Hidden });
        },
        TileState::Hidden => {
            game.map.set(cursor_vec, Tile { tiletype: t.tiletype, state: TileState::Marked });
        },
    }
}

/// True when board index `j` lies inside the 7x7 first-dig safety box
/// centered on the board cell in column `cx` of row `cy`.
pub open spec fn in_first_dig_box(w: int, h: int, cx: int, cy: int, j: int) -> bool {
    &&& 0 <= j < w * h
    &&& cy - 3 <= row_of(j, w) <= cy + 3
    &&& cx - 3 <= col_of(j, w) <= cx + 3
}

/// The relocated mine list holds exactly the old mines outside the box.
pub open spec fn mines_relocated(
    old_mines: Seq<u32>,
    new_mines: Seq<u32>,
    w: int,
    h: int,
    cx: int,
    cy: int,
) -> bool {
    forall|x: u32|
        new_mines.contains(x) <==> (old_mines.contains(x) && !in_first_dig_box(
            w,
            h,
            cx,
            cy,
            x as int,
        ))
}

/// The same tile, made visible.
pub open spec fn reveal_tile(t: Tile) -> Tile {
    Tile { tiletype: t.tiletype, state: TileState::Revealed }
}

/// The board with every tile of the region revealed and the rest as they
/// were.
pub open spec fn reveal_region(map: Seq<Tile>, s: Set<int>) -> Seq<Tile> {
    Seq::new(map.len(), |j: int| if s.contains(j) { reveal_tile(map[j]) } else { map[j] })
}

/// How a dig changes a game.  On the first dig ever, the mines inside the
/// 7x7 box around the cursor are dropped and the board is regenerated
/// before digging.  Digging a hidden count reveals that one tile; a
/// hidden mine ends the game; a hidden clear tile reveals the whole flood
/// region.  After a reveal the win check decides the status; a tile
/// already revealed or marked is a no-op.
pub open spec fn dig_transition(pre: Game, post: Game, status: Status) -> bool {
    let w = pre.width as int;
    let h = pre.height as int;
    let ci = pre.cursor_index();
    let base = if pre.not_first_mine {
        pre.map@
    } else {
        spec_generate(post.mines@, w, h)
    };
    &&& post.width == pre.width
    &&& post.height == pre.height
    &&& post.state == pre.state
    &&& post.not_first_mine
    &&& if pre.not_first_mine {
        post.mines@ == pre.mines@
    } else {
        mines_relocated(pre.mines@, post.mines@, w, h, pre.cursor_col(), pre.cursor_row_rel())
    }
    &&& if base[ci].state is Hidden {
        match base[ci].tiletype {
            TileType::Close(_) => {
                &&& post.map@ == base.update(ci, reveal_tile(base[ci]))
                &&& win_status(post.map@, post.mines@, status)
            },
            TileType::Mine => {
                &&& post.map@ == base
                &&& (status matches Status::End(m) && m@ == "You dug a mine!"@)
            },
            TileType::Clear => {
                &&& post.map@ == reveal_region(base, flood(base, w, h, ci))
                &&& win_status(post.map@, post.mines@, status)
            },
        }
    } else {
        &&& post.map@ == base
        &&& status is Nothing
    }
}

/// Digs at the cursor, relocating nearby mines first if this is the very
/// first dig of the game.
#[verifier::loop_isolation(false)]
pub fn dig_tile(game: &mut Game) -> (status: Status)
    requires
        old(game).wf(),
        old(game).map_ready(),
        old(game).mines_ok(),
        old(game).cursor_in_board(),
    ensures
        final(game).wf(),
        final(game).map_ready(),
        final(game).mines_ok(),
        dig_transition(*old(game), *final(game), status),
{
    let ghost w = game.width as int;
    let ghost h = game.height as int;
    let cursor = get_cursor_relative(game);
    let ghost cx = cursor.0 as int;
    let ghost cy = cursor.1 as int;
    proof {
        lemma_cell_index(w, h, cy, cx);
    }
    let cursor_vec = get_coord_vec(cursor, game.width);
    if !game.not_first_mine {
        game.not_first_mine = true;
        let mut kept: Vec<u32> = Vec::new();
        let mut k: usize = 0;
        while k < game.mines.len()
            invariant
                k <= game.mines@.len(),
                *game == (Game { not_first_mine: true, ..*old(game) }),
                forall|j: int|
                    0 <= j < kept@.len() ==> game.mines@.contains(kept@[j])
                        && !in_first_dig_box(w, h, cx, cy, kept@[j] as int),
                forall|j: int|
                    0 <= j < k ==> in_first_dig_box(w, h, cx, cy, game.mines@[j] as int)
                        || kept@.contains(game.mines@[j]),
            decreases game.mines@.len() - k,
        {
            let mv = game.mines[k];
            let mr = mv / game.width;
            let mc = mv % game.width;
            proof {
                crate::grid::lemma_row_col(w, h, mv as int);
            }
            let inside = mr as u64 + 3 >= cursor.1 as u64 && (mr as u64) <= cursor.1 as u64 + 3
                && mc as u64 + 3 >= cursor.0 as u64 && (mc as u64) <= cursor.0 as u64 + 3;
            if !inside {
                let ghost kept0 = kept@;
                kept.push(mv);
                proof {
                    assert(kept@[kept0.len() as int] == mv);
                    assert forall|j: int|
                        0 <= j < k + 1 implies in_first_dig_box(
                        w,
                        h,
                        cx,
                        cy,
                        game.mines@[j] as int,
                    ) || kept@.contains(game.mines@[j]) by {
                        if j < k && kept0.contains(game.mines@[j]) {
                            let q = choose|q: int|
                                0 <= q < kept0.len() && kept0[q] == game.mines@[j];
                            assert(kept@[q] == game.mines@[j]);
                        }
                    }
                }
            }
            k += 1;
        }
        proof {
            assert forall|x: u32|
                kept@.contains(x) <==> (old(game).mines@.contains(x) && !in_first_dig_box(
                    w,
                    h,
                    cx,
                    cy,
                    x as int,
                )) by {
                if kept@.contains(x) {
                    let q = choose|q: int| 0 <= q < kept@.len() && kept@[q] == x;
                }
                if old(game).mines@.contains(x) && !in_first_dig_box(w, h, cx, cy, x as int) {
                    let q = choose|q: int|
                        0 <= q < game.mines@.len() && game.mines@[q] == x;
                    assert(in_first_dig_box(w, h, cx, cy, game.mines@[q] as int)
                        || kept@.contains(game.mines@[q]));
                }
            }
            assert forall|j: int| 0 <= j < kept@.len() implies (kept@[j] as int) < w * h by {
                let x = kept@[j];
                let q = choose|q: int| 0 <= q < game.mines@.len() && game.mines@[q] == x;
            }
        }
        game.mines = kept;
        let new_map = generate_map(game.width, game.height, &game.mines);
        game.map = new_map;
        proof {
            assert forall|j: int| 0 <= j < game.map@.len() implies game.map@[j].wf() by {
                crate::board::lemma_gen_tile_wf(game.mines@, w, h, j);
            }
        }
    }
    let ghost base = game.map@;
    let ghost ci = old(game).cursor_index();
    proof {
        assert(ci == cursor_vec as int);
    }
    let t = game.map[cursor_vec];
    match t.state {
        TileState::Hidden => {
            match t.tiletype {
                TileType::Close(_) => {
                    game.map.set(
                        cursor_vec,
                        Tile { tiletype: t.tiletype, state: TileState::Revealed },
                    );
                    proof {
                        assert(game.map@ =~= base.update(ci, reveal_tile(base[ci])));
                    }
                    check_map(&game.map, &game.mines)
                },
                TileType::Mine => Status::End("You dug a mine!".to_owned()),
                TileType::Clear => {
                    let width = game.width;
                    let height = game.height;
                    let clear = minesweeper(&game.map, cursor_vec, width, height);
                    let ghost mns = game.mines@;
                    let ghost pre_loop = *game;
                    let mut k2: usize = 0;
                    while k2 < clear.len()
                        invariant
                            k2 <= clear@.len(),
                            *game == (Game { map: game.map, ..pre_loop }),
                            game.map@.len() == base.len(),
                            forall|j: int|
                                0 <= j < base.len() ==> game.map@[j] == (if (exists|q: int|
                                    0 <= q < k2 && clear@[q] as int == j) {
                                    reveal_tile(base[j])
                                } else {
                                    base[j]
                                }),
                        decreases clear@.len() - k2,
                    {
                        let idx = clear[k2];
                        let tt = game.map[idx];
                        game.map.set(
                            idx,
                            Tile { tiletype: tt.tiletype, state: TileState::Revealed },
                        );
                        proof {
                            assert(clear@[k2 as int] as int == idx as int);
                        }
                        k2 += 1;
                    }
                    proof {
                        assert forall|j: int| 0 <= j < base.len() implies game.map@[j] == (
                        if flood(base, w, h, ci).contains(j) {
                            reveal_tile(base[j])
                        } else {
                            base[j]
                        }) by {
                            assert(idx_set(clear@).contains(j) <==> (exists|q: int|
                                0 <= q < clear@.len() && clear@[q] as int == j));
                        }
                        assert(game.map@ =~= reveal_region(base, flood(base, w, h, ci)));
                    }
                    check_map(&game.map, &game.mines)
                },
            }
        },
        _ => Status::Nothing,
    }
}

/// True for the keys that dig at the cursor: Enter and the space bar.
pub open spec fn is_dig_key(k: KeyInput) -> bool {
    k is Enter || (k matches KeyInput::Character(c) && c == ' ')
}

/// True for the keys that toggle a mark at the cursor.
pub open spec fn is_mark_key(k: KeyInput) -> bool {
    k matches KeyInput::Character(c) && (c == 'x' || c == 'f')
}

/// The sparse state update a cursor-movement key asks for: one step in
/// its direction, proposed only when the arithmetic cannot wrap.
pub open spec fn move_update(event: KeyInput, s: State) -> StateUpdate {
    match event {
        KeyInput::Left => (StateUpdate {
            term_width: None,
            term_height: None,
            cursor_column: if s.cursor_column > 0 {
                Some((s.cursor_column - 1) as u16)
            } else {
                None
            },
            cursor_row: None,
        }),
        KeyInput::Right => (StateUpdate {
            term_width: None,
            term_height: None,
            cursor_column: if s.cursor_column < 0xffff {
                Some((s.cursor_column + 1) as u16)
            } else {
                None
            },
            cursor_row: None,
        }),
        KeyInput::Up => (StateUpdate {
            term_width: None,
            term_height: None,
            cursor_column: None,
            cursor_row: if s.cursor_row > 0 {
                Some((s.cursor_row - 1) as u16)
            } else {
                None
            },
        }),
        KeyInput::Down => (StateUpdate {
            term_width: None,
            term_height: None,
            cursor_column: None,
            cursor_row: if s.cursor_row < 0xffff {
                Some((s.cursor_row + 1) as u16)
            } else {
                None
            },
        }),
        _ => (StateUpdate { term_width: None, term_height: None, cursor_column: None, cursor_row: None }),
    }
}

/// How a cursor-movement key changes a game: only the viewport state, by
/// one state update, whose status is handed back.
pub open spec fn cursor_move_transition(pre: Game, post: Game, event: KeyInput, status: Status) -> bool {
    let u = move_update(event, pre.state);
    &&& post.map == pre.map
    &&& post.mines == pre.mines
    &&& post.width == pre.width
    &&& post.height == pre.height
    &&& post.not_first_mine == pre.not_first_mine
    &&& post.state == crate::view::update_state(pre.state, pre.width, pre.height, u)
    &&& crate::view::update_ok(pre.state, pre.width, pre.height, u) ==> (status matches Status::MoveCursor(
        a,
        b,
    ) && a == post.state.cursor_column && b == post.state.cursor_row)
    &&& !crate::view::update_ok(pre.state, pre.width, pre.height, u) ==> (status matches Status::End(
        m,
    ) && m@ == "Game window too small! Aborting"@)
}

/// Reports whether the cursor currently denotes a board tile.
fn cursor_in_board_check(game: &Game) -> (b: bool)
    ensures
        b == game.cursor_in_board(),
{
    (game.state.boundary_left as u64) < (game.state.cursor_column as u64)
        && (game.state.cursor_column as u64) <= game.state.boundary_left as u64
        + game.width as u64 && (game.state.boundary_top as u64)
        < (game.state.cursor_row as u64) && (game.state.cursor_row as u64)
        <= game.state.boundary_top as u64 + game.height as u64
}

impl Game {
    /// Handles one key press: arrows move the cursor one step, Enter and
    /// space dig, `x` and `f` toggle a mark, `p` reveals the whole board
    /// for diagnosis, Escape ends the session, and any other key does
    /// nothing.
    pub fn key_event(&mut self, event: KeyInput) -> (status: Status)
        requires
            old(self).wf(),
            is_dig_key(event) ==> old(self).map_ready() && old(self).mines_ok() && old(
                self,
            ).cursor_in_board(),
            is_mark_key(event) ==> old(self).map_ready() && old(self).cursor_in_board(),
        ensures
            final(self).wf(),
            ({
                match event {
                    KeyInput::Left => cursor_move_transition(*old(self), *final(self), event, status),
                    KeyInput::Right => cursor_move_transition(*old(self), *final(self), event, status),
                    KeyInput::Up => cursor_move_transition(*old(self), *final(self), event, status),
                    KeyInput::Down => cursor_move_transition(*old(self), *final(self), event, status),
                    KeyInput::Enter => dig_transition(*old(self), *final(self), status),
                    KeyInput::Character(c) => {
                        if c == ' ' {
                            dig_transition(*old(self), *final(self), status)
                        } else if c == 'x' || c == 'f' {
                            mark_transition(*old(self), *final(self)) && status is Nothing
                        } else if c == 'p' {
                            &&& *final(self) == (Game { map: final(self).map, ..*old(self) })
                            &&& final(self).map@.len() == old(self).map@.len()
                            &&& forall|j: int|
                                0 <= j < old(self).map@.len() ==> final(self).map@[j]
                                    == reveal_tile(old(self).map@[j])
                            &&& status is Nothing
                        } else {
                            *final(self) == *old(self) && status is Nothing
                        }
                    },
                    KeyInput::Escape => *final(self) == *old(self) && (status matches Status::End(
                        m,
                    ) && m@ == "User pressed escape"@),
                    KeyInput::Other => *final(self) == *old(self) && status is Nothing,
                }
            }),
    {
        let width = self.width;
        let height = self.height;
        match event {
            KeyInput::Left => {
                let cc = self.state.cursor_column;
                self.state.update(
                    width,
                    height,
                    StateUpdate {
                        term_width: None,
                        term_height: None,
                        cursor_column: if cc > 0 {
                            Some(cc - 1)
                        } else {
                            None
                        },
                        cursor_row: None,
                    },
                )
            },
            KeyInput::Right => {
                let cc = self.state.cursor_column;
                self.state.update(
                    width,
                    height,
                    StateUpdate {
                        term_width: None,
                        term_height: None,
                        cursor_column: if cc < 0xffff {
                            Some(cc + 1)
                        } else {
                            None
                        },
                        cursor_row: None,
                    },
                )
            },
            KeyInput::Up => {
                let cr = self.state.cursor_row;
                self.state.update(
                    width,
                    height,
                    StateUpdate {
                        term_width: None,
                        term_height: None,
                        cursor_column: None,
                        cursor_row: if cr > 0 {
                            Some(cr - 1)
                        } else {
                            None
                        },
                    },
                )
            },
            KeyInput::Down => {
                let cr = self.state.cursor_row;
                self.state.update(
                    width,
                    height,
                    StateUpdate {
                        term_width: None,
                        term_height: None,
                        cursor_column: None,
                        cursor_row: if cr < 0xffff {
                            Some(cr + 1)
                        } else {
                            None
                        },
                    },
                )
            },
            KeyInput::Enter => dig_tile(self),
            KeyInput::Character(c) => {
                if c == ' ' {
                    dig_tile(self)
                } else if c == 'x' || c == 'f' {
                    mark_tile(self);
                    Status::Nothing
                } else if c == 'p' {
                    let ghost pre_loop = *self;
                    let mut k: usize = 0;
                    while k < self.map.len()
                        invariant
                            k <= self.map@.len(),
                            *self == (Game { map: self.map, ..pre_loop }),
                            self.map@.len() == pre_loop.map@.len(),
                            forall|j: int|
                                0 <= j < k ==> self.map@[j] == reveal_tile(pre_loop.map@[j]),
                            forall|j: int|
                                k <= j < self.map@.len() ==> self.map@[j] == pre_loop.map@[j],
                        decreases self.map@.len() - k,
                    {
                        let tt = self.map[k];
                        self.map.set(k, Tile { tiletype: tt.tiletype, state: TileState::Revealed });
                        k += 1;
                    }
                    Status::Nothing
                } else {
                    Status::Nothing
                }
            },
            KeyInput::Escape => Status::End("User pressed escape".to_owned()),
            KeyInput::Other => Status::Nothing,
        }
    }

    /// Handles one mouse event: a button press first moves the cursor to
    /// the pressed cell, then the left button digs and the right button
    /// toggles a mark -- skipped when the press lands outside the board.
    /// Anything else is ignored.
    pub fn mouse_event(&mut self, event: MouseInput) -> (status: Status)
        requires
            old(self).wf(),
            (event matches MouseInput::Press(b, col, row) && !(b is OtherButton)) ==> old(
                self,
            ).map_ready() && old(self).mines_ok(),
        ensures
            final(self).wf(),
            ({
                match event {
                    MouseInput::Press(button, col, row) => {
                        let u = (StateUpdate {
                            term_width: None,
                            term_height: None,
                            cursor_column: Some(col),
                            cursor_row: Some(row),
                        });
                        let mid = (Game {
                            state: crate::view::update_state(
                                old(self).state,
                                old(self).width,
                                old(self).height,
                                u,
                            ),
                            ..*old(self)
                        });
                        match button {
                            MouseButtonInput::LeftButton => {
                                if mid.cursor_in_board() {
                                    dig_transition(mid, *final(self), status)
                                } else {
                                    *final(self) == mid && status is Nothing
                                }
                            },
                            MouseButtonInput::RightButton => {
                                if mid.cursor_in_board() {
                                    mark_transition(mid, *final(self)) && status is Nothing
                                } else {
                                    *final(self) == mid && status is Nothing
                                }
                            },
                            MouseButtonInput::OtherButton => *final(self) == mid && status
                                is Nothing,
                        }
                    },
                    MouseInput::Other => *final(self) == *old(self) && status is Nothing,
                }
            }),
    {
        match event {
            MouseInput::Press(button, col, row) => {
                let width = self.width;
                let height = self.height;
                self.state.update(
                    width,
                    height,
                    StateUpdate {
                        term_width: None,
                        term_height: None,
                        cursor_column: Some(col),
                        cursor_row: Some(row),
                    },
                );
                match button {
                    MouseButtonInput::LeftButton => {
                        if cursor_in_board_check(self) {
                            dig_tile(self)
                        } else {
                            Status::Nothing
                        }
                    },
                    MouseButtonInput::RightButton => {
                        if cursor_in_board_check(self) {
                            mark_tile(self);
                        }
                        Status::Nothing
                    },
                    MouseButtonInput::OtherButton => Status::Nothing,
                }
            },
            MouseInput::Other => Status::Nothing,
        }
    }
}

/// After a first dig, no mine remains anywhere in the 7x7 box around the
/// dug tile, whatever the board's earlier mine placement was: neither in
/// the mine list nor on the regenerated board.
pub proof fn lemma_first_dig_safety(pre: Game, post: Game, status: Status, j: int)
    requires
        pre.wf(),
        pre.cursor_in_board(),
        !pre.not_first_mine,
        dig_transition(pre, post, status),
        in_first_dig_box(
            pre.width as int,
            pre.height as int,
            pre.cursor_col(),
            pre.cursor_row_rel(),
            j,
        ),
    ensures
        !mine_at(post.mines@, j),
        !(post.map@[j].tiletype is Mine),
{
    let w = pre.width as int;
    let h = pre.height as int;
    let ci = pre.cursor_index();
    let base = spec_generate(post.mines@, w, h);
    lemma_cell_index(w, h, pre.cursor_row_rel(), pre.cursor_col());
    assert(!mine_at(post.mines@, j));
    assert(!(base[j].tiletype is Mine));
    if base[ci].state is Hidden {
        match base[ci].tiletype {
            TileType::Close(_) => {
                assert(post.map@[j].tiletype == base[j].tiletype);
            },
            TileType::Mine => {},
            TileType::Clear => {
                assert(post.map@[j].tiletype == base[j].tiletype);
            },
        }
    }
}

} // verus!
