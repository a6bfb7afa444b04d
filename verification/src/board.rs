//! Board generation: a fresh board of hidden tiles, with mines placed at
//! the listed indices and every other tile holding its adjacency count.

use vstd::prelude::*;
use crate::grid::col_of;
use crate::grid::contains_u32;
use crate::grid::lemma_row_col;
use crate::grid::mine_at;
use crate::grid::row_of;
use crate::tile::Tile;
use crate::tile::TileState;
use crate::tile::TileType;

verus! {

/// True when the cell one row `dr` and one column `dc` away from index `i`
/// lies on the board and holds a mine.
pub open spec fn nbr_mine(mines: Seq<u32>, w: int, h: int, i: int, dr: int, dc: int) -> bool {
    let r = row_of(i, w) + dr;
    let c = col_of(i, w) + dc;
    0 <= r < h && 0 <= c < w && mine_at(mines, r * w + c)
}

/// One when the condition holds, zero otherwise.
pub open spec fn b2i(b: bool) -> int {
    if b {
        1
    } else {
        0
    }
}

/// How many of the eight neighbors of index `i` hold a mine.
pub open spec fn adj_count(mines: Seq<u32>, w: int, h: int, i: int) -> int {
    b2i(nbr_mine(mines, w, h, i, -1, -1)) + b2i(nbr_mine(mines, w, h, i, -1, 0)) + b2i(
        nbr_mine(mines, w, h, i, -1, 1),
    ) + b2i(nbr_mine(mines, w, h, i, 0, -1)) + b2i(nbr_mine(mines, w, h, i, 0, 1)) + b2i(
        nbr_mine(mines, w, h, i, 1, -1),
    ) + b2i(nbr_mine(mines, w, h, i, 1, 0)) + b2i(nbr_mine(mines, w, h, i, 1, 1))
}

/// The tile that generation assigns to index `i`: a mine where the list
/// says so, else the neighbor count when it is positive, else clear; every
/// tile starts hidden.
pub open spec fn gen_tile(mines: Seq<u32>, w: int, h: int, i: int) -> Tile {
    if mine_at(mines, i) {
        Tile { tiletype: TileType::Mine, state: TileState::Hidden }
    } else if adj_count(mines, w, h, i) > 0 {
        Tile { tiletype: TileType::Close(adj_count(mines, w, h, i) as u8), state: TileState::Hidden }
    } else {
        Tile { tiletype: TileType::Clear, state: TileState::Hidden }
    }
}

/// The whole generated board, tile by tile.
pub open spec fn spec_generate(mines: Seq<u32>, w: int, h: int) -> Seq<Tile> {
    Seq::new((w * h) as nat, |i: int| gen_tile(mines, w, h, i))
}

/// The count of a generated tile never exceeds eight, so every generated
/// tile is well formed.
pub proof fn lemma_gen_tile_wf(mines: Seq<u32>, w: int, h: int, i: int)
    ensures
        gen_tile(mines, w, h, i).wf(),
        gen_tile(mines, w, h, i).state is Hidden,
{
}

/// A board generated from an empty mine list is entirely clear, and
/// entirely hidden.
pub proof fn lemma_generate_no_mines(mines: Seq<u32>, w: int, h: int, i: int)
    requires
        mines.len() == 0,
        0 <= i < w * h,
    ensures
        spec_generate(mines, w, h)[i].tiletype is Clear,
        spec_generate(mines, w, h)[i].state is Hidden,
{
    assert(!mine_at(mines, i));
    assert(adj_count(mines, w, h, i) == 0);
}

/// Two distinct cells within one row and one column of each other: the
/// eight-neighborhood.
pub open spec fn adjacent8(w: int, h: int, i: int, j: int) -> bool {
    &&& 0 <= i < w * h
    &&& 0 <= j < w * h
    &&& i != j
    &&& -1 <= row_of(j, w) - row_of(i, w) <= 1
    &&& -1 <= col_of(j, w) - col_of(i, w) <= 1
}

/// With a single mine on the board, that cell is the mine, each of its
/// in-bounds neighbors counts exactly one, and every other tile is clear.
pub proof fn lemma_generate_single_mine(w: int, h: int, m: u32, j: int)
    requires
        1 <= w,
        1 <= h,
        w * h <= u32::MAX,
        (m as int) < w * h,
        0 <= j < w * h,
    ensures
        spec_generate(seq![m], w, h)[m as int].tiletype is Mine,
        adjacent8(w, h, m as int, j) ==> spec_generate(seq![m], w, h)[j].tiletype
            == TileType::Close(1),
        !adjacent8(w, h, m as int, j) && j != m as int ==> spec_generate(
            seq![m],
            w,
            h,
        )[j].tiletype is Clear,
{
    let mines = seq![m];
    assert(mines[0] == m);
    assert(mine_at(mines, m as int));
    assert forall|x: int| #[trigger] mine_at(mines, x) implies x == m as int by {
        let k = choose|k: int| 0 <= k < mines.len() && mines[k] == x as u32;
        assert(k == 0);
    }
    lemma_row_col(w, h, m as int);
    lemma_row_col(w, h, j);
    let rm = row_of(m as int, w);
    let cm = col_of(m as int, w);
    let rj = row_of(j, w);
    let cj = col_of(j, w);
    assert forall|dr: int, dc: int| -1 <= dr <= 1 && -1 <= dc <= 1 implies (#[trigger] nbr_mine(
        mines,
        w,
        h,
        j,
        dr,
        dc,
    ) <==> (0 <= rj + dr < h && 0 <= cj + dc < w && rj + dr == rm && cj + dc == cm)) by {
        if 0 <= rj + dr < h && 0 <= cj + dc < w {
            crate::grid::lemma_cell_index(w, h, rj + dr, cj + dc);
        }
    }
    if j != m as int {
        assert(!mine_at(mines, j));
        if adjacent8(w, h, m as int, j) {
            let dr0 = rm - rj;
            let dc0 = cm - cj;
            assert(nbr_mine(mines, w, h, j, dr0, dc0));
            assert(!(dr0 == 0 && dc0 == 0));
            assert(adj_count(mines, w, h, j) == 1);
        } else {
            assert forall|dr: int, dc: int|
                -1 <= dr <= 1 && -1 <= dc <= 1 implies !#[trigger] nbr_mine(
                mines,
                w,
                h,
                j,
                dr,
                dc,
            ) by {
                if rj + dr == rm && cj + dc == cm && 0 <= rj + dr < h && 0 <= cj + dc < w {
                    assert(adjacent8(w, h, m as int, j));
                }
            }
            assert(adj_count(mines, w, h, j) == 0);
        }
    }
}

/// Stepping one row `dr` and one column `dc` from the cell in row `r`,
/// column `c` shifts the linear index by exactly `dr * w + dc` and stays on
/// the board.
pub proof fn lemma_nbr_index(w: int, h: int, r: int, c: int, dr: int, dc: int)
    requires
        1 <= w,
        1 <= h,
        0 <= r < h,
        0 <= c < w,
        0 <= r + dr < h,
        0 <= c + dc < w,
    ensures
        0 <= (r + dr) * w + (c + dc) < w * h,
        (r + dr) * w + (c + dc) == (r * w + c) + dr * w + dc,
        row_of((r + dr) * w + (c + dc), w) == r + dr,
        col_of((r + dr) * w + (c + dc), w) == c + dc,
{
    crate::grid::lemma_cell_index(w, h, r + dr, c + dc);
    assert((r + dr) * w + (c + dc) == (r * w + c) + dr * w + dc) by (nonlinear_arith);
}

/// Builds the tile at index `i` of a fresh board.
fn make_tile(width: u32, height: u32, mines: &Vec<u32>, i: u32) -> (t: Tile)
    requires
        1 <= width,
        1 <= height,
        width * height <= u32::MAX,
        i < width * height,
    ensures
        t == gen_tile(mines@, width as int, height as int, i as int),
{
    let ghost w = width as int;
    let ghost h = height as int;
    let ghost mns = mines@;
    if contains_u32(mines, i) {
        Tile { tiletype: TileType::Mine, state: TileState::Hidden }
    } else {
        let r = i / width;
        let c = i % width;
        proof {
            lemma_row_col(w, h, i as int);
        }
        let mut close: u8 = 0;
        if r > 0 {
            if c > 0 {
                proof {
                    lemma_nbr_index(w, h, r as int, c as int, -1, -1);
                }
                if contains_u32(mines, i - width - 1) {
                    close += 1;
                }
            }
            proof {
                lemma_nbr_index(w, h, r as int, c as int, -1, 0);
            }
            if contains_u32(mines, i - width) {
                close += 1;
            }
            if c + 1 < width {
                proof {
                    lemma_nbr_index(w, h, r as int, c as int, -1, 1);
                }
                if contains_u32(mines, i - width + 1) {
                    close += 1;
                }
            }
        }
        assert(close == b2i(nbr_mine(mns, w, h, i as int, -1, -1)) + b2i(
            nbr_mine(mns, w, h, i as int, -1, 0),
        ) + b2i(nbr_mine(mns, w, h, i as int, -1, 1)));
        if c > 0 {
            proof {
                lemma_nbr_index(w, h, r as int, c as int, 0, -1);
            }
            if contains_u32(mines, i - 1) {
                close += 1;
            }
        }
        if c + 1 < width {
            proof {
                lemma_nbr_index(w, h, r as int, c as int, 0, 1);
            }
            if contains_u32(mines, i + 1) {
                close += 1;
            }
        }
        if r + 1 < height {
            if c > 0 {
                proof {
                    lemma_nbr_index(w, h, r as int, c as int, 1, -1);
                }
                if contains_u32(mines, i + width - 1) {
                    close += 1;
                }
            }
            proof {
                lemma_nbr_index(w, h, r as int, c as int, 1, 0);
            }
            if contains_u32(mines, i + width) {
                close += 1;
            }
            if c + 1 < width {
                proof {
                    lemma_nbr_index(w, h, r as int, c as int, 1, 1);
                }
                if contains_u32(mines, i + width + 1) {
                    close += 1;
                }
            }
        }
        assert(close == adj_count(mns, w, h, i as int));
        if close != 0 {
            Tile { tiletype: TileType::Close(close), state: TileState::Hidden }
        } else {
            Tile { tiletype: TileType::Clear, state: TileState::Hidden }
        }
    }
}

/// Allocates a fresh board of `width * height` hidden tiles, with mines at
/// the listed indices and adjacency counts everywhere else.
pub fn generate_map(width: u32, height: u32, mines: &Vec<u32>) -> (board: Vec<Tile>)
    requires
        1 <= width,
        1 <= height,
        width * height <= u32::MAX,
    ensures
        board@ == spec_generate(mines@, width as int, height as int),
{
    let board_size = width * height;
    let mut ret: Vec<Tile> = Vec::new();
    let mut i: u32 = 0;
    while i < board_size
        invariant
            board_size == width * height,
            1 <= width,
            1 <= height,
            width * height <= u32::MAX,
            i <= board_size,
            ret@.len() == i,
            forall|j: int|
                0 <= j < i ==> ret@[j] == gen_tile(mines@, width as int, height as int, j),
        decreases board_size - i,
    {
        let t = make_tile(width, height, mines, i);
        ret.push(t);
        i += 1;
    }
    proof {
        assert(ret@ =~= spec_generate(mines@, width as int, height as int));
    }
    ret
}

} // verus!
