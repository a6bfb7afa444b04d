//! One grid cell: its content, its visibility, and the glyph it displays as.

use vstd::prelude::*;

verus! {

/// What a tile holds: nothing, a count of adjacent mines, or a mine.
#[derive(Copy, Clone)]
pub enum TileType {
    Clear,
    Close(u8),
    Mine,
}

/// What the player can see of a tile.
#[derive(Copy, Clone)]
pub enum TileState {
    Revealed,
    Marked,
    Hidden,
}

/// One cell of the board.
#[derive(Copy, Clone)]
pub struct Tile {
    pub tiletype: TileType,
    pub state: TileState,
}

impl Tile {
    /// A tile is well formed when an adjacency count stays in the range
    /// that eight neighbors can produce.
    pub open spec fn wf(self) -> bool {
        match self.tiletype {
            TileType::Close(n) => 1 <= n <= 8,
            _ => true,
        }
    }

    /// The display glyph of a tile: a solid block while hidden, `X` while
    /// marked, and once revealed `_` for clear, the decimal digit for a
    /// count, `O` for a mine.
    pub open spec fn spec_glyph(self) -> char {
        match self.state {
            TileState::Revealed => match self.tiletype {
                TileType::Clear => '_',
                TileType::Close(n) => spec_digit_char(n as int),
                TileType::Mine => 'O',
            },
            TileState::Marked => 'X',
            TileState::Hidden => '\u{2588}',
        }
    }

    /// Converts the tile to its single display glyph.
    pub fn glyph(&self) -> (c: char)
        requires
            self.wf(),
        ensures
            c == self.spec_glyph(),
    {
        match self.state {
            TileState::Revealed => match self.tiletype {
                TileType::Clear => '_',
                TileType::Close(n) => digit_char(n),
                TileType::Mine => 'O',
            },
            TileState::Marked => 'X',
            TileState::Hidden => '\u{2588}',
        }
    }

    /// The tile's glyph as a one-character string.
    pub fn to_text(&self) -> (s: String)
        requires
            self.wf(),
        ensures
            s@ == seq![self.spec_glyph()],
    {
        let mut chars: Vec<char> = Vec::new();
        chars.push(self.glyph());
        let s = crate::render::chars_to_string(&chars);
        proof {
            assert(s@ =~= seq![self.spec_glyph()]);
        }
        s
    }
}

/// The decimal digit character for a count between 1 and 8.
pub open spec fn spec_digit_char(n: int) -> char {
    if n == 1 {
        '1'
    } else if n == 2 {
        '2'
    } else if n == 3 {
        '3'
    } else if n == 4 {
        '4'
    } else if n == 5 {
        '5'
    } else if n == 6 {
        '6'
    } else if n == 7 {
        '7'
    } else {
        '8'
    }
}

fn digit_char(n: u8) -> (c: char)
    requires
        1 <= n <= 8,
    ensures
        c == spec_digit_char(n as int),
{
    match n {
        1 => '1',
        2 => '2',
        3 => '3',
        4 => '4',
        5 => '5',
        6 => '6',
        7 => '7',
        _ => '8',
    }
}

impl Default for Tile {
    /// A fresh tile: clear content, still hidden.
    fn default() -> (t: Tile)
        ensures
            t.tiletype is Clear,
            t.state is Hidden,
    {
        Tile { tiletype: TileType::Clear, state: TileState::Hidden }
    }
}

/// The glyph table, spelled out pair by pair: every combination of
/// visibility and content maps to exactly the documented glyph.
pub proof fn lemma_glyph_table()
    ensures
        forall|t: Tile| t.state is Hidden ==> t.spec_glyph() == '\u{2588}',
        forall|t: Tile| t.state is Marked ==> t.spec_glyph() == 'X',
        forall|t: Tile|
            t.state is Revealed && t.tiletype is Clear ==> t.spec_glyph() == '_',
        forall|t: Tile, n: u8|
            t.state is Revealed && t.tiletype == TileType::Close(n) && 1 <= n <= 8
                ==> t.spec_glyph() == spec_digit_char(n as int),
        forall|t: Tile| t.state is Revealed && t.tiletype is Mine ==> t.spec_glyph() == 'O',
{
}

} // verus!
