//! Producing the display string: the bordered board centered in the
//! terminal viewport.
//!
//! The string holds `boundary_top` blank lines, then `height + 2` rows of
//! exactly `term_width` characters each -- side padding, a `#` border and
//! the tile glyphs -- and ends with the bottom padding of blank lines.
//! The rows carry no newline of their own: each fills the terminal width
//! exactly, so the terminal wraps them.

use vstd::prelude::*;
use crate::game::Game;
use crate::grid::lemma_cell_index;
use crate::tile::Tile;

verus! {

/// `n` copies of one character (none for a negative count).
pub open spec fn repeat_char(c: char, n: int) -> Seq<char> {
    Seq::new(if n >= 0 { n as nat } else { 0 }, |i: int| c)
}

/// The glyphs of board row `r`, left to right.
pub open spec fn glyph_row(map: Seq<Tile>, w: int, r: int) -> Seq<char> {
    Seq::new(w as nat, |j: int| map[r * w + j].spec_glyph())
}

/// One displayed board row: left padding, border, glyphs, border, right
/// padding.
pub open spec fn board_row(map: Seq<Tile>, w: int, r: int, bl: int, br: int) -> Seq<char> {
    repeat_char(' ', bl) + seq!['#'] + glyph_row(map, w, r) + seq!['#'] + repeat_char(' ', br)
}

/// The top or bottom border row: padding around `w + 2` border marks.
pub open spec fn border_row(w: int, bl: int, br: int) -> Seq<char> {
    repeat_char(' ', bl) + repeat_char('#', w + 2) + repeat_char(' ', br)
}

/// The first `r` displayed board rows, in order.
pub open spec fn board_rows_to(map: Seq<Tile>, w: int, bl: int, br: int, r: int) -> Seq<char>
    decreases r,
{
    if r <= 0 {
        Seq::empty()
    } else {
        board_rows_to(map, w, bl, br, r - 1) + board_row(map, w, r - 1, bl, br)
    }
}

/// The board with its border fits the stored terminal dimensions, so the
/// padding widths cannot go negative.
pub open spec fn renderable(game: Game) -> bool {
    &&& game.state.boundary_left as int + game.width as int + 2 <= game.state.term_width as int
    &&& game.state.boundary_top as int + game.height as int + 2 <= game.state.term_height as int
}

/// The entire display string of a game.
pub open spec fn spec_render(game: Game) -> Seq<char> {
    let w = game.width as int;
    let h = game.height as int;
    let bl = game.state.boundary_left as int;
    let bt = game.state.boundary_top as int;
    let br = game.state.term_width as int - bl - w - 2;
    let bb = game.state.term_height as int - bt - h - 2;
    repeat_char('\n', bt) + border_row(w, bl, br) + board_rows_to(game.map@, w, bl, br, h)
        + border_row(w, bl, br) + repeat_char('\n', bb)
}

/// Appends `n` copies of a character.
fn push_repeat(out: &mut Vec<char>, c: char, n: u32)
    ensures
        final(out)@ == old(out)@ + repeat_char(c, n as int),
{
    let mut i: u32 = 0;
    while i < n
        invariant
            i <= n,
            out@ == old(out)@ + repeat_char(c, i as int),
        decreases n - i,
    {
        out.push(c);
        proof {
            assert(out@ =~= old(out)@ + repeat_char(c, i as int + 1));
        }
        i += 1;
    }
}

/// Appends a border row.
fn push_border_row(out: &mut Vec<char>, width: u32, bl: u32, br: u32)
    requires
        width as int + 2 <= u32::MAX,
    ensures
        final(out)@ == old(out)@ + border_row(width as int, bl as int, br as int),
{
    push_repeat(out, ' ', bl);
    push_repeat(out, '#', width + 2);
    push_repeat(out, ' ', br);
    proof {
        assert(out@ =~= old(out)@ + border_row(width as int, bl as int, br as int));
    }
}

/// Appends one displayed board row.
#[verifier::loop_isolation(false)]
fn push_board_row(
    out: &mut Vec<char>,
    map: &Vec<Tile>,
    width: u32,
    height: u32,
    r: u32,
    bl: u32,
    br: u32,
)
    requires
        1 <= width,
        1 <= height,
        width as int * height as int <= u32::MAX,
        map@.len() == width as int * height as int,
        forall|i: int| 0 <= i < map@.len() ==> map@[i].wf(),
        r < height,
    ensures
        final(out)@ == old(out)@ + board_row(map@, width as int, r as int, bl as int, br as int),
{
    push_repeat(out, ' ', bl);
    out.push('#');
    let ghost mid = out@;
    let mut j: u32 = 0;
    while j < width
        invariant
            j <= width,
            out@ == mid + Seq::new(j as nat, |q: int| map@[r as int * width as int + q].spec_glyph()),
        decreases width - j,
    {
        proof {
            lemma_cell_index(width as int, height as int, r as int, j as int);
        }
        let idx = r * width + j;
        let g = map[idx as usize].glyph();
        out.push(g);
        proof {
            assert(out@ =~= mid + Seq::new(
                j as nat + 1,
                |q: int| map@[r as int * width as int + q].spec_glyph(),
            ));
        }
        j += 1;
    }
    out.push('#');
    push_repeat(out, ' ', br);
    proof {
        assert(Seq::new(
            width as nat,
            |q: int| map@[r as int * width as int + q].spec_glyph(),
        ) =~= glyph_row(map@, width as int, r as int));
        assert(out@ =~= old(out)@ + board_row(
            map@,
            width as int,
            r as int,
            bl as int,
            br as int,
        ));
    }
}

/// Produces the whole display string for the current board and viewport.
/// A pure function of the game value: no device access.
#[verifier::loop_isolation(false)]
pub fn render(game: &Game) -> (s: String)
    requires
        game.wf(),
        game.map_ready(),
        renderable(*game),
    ensures
        s@ == spec_render(*game),
{
    let ghost w = game.width as int;
    let ghost h = game.height as int;
    let bl = game.state.boundary_left;
    let bt = game.state.boundary_top;
    let br = game.state.term_width as u32 - bl - game.width - 2;
    let bb = game.state.term_height as u32 - bt - game.height - 2;
    let mut out: Vec<char> = Vec::new();
    push_repeat(&mut out, '\n', bt);
    push_border_row(&mut out, game.width, bl, br);
    let ghost head = out@;
    let mut r: u32 = 0;
    while r < game.height
        invariant
            r <= game.height,
            out@ == head + board_rows_to(game.map@, w, bl as int, br as int, r as int),
        decreases game.height - r,
    {
        push_board_row(&mut out, &game.map, game.width, game.height, r, bl, br);
        proof {
            assert(out@ =~= head + board_rows_to(game.map@, w, bl as int, br as int, r as int + 1));
        }
        r += 1;
    }
    push_border_row(&mut out, game.width, bl, br);
    push_repeat(&mut out, '\n', bb);
    let s = chars_to_string(&out);
    proof {
        assert(s@ =~= spec_render(*game));
    }
    s
}

/// Relies on `String`'s `FromIterator<char>` impl from std: collecting an
/// iterator of characters yields the string of exactly those characters in
/// order.
#[verifier::external_body]
pub fn chars_to_string(chars: &Vec<char>) -> (s: String)
    ensures
        s@ == chars@,
{
    chars.iter().collect()
}

} // verus!
