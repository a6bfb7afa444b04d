use minesweeper::tile::Tile;
use minesweeper::tile::TileState;
use minesweeper::tile::TileType;

#[test]
fn tile_test() {
    let clear_revealed = Tile { tiletype: TileType::Clear, state: TileState::Revealed }.to_text();
    assert!(clear_revealed.eq(&String::from("_")));
    let close_revealed = Tile { tiletype: TileType::Close(3), state: TileState::Revealed }.to_text();
    assert!(close_revealed.eq(&String::from("3")));
    let mine_revealed = Tile { tiletype: TileType::Mine, state: TileState::Revealed }.to_text();
    assert!(mine_revealed.eq(&String::from("O")));
    let hidden = Tile { tiletype: TileType::Clear, state: TileState::Hidden }.to_text();
    assert!(hidden.eq(&String::from("█")));
    let marked = Tile { tiletype: TileType::Clear, state: TileState::Marked }.to_text();
    assert!(marked.eq(&String::from("X")));
}

#[test]
fn glyph_digits() {
    for n in 1..=8u8 {
        let t = Tile { tiletype: TileType::Close(n), state: TileState::Revealed };
        let expected = char::from(b'0' + n);
        assert_eq!(t.glyph(), expected);
    }
}

#[test]
fn glyph_ignores_content_while_hidden_or_marked() {
    let hidden_mine = Tile { tiletype: TileType::Mine, state: TileState::Hidden };
    assert_eq!(hidden_mine.glyph(), '\u{2588}');
    let marked_mine = Tile { tiletype: TileType::Mine, state: TileState::Marked };
    assert_eq!(marked_mine.glyph(), 'X');
    let marked_count = Tile { tiletype: TileType::Close(5), state: TileState::Marked };
    assert_eq!(marked_count.glyph(), 'X');
}

#[test]
fn default_tile_is_hidden_clear() {
    let t = Tile::default();
    assert!(matches!(t.tiletype, TileType::Clear));
    assert!(matches!(t.state, TileState::Hidden));
}
