use minesweeper::board::generate_map;
use minesweeper::game::check_map;
use minesweeper::game::dig_tile;
use minesweeper::game::mark_tile;
use minesweeper::game::Game;
use minesweeper::game::KeyInput;
use minesweeper::game::MouseButtonInput;
use minesweeper::game::MouseInput;
use minesweeper::render::render;
use minesweeper::sweep::minesweeper as sweep_from;
use minesweeper::tile::Tile;
use minesweeper::tile::TileState;
use minesweeper::tile::TileType;
use minesweeper::view::State;
use minesweeper::view::Status;

fn state_at(term_width: u16, term_height: u16, bl: u32, bt: u32, cc: u16, cr: u16) -> State {
    State {
        term_width,
        term_height,
        boundary_left: bl,
        boundary_top: bt,
        cursor_column: cc,
        cursor_row: cr,
    }
}

fn game_with(width: u32, height: u32, mines: Vec<u32>, state: State, not_first_mine: bool) -> Game {
    let map = generate_map(width, height, &mines);
    Game { map, mines, width, height, state, not_first_mine }
}

#[test]
fn generator_zero_mines_all_clear() {
    let map = generate_map(3, 3, &Vec::new());
    assert_eq!(map.len(), 9);
    for t in &map {
        assert!(matches!(t.tiletype, TileType::Clear));
        assert!(matches!(t.state, TileState::Hidden));
    }
}

#[test]
fn generator_single_center_mine() {
    let map = generate_map(3, 3, &vec![4]);
    for (i, t) in map.iter().enumerate() {
        if i == 4 {
            assert!(matches!(t.tiletype, TileType::Mine));
        } else {
            assert!(matches!(t.tiletype, TileType::Close(1)));
        }
    }
}

#[test]
fn generator_single_corner_mine() {
    let map = generate_map(3, 3, &vec![0]);
    for (i, t) in map.iter().enumerate() {
        match i {
            0 => assert!(matches!(t.tiletype, TileType::Mine)),
            1 | 3 | 4 => assert!(matches!(t.tiletype, TileType::Close(1))),
            _ => assert!(matches!(t.tiletype, TileType::Clear)),
        }
    }
}

#[test]
fn generator_duplicate_mines_count_once() {
    let map = generate_map(3, 1, &vec![0, 0]);
    assert!(matches!(map[0].tiletype, TileType::Mine));
    assert!(matches!(map[1].tiletype, TileType::Close(1)));
    assert!(matches!(map[2].tiletype, TileType::Clear));
}

#[test]
fn sweep_mine_free_covers_board_once() {
    let map = generate_map(3, 3, &Vec::new());
    let mut revealed = sweep_from(&map, 4, 3, 3);
    assert_eq!(revealed.len(), 9);
    revealed.sort();
    for (k, idx) in revealed.iter().enumerate() {
        assert_eq!(*idx, k);
    }
}

#[test]
fn sweep_stops_at_count_wall() {
    // A 5x5 board with one central mine: the ring of counts around it is
    // revealed but never expanded, so only the mine stays hidden.
    let map = generate_map(5, 5, &vec![12]);
    let mut revealed = sweep_from(&map, 0, 5, 5);
    revealed.sort();
    assert_eq!(revealed.len(), 24);
    assert!(!revealed.contains(&12));
}

#[test]
fn sweep_from_wall_interior_reveals_single_region() {
    // 3x3 with mines on the whole left column: the right column is clear,
    // the middle column is counts.
    let map = generate_map(3, 3, &vec![0, 3, 6]);
    let mut revealed = sweep_from(&map, 2, 3, 3);
    revealed.sort();
    assert_eq!(revealed, vec![1, 2, 4, 5, 7, 8]);
}

#[test]
fn generator_counts_two_adjacent_mines() {
    // Mines at both ends of a 3x1 strip: the middle counts both.
    let map = generate_map(3, 1, &vec![0, 2]);
    assert!(matches!(map[1].tiletype, TileType::Close(2)));
}

#[test]
fn coordinate_round_trip() {
    let idx = minesweeper::grid::get_coord_vec((3, 2), 10);
    assert_eq!(idx, 23);
    let coord = minesweeper::grid::get_vec_coord(23, 10);
    assert_eq!(coord, (3, 2));
}

#[test]
fn check_map_win_and_not_yet() {
    let mut map = generate_map(2, 2, &vec![3]);
    // Nothing revealed yet.
    assert!(matches!(check_map(&map, &vec![3]), Status::Nothing));
    // Reveal every non-mine tile.
    for i in 0..3 {
        map[i].state = TileState::Revealed;
    }
    match check_map(&map, &vec![3]) {
        Status::End(reason) => assert_eq!(reason, "You win!"),
        _ => panic!("expected a win"),
    }
}

#[test]
fn check_map_marked_tile_is_not_a_win() {
    let mut map = generate_map(2, 1, &vec![1]);
    map[0].state = TileState::Marked;
    assert!(matches!(check_map(&map, &vec![1]), Status::Nothing));
}

#[test]
fn resize_example_centers_board() {
    let mut game = Game::new(10, 5);
    let status = game.resize(40, 20);
    assert_eq!(game.state.boundary_left, 14);
    assert_eq!(game.state.boundary_top, 7);
    assert!(matches!(status, Status::MoveCursor(0, 0)));
}

#[test]
fn resize_too_small_aborts() {
    let mut game = Game::new(10, 5);
    match game.resize(10, 20) {
        Status::End(reason) => assert_eq!(reason, "Game window too small! Aborting"),
        _ => panic!("expected the viewport failure"),
    }
}

#[test]
fn cursor_proposal_on_border_rejected() {
    // Board 10 wide centered at boundary_left 14: the play band is
    // columns 14..=25, its interior 15..=24.
    let mut game = Game::new(10, 5);
    game.state = state_at(40, 20, 14, 7, 20, 10);
    // On the near border: rejected.
    let st = game.state;
    let mut s1 = st;
    let r1 = s1.update(
        10,
        5,
        minesweeper::view::StateUpdate { term_width: None, term_height: None, cursor_column: Some(14), cursor_row: None },
    );
    assert_eq!(s1.cursor_column, 20);
    assert!(matches!(r1, Status::MoveCursor(20, 10)));
    // On the far border: rejected.
    let mut s2 = st;
    s2.update(
        10,
        5,
        minesweeper::view::StateUpdate { term_width: None, term_height: None, cursor_column: Some(25), cursor_row: None },
    );
    assert_eq!(s2.cursor_column, 20);
    // Strictly inside: accepted.
    let mut s3 = st;
    s3.update(
        10,
        5,
        minesweeper::view::StateUpdate { term_width: None, term_height: None, cursor_column: Some(24), cursor_row: None },
    );
    assert_eq!(s3.cursor_column, 24);
}

#[test]
fn arrow_keys_move_one_step() {
    let mut game = Game::new(10, 5);
    game.new_map(0);
    game.state = state_at(40, 20, 14, 7, 20, 10);
    let status = game.key_event(KeyInput::Left);
    assert_eq!(game.state.cursor_column, 19);
    assert!(matches!(status, Status::MoveCursor(19, 10)));
    game.key_event(KeyInput::Down);
    assert_eq!(game.state.cursor_row, 11);
    game.key_event(KeyInput::Right);
    assert_eq!(game.state.cursor_column, 20);
    game.key_event(KeyInput::Up);
    assert_eq!(game.state.cursor_row, 10);
}

#[test]
fn escape_and_unknown_keys() {
    let mut game = Game::new(10, 5);
    match game.key_event(KeyInput::Escape) {
        Status::End(reason) => assert_eq!(reason, "User pressed escape"),
        _ => panic!("expected the escape end"),
    }
    assert!(matches!(game.key_event(KeyInput::Character('q')), Status::Nothing));
    assert!(matches!(game.key_event(KeyInput::Other), Status::Nothing));
}

#[test]
fn first_dig_relocates_nearby_mine() {
    // The example scenario: 10x5 board in a 40x20 terminal, one mine at
    // relative (0, 0), cursor on that same cell, first dig.
    let state = state_at(40, 20, 14, 7, 15, 8);
    let mut game = game_with(10, 5, vec![0], state, false);
    assert!(matches!(game.map[0].tiletype, TileType::Mine));
    let status = dig_tile(&mut game);
    // The only mine sat inside the 7x7 box, so it is gone and the whole
    // mine-free board is revealed: an immediate win.
    assert!(game.mines.is_empty());
    assert!(matches!(game.map[0].tiletype, TileType::Clear));
    assert!(matches!(game.map[0].state, TileState::Revealed));
    match status {
        Status::End(reason) => assert_eq!(reason, "You win!"),
        _ => panic!("expected a win after the relocation"),
    }
}

#[test]
fn first_dig_keeps_far_mines() {
    // 10x1 board: a mine at column 9 is outside the 7x7 box around
    // column 0 and survives the first dig.
    let state = state_at(40, 20, 14, 9, 15, 10);
    let mut game = game_with(10, 1, vec![9], state, false);
    dig_tile(&mut game);
    assert_eq!(game.mines, vec![9]);
    assert!(matches!(game.map[9].tiletype, TileType::Mine));
    // Columns 0..=7 are clear of counts and revealed; column 8 is the
    // count boundary, also revealed by the sweep.
    for i in 0..9 {
        assert!(matches!(game.map[i].state, TileState::Revealed));
    }
    assert!(matches!(game.map[8].tiletype, TileType::Close(1)));
}

#[test]
fn digging_a_mine_ends_the_game() {
    let state = state_at(40, 20, 14, 7, 15, 8);
    let mut game = game_with(10, 5, vec![0], state, true);
    match dig_tile(&mut game) {
        Status::End(reason) => assert_eq!(reason, "You dug a mine!"),
        _ => panic!("expected to lose"),
    }
    // Nothing was revealed.
    assert!(matches!(game.map[0].state, TileState::Hidden));
}

#[test]
fn digging_a_count_reveals_only_it() {
    let state = state_at(40, 20, 14, 7, 16, 8);
    let mut game = game_with(10, 5, vec![0], state, true);
    let status = dig_tile(&mut game);
    assert!(matches!(status, Status::Nothing));
    assert!(matches!(game.map[1].tiletype, TileType::Close(1)));
    assert!(matches!(game.map[1].state, TileState::Revealed));
    for (i, t) in game.map.iter().enumerate() {
        if i != 1 {
            assert!(matches!(t.state, TileState::Hidden));
        }
    }
}

#[test]
fn digging_a_revealed_or_marked_tile_is_a_noop() {
    let state = state_at(40, 20, 14, 7, 16, 8);
    let mut game = game_with(10, 5, vec![0], state, true);
    mark_tile(&mut game);
    assert!(matches!(game.map[1].state, TileState::Marked));
    assert!(matches!(dig_tile(&mut game), Status::Nothing));
    assert!(matches!(game.map[1].state, TileState::Marked));
}

#[test]
fn mark_toggles_and_respects_revealed() {
    let state = state_at(40, 20, 14, 7, 15, 8);
    let mut game = game_with(10, 5, Vec::new(), state, true);
    mark_tile(&mut game);
    assert!(matches!(game.map[0].state, TileState::Marked));
    mark_tile(&mut game);
    assert!(matches!(game.map[0].state, TileState::Hidden));
    game.map[0].state = TileState::Revealed;
    mark_tile(&mut game);
    assert!(matches!(game.map[0].state, TileState::Revealed));
}

#[test]
fn mouse_press_moves_then_digs() {
    let state = state_at(40, 20, 14, 7, 15, 8);
    let mut game = game_with(10, 5, vec![0], state, true);
    // Left press on relative (1, 0): the count tile next to the mine.
    let status = game.mouse_event(MouseInput::Press(MouseButtonInput::LeftButton, 16, 8));
    assert_eq!(game.state.cursor_column, 16);
    assert!(matches!(status, Status::Nothing));
    assert!(matches!(game.map[1].state, TileState::Revealed));
    // Right press marks.
    game.mouse_event(MouseInput::Press(MouseButtonInput::RightButton, 17, 8));
    assert!(matches!(game.map[2].state, TileState::Marked));
    // Other events do nothing.
    assert!(matches!(game.mouse_event(MouseInput::Other), Status::Nothing));
}

#[test]
fn new_map_draws_requested_mines_in_range() {
    let mut game = Game::new(10, 5);
    game.new_map(10);
    assert_eq!(game.mines.len(), 10);
    assert_eq!(game.map.len(), 50);
    for m in &game.mines {
        assert!(*m < 50);
    }
}

#[test]
fn render_small_board() {
    // A 2x1 board in a 6x4 viewport: boundary_left 1, boundary_top 1,
    // one blank line on top, three rows of width 6, no trailing blanks.
    let state = state_at(6, 4, 1, 1, 2, 2);
    let game = game_with(2, 1, Vec::new(), state, true);
    let s = render(&game);
    assert_eq!(s, format!("\n{}{}{}", " #### ", " #██# ", " #### "));
}

#[test]
fn reveal_all_key_is_diagnostic() {
    let state = state_at(40, 20, 14, 7, 15, 8);
    let mut game = game_with(10, 5, vec![0], state, true);
    let status = game.key_event(KeyInput::Character('p'));
    assert!(matches!(status, Status::Nothing));
    for t in &game.map {
        assert!(matches!(t.state, TileState::Revealed));
    }
}
