use chess_core::Board;
use chess_core::Figure;
use chess_core::FigureType;
use chess_core::Game;
use chess_core::Player;
use chess_core::Position;

#[test]
fn click_selects_then_moves_then_ignores() {
    let rook = Figure::new(FigureType::Rook, Position::new(0, 0), true, true);
    let mut board = Board {
        figures: vec![rook],
        round: 0,
        last_interacted_position: None,
    };

    // First click on the white rook in round 0: it becomes selected.
    board.position_interaction(0, 0);
    assert_eq!(board.last_interacted_position, Some(Position::new(0, 0)));
    assert_eq!(board.round, 0);

    // Second click on an empty reachable square: the rook relocates, the
    // round advances and the selection clears.
    board.position_interaction(0, 3);
    assert_eq!(board.last_interacted_position, None);
    assert_eq!(board.round, 1);
    assert_eq!(board.figures[0].position, Position::new(0, 3));
    assert!(!board.figures[0].first_move);

    // A third click on a square outside every move set mutates nothing.
    board.position_interaction(7, 7);
    assert_eq!(board.last_interacted_position, None);
    assert_eq!(board.round, 1);
    assert_eq!(board.figures[0].position, Position::new(0, 3));
}

#[test]
fn selected_click_outside_move_set_is_a_no_op() {
    let rook = Figure::new(FigureType::Rook, Position::new(0, 0), true, true);
    let mut board = Board {
        figures: vec![rook],
        round: 0,
        last_interacted_position: None,
    };
    board.position_interaction(0, 0);
    assert_eq!(board.last_interacted_position, Some(Position::new(0, 0)));

    // (4, 4) shares neither rank nor file with the rook: rejected, but the
    // selection still clears and the round stays put.
    board.position_interaction(4, 4);
    assert_eq!(board.last_interacted_position, None);
    assert_eq!(board.round, 0);
    assert_eq!(board.figures[0].position, Position::new(0, 0));
}

#[test]
fn capture_marks_victim_dead_and_relocates() {
    let white_rook = Figure::new(FigureType::Rook, Position::new(0, 0), true, true);
    let black_rook = Figure::new(FigureType::Rook, Position::new(0, 5), false, true);
    let mut board = Board {
        figures: vec![white_rook, black_rook],
        round: 0,
        last_interacted_position: None,
    };
    board.position_interaction(0, 0);
    board.position_interaction(0, 5);
    assert_eq!(board.round, 1);
    assert_eq!(board.last_interacted_position, None);
    assert_eq!(board.figures[0].position, Position::new(0, 5));
    assert!(board.figures[0].alive);
    assert!(!board.figures[1].alive);
    // The tombstone keeps its slot and its last position.
    assert_eq!(board.figures[1].position, Position::new(0, 5));
}

#[test]
fn wrong_turn_click_is_ignored() {
    let black_rook = Figure::new(FigureType::Rook, Position::new(0, 5), false, true);
    let mut board = Board {
        figures: vec![black_rook],
        round: 0,
        last_interacted_position: None,
    };
    // Round 0 is white's; clicking the black rook selects nothing.
    board.position_interaction(0, 5);
    assert_eq!(board.last_interacted_position, None);
    assert_eq!(board.round, 0);
}

#[test]
fn empty_square_click_is_ignored() {
    let mut board = Board::init();
    board.position_interaction(4, 4);
    assert_eq!(board.last_interacted_position, None);
    assert_eq!(board.round, 0);
}

#[test]
fn out_of_range_click_never_mutates() {
    let rook = Figure::new(FigureType::Rook, Position::new(0, 0), true, true);
    let mut board = Board {
        figures: vec![rook],
        round: 0,
        last_interacted_position: None,
    };
    board.position_interaction(0, 0);
    // The rook's raw ray reaches (-1, 0), but off-board squares are clipped
    // before the click is resolved.
    board.position_interaction(-1, 0);
    assert_eq!(board.last_interacted_position, None);
    assert_eq!(board.round, 0);
    assert_eq!(board.figures[0].position, Position::new(0, 0));
}

#[test]
fn round_advances_by_exactly_one_per_applied_move() {
    let mut board = Board::init();
    assert_eq!(board.round, 0);
    // White knight b1 to c3.
    board.position_interaction(1, 0);
    board.position_interaction(2, 2);
    assert_eq!(board.round, 1);
    // Black knight b8 to c6.
    board.position_interaction(1, 7);
    board.position_interaction(2, 5);
    assert_eq!(board.round, 2);
    // A rejected interaction leaves the round alone.
    board.position_interaction(7, 3);
    assert_eq!(board.round, 2);
}

#[test]
fn get_options_respects_turn_and_occupancy() {
    let board = Board::init();
    // White pawn a2 may step one or two squares in round 0.
    let options = board.get_options(0, 1).unwrap();
    assert_eq!(
        options.movable,
        vec![Position::new(0, 2), Position::new(0, 3)]
    );
    assert_eq!(options.killable, vec![]);
    // Black pieces cannot move in round 0, empty squares never can.
    assert!(board.get_options(0, 6).is_none());
    assert!(board.get_options(4, 4).is_none());
}

#[test]
fn initial_board_layout() {
    let board = Board::init();
    assert_eq!(board.figures.len(), 32);
    assert_eq!(board.round, 0);
    assert_eq!(board.last_interacted_position, None);
    assert_eq!(board.figures[0].kind, FigureType::Rook);
    assert_eq!(board.figures[0].position, Position::new(0, 0));
    assert!(board.figures[0].white);
    assert_eq!(board.figures[4].kind, FigureType::King);
    assert_eq!(board.figures[4].position, Position::new(4, 0));
    assert_eq!(board.figures[12].kind, FigureType::King);
    assert_eq!(board.figures[12].position, Position::new(4, 7));
    assert!(!board.figures[12].white);
    assert_eq!(board.figures[16].kind, FigureType::Pawn);
    assert_eq!(board.figures[16].position, Position::new(0, 1));
    assert!(board.figures[16].white);
    assert_eq!(board.figures[17].position, Position::new(0, 6));
    assert!(!board.figures[17].white);
    for figure in &board.figures {
        assert!(figure.alive);
        assert!(figure.first_move);
    }
}

#[test]
fn occupancy_lookups() {
    let mut board = Board::init();
    assert!(board.occupied_by(Position::new(0, 0)).is_some());
    assert!(board.occupied_by(Position::new(4, 4)).is_none());
    assert_eq!(
        board.get_figure_from_position(Position::new(4, 0)).unwrap().kind,
        FigureType::King
    );
    // The mutable lookup hands out the live occupant itself.
    let pawn = board.get_figure_from_position_mut(Position::new(0, 1)).unwrap();
    assert_eq!(pawn.kind, FigureType::Pawn);
    pawn.alive = false;
    assert!(board.occupied_by(Position::new(0, 1)).is_none());
    assert!(board.get_figure_from_position_mut(Position::new(4, 4)).is_none());
}

#[test]
fn dead_figures_are_invisible_to_queries() {
    let mut queen = Figure::new(FigureType::Queen, Position::new(4, 4), true, true);
    queen.alive = false;
    let king = Figure::new(FigureType::King, Position::new(6, 4), false, true);
    let board = Board {
        figures: vec![queen, king.clone()],
        round: 0,
        last_interacted_position: None,
    };
    assert!(board.occupied_by(Position::new(4, 4)).is_none());
    assert_eq!(board.position_threatened_from(&king), vec![]);
}

#[test]
fn game_init_and_player_color() {
    let mut game = Game::init();
    assert_eq!(game.board.figures.len(), 32);
    assert_eq!(game.board.round, 0);
    assert!(!game.player.white);
    game.player.set_white(true);
    assert!(game.player.white);
    let fresh = Player::default();
    assert!(!fresh.white);
}
