use chess_core::Board;
use chess_core::Figure;
use chess_core::FigureType;
use chess_core::MoveOptions;
use chess_core::Position;
use chess_core::is_figures_turn;

#[test]
fn test_is_check() {
    let queen = Figure::new(FigureType::Queen, Position::new(4, 4), true, true);
    let king = Figure::new(FigureType::King, Position::new(6, 4), false, true);
    let board = Board {
        figures: vec![queen.clone(), king.clone()],
        round: 0,
        last_interacted_position: None,
    };
    assert_eq!(board.position_threatened_from(&king), vec![queen.position]);

    let board = Board {
        figures: vec![king.clone()],
        round: 0,
        last_interacted_position: None,
    };
    assert_eq!(board.position_threatened_from(&king), vec![]);

    let queen = Figure::new(FigureType::Queen, Position::new(4, 4), false, true);
    let king = Figure::new(FigureType::King, Position::new(6, 4), false, true);
    let board = Board {
        figures: vec![queen.clone(), king.clone()],
        round: 0,
        last_interacted_position: None,
    };
    assert_eq!(board.position_threatened_from(&king), vec![]);
}

#[test]
fn pawn_test() {
    let pawn = Figure::new(FigureType::Pawn, Position::new(4, 4), true, true);
    let raw_options = MoveOptions {
        movable: vec![Position::new(4, 5), Position::new(4, 6)],
        killable: vec![],
    };
    assert_eq!(
        pawn.get_move_options(&Board {
            round: 0,
            figures: vec![],
            last_interacted_position: None,
        }),
        raw_options
    );
    let pawn = Figure::new(FigureType::Pawn, Position::new(4, 4), true, false);
    let raw_options = MoveOptions {
        movable: vec![Position::new(4, 5)],
        killable: vec![],
    };
    assert_eq!(
        pawn.get_move_options(&Board {
            figures: vec![],
            round: 1,
            last_interacted_position: None,
        }),
        raw_options
    );
}

#[test]
fn remove_out_of_bounds_position() {
    let raw_options = MoveOptions {
        movable: vec![
            Position::new(-4, 5),
            Position::new(-4, -5),
            Position::new(4, -5),
            Position::new(8, 5),
            Position::new(5, 8),
            Position::new(-4, 8),
            Position::new(4, 5),
            Position::new(0, 5),
            Position::new(7, 5),
            Position::new(5, 7),
            Position::new(7, 7),
        ],
        killable: vec![],
    };
    let inbound_options = MoveOptions {
        movable: vec![
            Position::new(4, 5),
            Position::new(0, 5),
            Position::new(7, 5),
            Position::new(5, 7),
            Position::new(7, 7),
        ],
        killable: vec![],
    };
    assert_eq!(raw_options.remove_out_of_bounds_options(), inbound_options);
}

#[test]
fn is_turn_of() {
    let white = true;
    let black = false;
    assert_eq!(is_figures_turn(white, 0), true);
    assert_eq!(is_figures_turn(black, 0), false);
    assert_eq!(is_figures_turn(white, 1), false);
    assert_eq!(is_figures_turn(black, 1), true);
}
