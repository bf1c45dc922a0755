use chess_core::Board;
use chess_core::Figure;
use chess_core::FigureType;
use chess_core::MoveOptions;
use chess_core::Position;

fn empty_board() -> Board {
    Board {
        figures: vec![],
        round: 0,
        last_interacted_position: None,
    }
}

#[test]
fn king_in_corner_clipped() {
    let king = Figure::new(FigureType::King, Position::new(0, 0), true, true);
    let options = king.get_move_options(&empty_board()).remove_out_of_bounds_options();
    assert_eq!(
        options.movable,
        vec![Position::new(0, 1), Position::new(1, 1), Position::new(1, 0)]
    );
    assert_eq!(options.killable, vec![]);
}

#[test]
fn knight_in_corner_clipped() {
    let knight = Figure::new(FigureType::Knight, Position::new(0, 0), true, true);
    let options = knight.get_move_options(&empty_board()).remove_out_of_bounds_options();
    assert_eq!(options.movable, vec![Position::new(1, 2), Position::new(2, 1)]);
    assert_eq!(options.killable, vec![]);
}

#[test]
fn rook_ray_stops_at_first_occupied_square() {
    let rook = Figure::new(FigureType::Rook, Position::new(0, 0), true, true);
    let friend = Figure::new(FigureType::Pawn, Position::new(0, 3), true, true);
    let enemy = Figure::new(FigureType::Pawn, Position::new(3, 0), false, true);
    let board = Board {
        figures: vec![rook.clone(), friend, enemy],
        round: 0,
        last_interacted_position: None,
    };
    let options = rook.get_move_options(&board).remove_out_of_bounds_options();
    assert_eq!(
        options.movable,
        vec![
            Position::new(1, 0),
            Position::new(2, 0),
            Position::new(0, 1),
            Position::new(0, 2),
        ]
    );
    // The enemy square itself is capturable; squares beyond either blocker
    // are enumerated in neither list.
    assert_eq!(options.killable, vec![Position::new(3, 0)]);
    assert!(!options.movable.contains(&Position::new(4, 0)));
    assert!(!options.movable.contains(&Position::new(0, 3)));
    assert!(!options.movable.contains(&Position::new(0, 4)));
    assert!(!options.killable.contains(&Position::new(4, 0)));
    assert!(!options.killable.contains(&Position::new(0, 4)));
}

#[test]
fn bishop_rays_clipped() {
    let bishop = Figure::new(FigureType::Bishop, Position::new(4, 4), true, true);
    let enemy = Figure::new(FigureType::Queen, Position::new(6, 6), false, true);
    let board = Board {
        figures: vec![bishop.clone(), enemy],
        round: 0,
        last_interacted_position: None,
    };
    let options = bishop.get_move_options(&board).remove_out_of_bounds_options();
    assert_eq!(options.killable, vec![Position::new(6, 6)]);
    assert!(options.movable.contains(&Position::new(5, 5)));
    assert!(!options.movable.contains(&Position::new(6, 6)));
    assert!(!options.movable.contains(&Position::new(7, 7)));
    assert!(!options.killable.contains(&Position::new(7, 7)));
}

#[test]
fn queen_never_targets_same_side() {
    let queen = Figure::new(FigureType::Queen, Position::new(4, 4), true, true);
    let friend = Figure::new(FigureType::Pawn, Position::new(4, 6), true, true);
    let board = Board {
        figures: vec![queen.clone(), friend],
        round: 0,
        last_interacted_position: None,
    };
    let options = queen.get_move_options(&board);
    assert_eq!(options.killable, vec![]);
    assert!(options.movable.contains(&Position::new(4, 5)));
    assert!(!options.movable.contains(&Position::new(4, 6)));
    assert!(!options.movable.contains(&Position::new(4, 7)));
}

#[test]
fn pawn_diagonal_captures_enemy_only() {
    let pawn = Figure::new(FigureType::Pawn, Position::new(4, 4), true, true);
    let enemy = Figure::new(FigureType::Knight, Position::new(5, 5), false, true);
    let friend = Figure::new(FigureType::Knight, Position::new(3, 5), true, true);
    let board = Board {
        figures: vec![pawn.clone(), enemy, friend],
        round: 0,
        last_interacted_position: None,
    };
    let options = pawn.get_move_options(&board);
    assert_eq!(
        options.movable,
        vec![Position::new(4, 5), Position::new(4, 6)]
    );
    assert_eq!(options.killable, vec![Position::new(5, 5)]);
}

#[test]
fn pawn_blocked_in_front() {
    let pawn = Figure::new(FigureType::Pawn, Position::new(4, 4), true, true);
    let blocker = Figure::new(FigureType::Knight, Position::new(4, 5), false, true);
    let board = Board {
        figures: vec![pawn.clone(), blocker],
        round: 0,
        last_interacted_position: None,
    };
    let options = pawn.get_move_options(&board);
    assert_eq!(options.movable, vec![]);
    assert_eq!(options.killable, vec![]);
}

#[test]
fn pawn_double_step_needs_both_squares_free() {
    let pawn = Figure::new(FigureType::Pawn, Position::new(4, 4), true, true);
    let blocker = Figure::new(FigureType::Knight, Position::new(4, 6), false, true);
    let board = Board {
        figures: vec![pawn.clone(), blocker],
        round: 0,
        last_interacted_position: None,
    };
    let options = pawn.get_move_options(&board);
    assert_eq!(options.movable, vec![Position::new(4, 5)]);
}

#[test]
fn black_pawn_moves_down() {
    let pawn = Figure::new(FigureType::Pawn, Position::new(4, 6), false, true);
    let options = pawn.get_move_options(&empty_board());
    assert_eq!(
        options.movable,
        vec![Position::new(4, 5), Position::new(4, 4)]
    );
    assert_eq!(options.killable, vec![]);
}

#[test]
fn filter_applies_to_killable_as_well() {
    let raw = MoveOptions {
        movable: vec![],
        killable: vec![Position::new(-1, 2), Position::new(3, 3), Position::new(3, 8)],
    };
    let clipped = raw.remove_out_of_bounds_options();
    assert_eq!(clipped.killable, vec![Position::new(3, 3)]);
    assert_eq!(clipped.movable, vec![]);
}

#[test]
fn set_position_clears_first_move() {
    let mut pawn = Figure::new(FigureType::Pawn, Position::new(4, 1), true, true);
    pawn.set_position(4, 3);
    assert_eq!(pawn.position, Position::new(4, 3));
    assert!(!pawn.first_move);
    assert!(pawn.alive);
}
