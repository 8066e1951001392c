use apollo::board::{Board, Disc, Position};
use apollo::game::Othello;

fn opening() -> Othello {
    Othello::new(Board::default())
}

fn count(game: &Othello, disc: Disc) -> usize {
    let board = game.board();
    let mut n = 0;
    for row in 0..board.height() {
        for col in 0..board.width() {
            if board.at(Position::new(row as isize, col as isize)) == disc {
                n += 1;
            }
        }
    }
    n
}

#[test]
fn opponent_swaps_colours() {
    assert_eq!(Disc::Black.opponent(), Disc::White);
    assert_eq!(Disc::White.opponent(), Disc::Black);
}

#[test]
fn new_board_is_empty_with_its_dimensions() {
    let board = Board::new(5, 3);
    assert_eq!(board.width(), 5);
    assert_eq!(board.height(), 3);
    assert_eq!(board.len(), 15);
    for row in 0..3 {
        for col in 0..5 {
            assert_eq!(board.at(Position::new(row, col)), Disc::Empty);
        }
    }
}

#[test]
fn set_writes_one_cell() {
    let mut board = Board::new(4, 4);
    board.set(Position::new(1, 2), Disc::White);
    assert_eq!(board.at(Position::new(1, 2)), Disc::White);
    assert_eq!(board.at(Position::new(2, 1)), Disc::Empty);
    board.black(Position::new(0, 0)).white(Position::new(3, 3));
    assert_eq!(board.at(Position::new(0, 0)), Disc::Black);
    assert_eq!(board.at(Position::new(3, 3)), Disc::White);
}

#[test]
fn default_board_is_the_opening() {
    let board = Board::default();
    assert_eq!(board.width(), 8);
    assert_eq!(board.height(), 8);
    assert_eq!(board.at(Position::new(3, 3)), Disc::Black);
    assert_eq!(board.at(Position::new(3, 4)), Disc::White);
    assert_eq!(board.at(Position::new(4, 3)), Disc::White);
    assert_eq!(board.at(Position::new(4, 4)), Disc::Black);
    let game = opening();
    assert_eq!(count(&game, Disc::Black), 2);
    assert_eq!(count(&game, Disc::White), 2);
}

#[test]
fn opening_moves_for_black() {
    let game = opening();
    assert_eq!(
        game.valid_moves(Disc::Black),
        vec![
            Position::new(2, 4),
            Position::new(3, 5),
            Position::new(4, 2),
            Position::new(5, 3)
        ]
    );
}

#[test]
fn opening_moves_for_white() {
    let game = opening();
    assert_eq!(
        game.valid_moves(Disc::White),
        vec![
            Position::new(2, 3),
            Position::new(3, 2),
            Position::new(4, 5),
            Position::new(5, 4)
        ]
    );
}

#[test]
fn occupied_cell_is_rejected() {
    let game = opening();
    assert!(!game.is_valid_move(Position::new(3, 3), Disc::Black));
    assert!(!game.is_valid_move(Position::new(3, 4), Disc::Black));
}

#[test]
fn cell_without_enclosed_run_is_rejected() {
    let game = opening();
    assert!(!game.is_valid_move(Position::new(0, 0), Disc::Black));
    assert!(!game.is_valid_move(Position::new(2, 2), Disc::Black));
    assert!(!game.is_valid_move(Position::new(2, 3), Disc::Black));
}

#[test]
fn cell_off_the_board_is_rejected() {
    let game = opening();
    assert!(!game.is_valid_move(Position::new(-1, 3), Disc::Black));
    assert!(!game.is_valid_move(Position::new(3, -1), Disc::Black));
    assert!(!game.is_valid_move(Position::new(8, 3), Disc::Black));
    assert!(!game.is_valid_move(Position::new(3, 8), Disc::White));
}

#[test]
fn run_open_at_the_edge_is_rejected() {
    // White discs up to the edge with no black disc behind them.
    let mut board = Board::new(4, 1);
    board.set(Position::new(0, 1), Disc::White);
    board.set(Position::new(0, 2), Disc::White);
    board.set(Position::new(0, 3), Disc::White);
    let game = Othello::new(board);
    assert!(!game.is_valid_move(Position::new(0, 0), Disc::Black));
    assert!(game.valid_moves(Disc::Black).is_empty());
}

#[test]
fn place_turns_the_enclosed_disc() {
    let mut game = opening();
    game.place(Position::new(2, 4), Disc::Black);
    let board = game.board();
    assert_eq!(board.at(Position::new(2, 4)), Disc::Black);
    assert_eq!(board.at(Position::new(3, 4)), Disc::Black);
    assert_eq!(board.at(Position::new(4, 3)), Disc::White);
    assert_eq!(count(&game, Disc::Black), 4);
    assert_eq!(count(&game, Disc::White), 1);
}

#[test]
fn place_turns_runs_in_several_directions() {
    // Black on (2,2) encloses one white disc to the left and one above.
    let mut board = Board::new(5, 5);
    board.set(Position::new(2, 0), Disc::Black);
    board.set(Position::new(2, 1), Disc::White);
    board.set(Position::new(0, 2), Disc::Black);
    board.set(Position::new(1, 2), Disc::White);
    board.set(Position::new(2, 3), Disc::White);
    board.set(Position::new(2, 4), Disc::White);
    let mut game = Othello::new(board);
    let black_before = count(&game, Disc::Black);
    let white_before = count(&game, Disc::White);
    assert!(game.is_valid_move(Position::new(2, 2), Disc::Black));
    game.place(Position::new(2, 2), Disc::Black);
    let b = game.board();
    assert_eq!(b.at(Position::new(2, 1)), Disc::Black);
    assert_eq!(b.at(Position::new(1, 2)), Disc::Black);
    // (2,3),(2,4) run to the edge: not enclosed, not turned.
    assert_eq!(b.at(Position::new(2, 3)), Disc::White);
    assert_eq!(b.at(Position::new(2, 4)), Disc::White);
    assert_eq!(count(&game, Disc::Black), black_before + 1 + 2);
    assert_eq!(count(&game, Disc::White), white_before - 2);
}

#[test]
fn place_counts_grow_by_one_disc() {
    let mut game = opening();
    let mut side = Disc::Black;
    for _ in 0..8 {
        let moves = game.valid_moves(side);
        if moves.is_empty() {
            side = side.opponent();
            continue;
        }
        let m = moves[0];
        let own = count(&game, side);
        let other = count(&game, side.opponent());
        game.place(m, side);
        let own_after = count(&game, side);
        let other_after = count(&game, side.opponent());
        assert!(own_after > own);
        assert_eq!(own_after + other_after, own + other + 1);
        let flipped = other - other_after;
        assert!(flipped >= 1);
        assert_eq!(own_after, own + 1 + flipped);
        side = side.opponent();
    }
}

#[test]
fn no_winner_on_equal_counts() {
    assert_eq!(opening().winner(), None);
    let board = Board::new(3, 3);
    assert_eq!(Othello::new(board).winner(), None);
}

#[test]
fn winner_is_the_larger_colour() {
    let mut game = opening();
    game.place(Position::new(2, 4), Disc::Black);
    assert_eq!(game.winner(), Some(Disc::Black));
    let mut board = Board::new(2, 2);
    board.set(Position::new(0, 0), Disc::White);
    board.set(Position::new(1, 1), Disc::White);
    board.set(Position::new(0, 1), Disc::Black);
    assert_eq!(Othello::new(board).winner(), Some(Disc::White));
}

#[test]
fn any_valid_moves_on_opening_and_on_full_board() {
    assert!(opening().any_valid_moves());
    let mut board = Board::new(2, 2);
    board.set(Position::new(0, 0), Disc::White);
    board.set(Position::new(0, 1), Disc::White);
    board.set(Position::new(1, 0), Disc::Black);
    board.set(Position::new(1, 1), Disc::Black);
    assert!(!Othello::new(board).any_valid_moves());
    // One side stuck, the other not: still a live game.
    let mut board = Board::new(3, 1);
    board.set(Position::new(0, 0), Disc::Black);
    board.set(Position::new(0, 1), Disc::White);
    let game = Othello::new(board);
    assert!(game.valid_moves(Disc::White).is_empty());
    assert_eq!(game.valid_moves(Disc::Black), vec![Position::new(0, 2)]);
    assert!(game.any_valid_moves());
}
