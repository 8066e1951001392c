use apollo::ab_order::AlphaBetaOrdering;
use apollo::ab_order_unit::AlphaBetaOrderingUnit;
use apollo::alphabeta::AlphaBeta;
use apollo::board::{Board, Disc, Position};
use apollo::game::Othello;
use apollo::heuristic::{HMobility, HUnit, HWeighted, HWeightedMobility, HZero};
use apollo::minimax::Minimax;
use apollo::search::{Heuristic, Node, Search};
use apollo::tree::sampled;

fn opening() -> Othello {
    Othello::new(Board::default())
}

/// A position a few plies into the game, reached by always playing the first valid move.
fn midgame(plies: usize) -> Othello {
    let mut game = opening();
    let mut side = Disc::Black;
    for _ in 0..plies {
        let moves = game.valid_moves(side);
        if let Some(m) = moves.last() {
            game.place(*m, side);
        }
        side = side.opponent();
    }
    game
}

#[test]
fn unit_eval_of_opening_is_zero() {
    let game = opening();
    assert_eq!(HUnit.eval(&game, Disc::Black), 0);
    assert_eq!(HUnit.eval(&game, Disc::White), 0);
}

#[test]
fn unit_eval_counts_disc_difference() {
    let mut game = opening();
    game.place(Position::new(2, 4), Disc::Black);
    assert_eq!(HUnit.eval(&game, Disc::Black), 3);
    assert_eq!(HUnit.eval(&game, Disc::White), -3);
}

#[test]
fn zero_eval_is_zero() {
    let game = midgame(5);
    assert_eq!(HZero.eval(&game, Disc::Black), 0);
}

#[test]
fn weighted_eval_uses_the_table() {
    let game = opening();
    assert_eq!(HWeighted.eval(&game, Disc::Black), 0);
    let mut board = Board::default();
    board.set(Position::new(0, 0), Disc::Black);
    board.set(Position::new(1, 1), Disc::White);
    board.set(Position::new(0, 7), Disc::White);
    let game = Othello::new(board);
    // Black: 120 + 3 + 3; White: -40 + 120 + 3 + 3.
    assert_eq!(HWeighted.eval(&game, Disc::Black), 126 - 86);
    assert_eq!(HWeighted.eval(&game, Disc::White), 86 - 126);
}

#[test]
fn mobility_eval_counts_moves() {
    let game = opening();
    assert_eq!(HMobility.eval(&game, Disc::Black), 4);
    assert_eq!(HMobility.eval(&game, Disc::White), 4);
}

#[test]
fn weighted_mobility_eval_combines_both() {
    let game = opening();
    let mut h = HWeightedMobility::new();
    assert_eq!(h.eval(&game, Disc::Black), 20);
    let mut board = Board::default();
    board.set(Position::new(0, 0), Disc::Black);
    let game = Othello::new(board);
    let expected = HWeighted.eval(&game, Disc::Black) + 5 * HMobility.eval(&game, Disc::Black);
    assert_eq!(h.eval(&game, Disc::Black), expected);
}

#[test]
fn sampled_score_reads_every_other_cell() {
    let game = opening();
    // Of the centre, only (4, 4) lies on an even row and an even column.
    assert_eq!(sampled(&game, Disc::Black), 1);
    assert_eq!(sampled(&game, Disc::White), -1);
    let mut board = Board::default();
    board.set(Position::new(0, 1), Disc::White);
    board.set(Position::new(2, 6), Disc::White);
    let game = Othello::new(board);
    assert_eq!(sampled(&game, Disc::Black), 0);
}

#[test]
fn depth_one_minimax_and_alphabeta_agree_on_opening() {
    let game = opening();
    let mut mm = Minimax::new(HUnit::new());
    let mut ab = AlphaBeta::new(HUnit::new());
    let r1 = mm.search(&game, Disc::Black, 1);
    let r2 = ab.search(&game, Disc::Black, 1);
    assert_eq!(r1, r2);
    assert_eq!(r1, (Some(Position::new(2, 4)), 3));
    assert_eq!(mm.nodes_generated(), 4);
    assert_eq!(ab.nodes_generated(), 4);
    assert_eq!(mm.nodes_expanded(), 5);
}

#[test]
fn depth_zero_search_scores_the_root() {
    let game = midgame(3);
    let expected = HUnit.eval(&game, Disc::White);
    let mut mm = Minimax::new(HUnit::new());
    assert_eq!(mm.search(&game, Disc::White, 0), (None, expected));
    assert_eq!(mm.nodes_expanded(), 1);
    let mut ab = AlphaBeta::new(HUnit::new());
    assert_eq!(ab.search(&game, Disc::White, 0), (None, expected));
    assert_eq!(ab.nodes_expanded(), 1);
    let mut ord = AlphaBetaOrdering::new(HUnit::new());
    assert_eq!(ord.search(&game, Disc::White, 0), (None, expected));
    assert_eq!(ord.nodes_expanded(), 1);
    let mut unit = AlphaBetaOrderingUnit::new(HUnit::new());
    assert_eq!(unit.search(&game, Disc::White, 0), (None, expected));
    assert_eq!(unit.nodes_expanded(), 1);
    assert_eq!(unit.nodes_generated(), 0);
}

#[test]
fn alphabeta_value_equals_minimax_value() {
    for plies in [0, 3, 7] {
        let game = midgame(plies);
        for depth in 0..5 {
            for side in [Disc::Black, Disc::White] {
                let mut mm = Minimax::new(HWeighted::new());
                let mut ab = AlphaBeta::new(HWeighted::new());
                let mut ord = AlphaBetaOrdering::new(HWeighted::new());
                let mut unit = AlphaBetaOrderingUnit::new(HWeighted::new());
                let v = mm.search(&game, side, depth).1;
                assert_eq!(ab.search(&game, side, depth).1, v);
                assert_eq!(ord.search(&game, side, depth).1, v);
                assert_eq!(unit.search(&game, side, depth).1, v);
            }
        }
    }
}

#[test]
fn alphabeta_expands_no_more_than_minimax() {
    for plies in [0, 4, 9] {
        let game = midgame(plies);
        for depth in 0..5 {
            let mut mm = Minimax::new(HUnit::new());
            let mut ab = AlphaBeta::new(HUnit::new());
            mm.search(&game, Disc::Black, depth);
            ab.search(&game, Disc::Black, depth);
            assert!(ab.nodes_expanded() <= mm.nodes_expanded());
            assert!(ab.nodes_generated() <= mm.nodes_generated());
        }
    }
}

#[test]
fn alphabeta_prunes_at_depth_three() {
    let game = opening();
    let mut mm = Minimax::new(HUnit::new());
    let mut ab = AlphaBeta::new(HUnit::new());
    mm.search(&game, Disc::Black, 3);
    ab.search(&game, Disc::Black, 3);
    assert!(ab.nodes_expanded() < mm.nodes_expanded());
}

#[test]
fn generated_count_accumulates_across_searches() {
    let game = opening();
    let mut mm = Minimax::new(HUnit::new());
    mm.search(&game, Disc::Black, 1);
    mm.search(&game, Disc::Black, 1);
    assert_eq!(mm.nodes_generated(), 8);
    assert_eq!(mm.nodes_expanded(), 5);
}

#[test]
fn search_returns_a_valid_move_or_none() {
    for plies in [0, 5, 10, 20] {
        let game = midgame(plies);
        for side in [Disc::Black, Disc::White] {
            let mut ord = AlphaBetaOrdering::new(HWeightedMobility::new());
            let (m, _) = ord.search(&game, side, 3);
            match m {
                Some(p) => assert!(game.is_valid_move(p, side)),
                None => assert!(game.valid_moves(side).is_empty()),
            }
        }
    }
}

#[test]
fn pass_spends_one_unit_of_depth() {
    // White has no move; Black has one.
    let mut board = Board::new(3, 1);
    board.set(Position::new(0, 0), Disc::Black);
    board.set(Position::new(0, 1), Disc::White);
    let game = Othello::new(board);
    let mut mm = Minimax::new(HUnit::new());
    // White passes (depth 1 -> 0): the leaf is the same board, read for White.
    assert_eq!(mm.search(&game, Disc::White, 1), (None, 0));
    assert_eq!(mm.nodes_expanded(), 2);
    assert_eq!(mm.nodes_generated(), 0);
    // Depth 2: White passes, Black plays (0, 2) and takes the white disc.
    assert_eq!(mm.search(&game, Disc::White, 2), (None, -3));
}

#[test]
fn ties_keep_the_first_move() {
    let game = opening();
    let mut mm = Minimax::new(HZero::new());
    assert_eq!(mm.search(&game, Disc::Black, 2), (Some(Position::new(2, 4)), 0));
}

#[test]
fn node_kinds_flip() {
    assert_eq!(Node::Max.opposite(), Node::Min);
    assert_eq!(Node::Min.opposite(), Node::Max);
    assert_eq!(Node::Max.start_value(), isize::MIN);
    assert!(Node::Min.improves(-1, 0));
    assert!(!Node::Max.improves(0, 0));
}

#[test]
fn alphabeta_move_equals_minimax_move() {
    for plies in [0, 2, 6, 11] {
        let game = midgame(plies);
        for depth in 0..5 {
            for side in [Disc::Black, Disc::White] {
                let mut mm = Minimax::new(HWeightedMobility::new());
                let mut ab = AlphaBeta::new(HWeightedMobility::new());
                assert_eq!(mm.search(&game, side, depth), ab.search(&game, side, depth));
            }
        }
    }
}
