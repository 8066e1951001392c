use apollo::arena::{play, random_game};
use apollo::board::{Board, Disc, Position};
use apollo::cursor::{bind_position, cursor_position};
use apollo::game::Othello;
use apollo::heuristic::{random_score, HRandom};
use apollo::search::{Heuristic, Search};
use apollo::setup::{
    extract_algorithm_depth, extract_heuristic_name, extract_search_algorithm, extract_search_name,
    parse_depth, DepthError, Engine, Evaluator,
};

fn err<T>(r: Result<T, String>) -> String {
    match r {
        Ok(_) => panic!("expected an error"),
        Err(e) => e,
    }
}

#[test]
fn heuristic_names() {
    assert!(matches!(extract_heuristic_name("0"), Ok(Evaluator::Zero(_))));
    assert!(matches!(extract_heuristic_name("random"), Ok(Evaluator::Random(_))));
    assert!(matches!(extract_heuristic_name("unit"), Ok(Evaluator::Unit(_))));
    assert!(matches!(extract_heuristic_name("weight"), Ok(Evaluator::Weighted(_))));
    assert!(matches!(extract_heuristic_name("mobility"), Ok(Evaluator::Mobility(_))));
    assert!(matches!(extract_heuristic_name("weight-mobility"), Ok(Evaluator::WeightedMobility(_))));
    assert_eq!(err(extract_heuristic_name("units")), "Unknown heuristic function 'units'!");
    assert_eq!(err(extract_heuristic_name("")), "Unknown heuristic function ''!");
}

#[test]
fn search_names() {
    let h = || extract_heuristic_name("unit").unwrap();
    assert!(matches!(extract_search_name("mini", h()), Ok(Engine::Minimax(_))));
    assert!(matches!(extract_search_name("ab", h()), Ok(Engine::AlphaBeta(_))));
    assert!(matches!(extract_search_name("ab-order", h()), Ok(Engine::Ordering(_))));
    assert!(matches!(extract_search_name("ab-order-unit", h()), Ok(Engine::OrderingUnit(_))));
    assert_eq!(err(extract_search_name("alpha", h())), "Unknown search algorithm name 'alpha'!");
}

#[test]
fn algorithm_with_depth() {
    let (e, d) = extract_algorithm_depth("ab:unit:3").unwrap();
    assert!(matches!(e, Engine::AlphaBeta(_)));
    assert_eq!(d, 3);
    let (e, d) = extract_algorithm_depth("mini:weight:+12:extra").unwrap();
    assert!(matches!(e, Engine::Minimax(_)));
    assert_eq!(d, 12);
}

#[test]
fn algorithm_with_depth_errors() {
    assert_eq!(
        err(extract_algorithm_depth("ab:unit")),
        "Invalid depth-suffixed algorithm string 'ab:unit'!"
    );
    assert_eq!(err(extract_algorithm_depth("")), "Invalid depth-suffixed algorithm string ''!");
    assert_eq!(err(extract_algorithm_depth("ab:nope:3")), "Unknown heuristic function 'nope'!");
    assert_eq!(err(extract_algorithm_depth("xx:nope:3")), "Unknown heuristic function 'nope'!");
    assert_eq!(err(extract_algorithm_depth("xx:unit:3")), "Unknown search algorithm name 'xx'!");
    assert_eq!(err(extract_algorithm_depth("ab:unit:")), "cannot parse integer from empty string");
    assert_eq!(err(extract_algorithm_depth("ab:unit:3x")), "invalid digit found in string");
    assert_eq!(err(extract_algorithm_depth("ab:unit:-3")), "invalid digit found in string");
    assert_eq!(err(extract_algorithm_depth("ab:unit:+")), "invalid digit found in string");
    assert_eq!(
        err(extract_algorithm_depth("ab:unit:99999999999999999999999")),
        "number too large to fit in target type"
    );
}

#[test]
fn algorithm_without_depth() {
    assert!(matches!(extract_search_algorithm("ab-order:weight-mobility"), Ok(Engine::Ordering(_))));
    assert!(matches!(extract_search_algorithm("ab-order-unit:unit:7"), Ok(Engine::OrderingUnit(_))));
    assert_eq!(
        err(extract_search_algorithm("ab")),
        "Invalid non-depth-suffixed algorithm string 'ab'!"
    );
    assert_eq!(err(extract_search_algorithm("ab:")), "Unknown heuristic function ''!");
    assert_eq!(err(extract_search_algorithm(":unit")), "Unknown search algorithm name ''!");
}

#[test]
fn depth_parser() {
    assert_eq!(parse_depth("0"), Ok(0));
    assert_eq!(parse_depth("007"), Ok(7));
    assert_eq!(parse_depth(""), Err(DepthError::Empty));
    assert_eq!(parse_depth(" 7"), Err(DepthError::InvalidDigit));
    assert_eq!(parse_depth("18446744073709551615"), Ok(usize::MAX));
    assert_eq!(parse_depth("18446744073709551616"), Err(DepthError::TooLarge));
    assert_eq!(parse_depth("99999999999999999999x"), Err(DepthError::TooLarge));
    assert_eq!(DepthError::Empty.message(), "cannot parse integer from empty string");
}

#[test]
fn named_engine_searches() {
    let game = Othello::new(Board::default());
    let mut e = extract_search_algorithm("ab:unit").unwrap();
    assert_eq!(e.search(&game, Disc::Black, 1), (Some(Position::new(2, 4)), 3));
    assert_eq!(e.nodes_expanded(), 5);
    assert_eq!(e.nodes_generated(), 4);
}

#[test]
fn random_score_keeps_the_sign() {
    assert_eq!(random_score(27), 7);
    assert_eq!(random_score(-13), -3);
    assert_eq!(random_score(-20), 0);
    assert_eq!(random_score(isize::MIN), -8);
    assert_eq!(random_score(isize::MAX), 7);
}

#[test]
fn random_eval_stays_small() {
    let game = Othello::new(Board::default());
    let mut h = HRandom::new();
    for _ in 0..200 {
        let v = h.eval(&game, Disc::Black);
        assert!((-9..=9).contains(&v));
    }
}

#[test]
fn random_search_returns_a_valid_move() {
    let game = Othello::new(Board::default());
    let (mut e, d) = extract_algorithm_depth("mini:random:2").unwrap();
    let (m, v) = e.search(&game, Disc::Black, d);
    assert!(game.is_valid_move(m.unwrap(), Disc::Black));
    assert!((-9..=9).contains(&v));
}

#[test]
fn play_runs_to_the_end() {
    let mut game = Othello::new(Board::default());
    let (mut a1, d1) = extract_algorithm_depth("ab-order:weight-mobility:2").unwrap();
    let (mut a2, d2) = extract_algorithm_depth("ab:unit:1").unwrap();
    play(&mut game, &mut a1, d1, &mut a2, d2);
    assert!(!game.any_valid_moves());
    let mut discs = 0;
    for row in 0..8 {
        for col in 0..8 {
            if game.board().at(Position::new(row, col)) != Disc::Empty {
                discs += 1;
            }
        }
    }
    assert!(discs > 4);
}

#[test]
fn play_stops_when_nobody_moves() {
    let mut game = Othello::new(Board::default());
    let (mut a1, _) = extract_algorithm_depth("mini:unit:0").unwrap();
    let (mut a2, _) = extract_algorithm_depth("ab:unit:0").unwrap();
    play(&mut game, &mut a1, 0, &mut a2, 0);
    assert_eq!(game.winner(), None);
    assert!(game.any_valid_moves());
}

#[test]
fn random_game_is_the_opening() {
    let game = random_game(6);
    assert_eq!(game.valid_moves(Disc::Black).len(), 4);
    assert_eq!(game.board().at(Position::new(3, 3)), Disc::Black);
    assert_eq!(game.winner(), None);
}

#[test]
fn cursor_is_kept_on_the_board() {
    let board = Board::default();
    assert_eq!(bind_position(&board, Position::new(-1, 9)), Position::new(0, 7));
    assert_eq!(bind_position(&board, Position::new(8, -3)), Position::new(7, 0));
    assert_eq!(bind_position(&board, Position::new(4, 5)), Position::new(4, 5));
}

#[test]
fn cursor_screen_cell() {
    assert_eq!(cursor_position(Position::new(0, 0)), (2, 1));
    assert_eq!(cursor_position(Position::new(3, 5)), (8, 21));
}
