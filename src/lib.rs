pub mod ab_order;
pub mod ab_order_unit;
pub mod alphabeta;
pub mod arena;
pub mod board;
pub mod cursor;
pub mod game;
pub mod heuristic;
pub mod minimax;
pub mod ordering;
pub mod pruning;
pub mod rules;
pub mod search;
pub mod setup;
pub mod tree;
