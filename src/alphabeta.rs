use vstd::prelude::*;
use crate::board::{BoardView, Disc, Position};
use crate::game::Othello;
use crate::search::{alphabeta_search, scorer, Evaluation, Heuristic, MoveOrder, Node, Outcome, Search};
use crate::tree::alphabeta_node;

verus! {

/// Alpha-beta over the children in board-scan order.
pub struct AlphaBeta<H> {
    heuristic: Box<H>,
    expanded: usize,
    generated: usize,
}

impl<H: Heuristic> AlphaBeta<H> {
    /// The heuristic that scores the leaves.
    pub closed spec fn evaluator(&self) -> H {
        *self.heuristic
    }

    pub fn new(heuristic: Box<H>) -> (r: Box<AlphaBeta<H>>)
        ensures
            r.evaluator() == *heuristic,
            r.expanded() == 0,
            r.generated() == 0,
    {
        Box::new(AlphaBeta { heuristic, expanded: 0, generated: 0 })
    }
}

impl<H: Heuristic> Search for AlphaBeta<H> {
    open spec fn exact(&self) -> bool {
        self.evaluator().exact()
    }

    open spec fn accepts(&self, width: nat, height: nat) -> bool {
        self.evaluator().accepts(width, height)
    }

    open spec fn outcome(&self, b: BoardView, player: Disc, depth: nat) -> Outcome {
        alphabeta_search(scorer(self.evaluator()), MoveOrder::Scan, b, player, depth)
    }

    closed spec fn expanded(&self) -> nat {
        self.expanded as nat
    }

    closed spec fn generated(&self) -> nat {
        self.generated as nat
    }

    fn search(&mut self, game: &Othello, player: Disc, depth: usize) -> (r: (
        Option<Position>,
        Evaluation,
    )) {
        self.expanded = 0;
        alphabeta_node(
            &mut *self.heuristic,
            &mut self.expanded,
            &mut self.generated,
            MoveOrder::Scan,
            Node::Max,
            game,
            player,
            player,
            depth,
            isize::MIN,
            isize::MAX,
        )
    }

    fn nodes_expanded(&self) -> (r: usize) {
        self.expanded
    }

    fn nodes_generated(&self) -> (r: usize) {
        self.generated
    }
}

} // verus!
