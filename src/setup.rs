use vstd::prelude::*;
use crate::ab_order::AlphaBetaOrdering;
use crate::ab_order_unit::AlphaBetaOrderingUnit;
use crate::alphabeta::AlphaBeta;
use crate::board::{BoardView, Disc, Position};
use crate::game::Othello;
use crate::heuristic::{HMobility, HRandom, HUnit, HWeighted, HWeightedMobility, HZero};
use crate::minimax::Minimax;
use crate::search::{Evaluation, Heuristic, Outcome, Search};

verus! {

/// A heuristic chosen by name.
pub enum Evaluator {
    Zero(HZero),
    Random(HRandom),
    Unit(HUnit),
    Weighted(HWeighted),
    Mobility(HMobility),
    WeightedMobility(HWeightedMobility),
}

impl Heuristic for Evaluator {
    open spec fn exact(&self) -> bool {
        match self {
            Evaluator::Zero(h) => h.exact(),
            Evaluator::Random(h) => h.exact(),
            Evaluator::Unit(h) => h.exact(),
            Evaluator::Weighted(h) => h.exact(),
            Evaluator::Mobility(h) => h.exact(),
            Evaluator::WeightedMobility(h) => h.exact(),
        }
    }

    open spec fn score(&self, b: BoardView, player: Disc) -> int {
        match self {
            Evaluator::Zero(h) => h.score(b, player),
            Evaluator::Random(h) => h.score(b, player),
            Evaluator::Unit(h) => h.score(b, player),
            Evaluator::Weighted(h) => h.score(b, player),
            Evaluator::Mobility(h) => h.score(b, player),
            Evaluator::WeightedMobility(h) => h.score(b, player),
        }
    }

    open spec fn accepts(&self, width: nat, height: nat) -> bool {
        match self {
            Evaluator::Zero(h) => h.accepts(width, height),
            Evaluator::Random(h) => h.accepts(width, height),
            Evaluator::Unit(h) => h.accepts(width, height),
            Evaluator::Weighted(h) => h.accepts(width, height),
            Evaluator::Mobility(h) => h.accepts(width, height),
            Evaluator::WeightedMobility(h) => h.accepts(width, height),
        }
    }

    proof fn lemma_score_fits(&self, b: BoardView, player: Disc) {
        match self {
            Evaluator::Zero(h) => h.lemma_score_fits(b, player),
            Evaluator::Random(h) => h.lemma_score_fits(b, player),
            Evaluator::Unit(h) => h.lemma_score_fits(b, player),
            Evaluator::Weighted(h) => h.lemma_score_fits(b, player),
            Evaluator::Mobility(h) => h.lemma_score_fits(b, player),
            Evaluator::WeightedMobility(h) => h.lemma_score_fits(b, player),
        }
    }

    fn eval(&mut self, game: &Othello, player: Disc) -> (r: Evaluation) {
        match self {
            Evaluator::Zero(h) => h.eval(game, player),
            Evaluator::Random(h) => h.eval(game, player),
            Evaluator::Unit(h) => h.eval(game, player),
            Evaluator::Weighted(h) => h.eval(game, player),
            Evaluator::Mobility(h) => h.eval(game, player),
            Evaluator::WeightedMobility(h) => h.eval(game, player),
        }
    }
}

/// A search algorithm chosen by name, over a heuristic chosen by name.
pub enum Engine {
    Minimax(Box<Minimax<Evaluator>>),
    AlphaBeta(Box<AlphaBeta<Evaluator>>),
    Ordering(Box<AlphaBetaOrdering<Evaluator>>),
    OrderingUnit(Box<AlphaBetaOrderingUnit<Evaluator>>),
}

impl Engine {
    /// The heuristic the engine searches with.
    pub open spec fn evaluator(&self) -> Evaluator {
        match self {
            Engine::Minimax(s) => s.evaluator(),
            Engine::AlphaBeta(s) => s.evaluator(),
            Engine::Ordering(s) => s.evaluator(),
            Engine::OrderingUnit(s) => s.evaluator(),
        }
    }
}

impl Search for Engine {
    open spec fn exact(&self) -> bool {
        match self {
            Engine::Minimax(s) => s.exact(),
            Engine::AlphaBeta(s) => s.exact(),
            Engine::Ordering(s) => s.exact(),
            Engine::OrderingUnit(s) => s.exact(),
        }
    }

    open spec fn accepts(&self, width: nat, height: nat) -> bool {
        match self {
            Engine::Minimax(s) => s.accepts(width, height),
            Engine::AlphaBeta(s) => s.accepts(width, height),
            Engine::Ordering(s) => s.accepts(width, height),
            Engine::OrderingUnit(s) => s.accepts(width, height),
        }
    }

    open spec fn outcome(&self, b: BoardView, player: Disc, depth: nat) -> Outcome {
        match self {
            Engine::Minimax(s) => s.outcome(b, player, depth),
            Engine::AlphaBeta(s) => s.outcome(b, player, depth),
            Engine::Ordering(s) => s.outcome(b, player, depth),
            Engine::OrderingUnit(s) => s.outcome(b, player, depth),
        }
    }

    open spec fn expanded(&self) -> nat {
        match self {
            Engine::Minimax(s) => s.expanded(),
            Engine::AlphaBeta(s) => s.expanded(),
            Engine::Ordering(s) => s.expanded(),
            Engine::OrderingUnit(s) => s.expanded(),
        }
    }

    open spec fn generated(&self) -> nat {
        match self {
            Engine::Minimax(s) => s.generated(),
            Engine::AlphaBeta(s) => s.generated(),
            Engine::Ordering(s) => s.generated(),
            Engine::OrderingUnit(s) => s.generated(),
        }
    }

    fn search(&mut self, game: &Othello, player: Disc, depth: usize) -> (r: (
        Option<Position>,
        Evaluation,
    )) {
        match self {
            Engine::Minimax(s) => s.search(game, player, depth),
            Engine::AlphaBeta(s) => s.search(game, player, depth),
            Engine::Ordering(s) => s.search(game, player, depth),
            Engine::OrderingUnit(s) => s.search(game, player, depth),
        }
    }

    fn nodes_expanded(&self) -> (r: usize) {
        match self {
            Engine::Minimax(s) => s.nodes_expanded(),
            Engine::AlphaBeta(s) => s.nodes_expanded(),
            Engine::Ordering(s) => s.nodes_expanded(),
            Engine::OrderingUnit(s) => s.nodes_expanded(),
        }
    }

    fn nodes_generated(&self) -> (r: usize) {
        match self {
            Engine::Minimax(s) => s.nodes_generated(),
            Engine::AlphaBeta(s) => s.nodes_generated(),
            Engine::Ordering(s) => s.nodes_generated(),
            Engine::OrderingUnit(s) => s.nodes_generated(),
        }
    }
}

/// `name` names the heuristic `h`.
pub open spec fn names_heuristic(name: Seq<char>, h: Evaluator) -> bool {
    match h {
        Evaluator::Zero(_) => name == "0"@,
        Evaluator::Random(_) => name == "random"@,
        Evaluator::Unit(_) => name == "unit"@,
        Evaluator::Weighted(_) => name == "weight"@,
        Evaluator::Mobility(_) => name == "mobility"@,
        Evaluator::WeightedMobility(_) => name == "weight-mobility"@,
    }
}

pub open spec fn is_heuristic_name(name: Seq<char>) -> bool {
    name == "0"@ || name == "random"@ || name == "unit"@ || name == "weight"@ || name == "mobility"@
        || name == "weight-mobility"@
}

/// `name` names the algorithm of `e`.
pub open spec fn names_search(name: Seq<char>, e: Engine) -> bool {
    match e {
        Engine::Minimax(_) => name == "mini"@,
        Engine::AlphaBeta(_) => name == "ab"@,
        Engine::Ordering(_) => name == "ab-order"@,
        Engine::OrderingUnit(_) => name == "ab-order-unit"@,
    }
}

pub open spec fn is_search_name(name: Seq<char>) -> bool {
    name == "mini"@ || name == "ab"@ || name == "ab-order"@ || name == "ab-order-unit"@
}

/// The counters of a search that has not run yet are zero.
pub open spec fn fresh(e: Engine) -> bool {
    e.expanded() == 0 && e.generated() == 0
}

/// `s` and `t` hold the same characters.
fn same_text(s: &str, t: &str) -> (r: bool)
    ensures
        r == (s@ == t@),
{
    let n = s.unicode_len();
    if n != t.unicode_len() {
        return false;
    }
    let mut i: usize = 0;
    while i < n
        invariant
            n == s@.len(),
            n == t@.len(),
            i <= n,
            forall|j: int| 0 <= j < i ==> s@[j] == t@[j],
        decreases n - i,
    {
        if s.get_char(i) != t.get_char(i) {
            return false;
        }
        i += 1;
    }
    proof {
        assert(s@ =~= t@);
    }
    true
}

/// `prefix` + `s` + `suffix` as a new string.
fn quoted(prefix: &str, s: &str, suffix: &str) -> (r: String)
    ensures
        r@ == prefix@ + s@ + suffix@,
{
    let mut out = String::from_str(prefix);
    out.append(s);
    out.append(suffix);
    out
}

/// The heuristic that `s` names: "0", "random", "unit", "weight",
/// "mobility" or "weight-mobility".
pub fn extract_heuristic_name(s: &str) -> (r: Result<Evaluator, String>)
    ensures
        r is Ok <==> is_heuristic_name(s@),
        r is Ok ==> names_heuristic(s@, r->Ok_0),
        r is Err ==> r->Err_0@ == "Unknown heuristic function '"@ + s@ + "'!"@,
{
    if same_text(s, "0") {
        Ok(Evaluator::Zero(*HZero::new()))
    } else if same_text(s, "random") {
        Ok(Evaluator::Random(*HRandom::new()))
    } else if same_text(s, "unit") {
        Ok(Evaluator::Unit(*HUnit::new()))
    } else if same_text(s, "weight") {
        Ok(Evaluator::Weighted(*HWeighted::new()))
    } else if same_text(s, "mobility") {
        Ok(Evaluator::Mobility(*HMobility::new()))
    } else if same_text(s, "weight-mobility") {
        Ok(Evaluator::WeightedMobility(*HWeightedMobility::new()))
    } else {
        Err(quoted("Unknown heuristic function '", s, "'!"))
    }
}

/// The algorithm that `s` names ("mini", "ab", "ab-order" or
/// "ab-order-unit"), searching with `heuristic`.
pub fn extract_search_name(s: &str, heuristic: Evaluator) -> (r: Result<Engine, String>)
    ensures
        r is Ok <==> is_search_name(s@),
        r is Ok ==> names_search(s@, r->Ok_0) && r->Ok_0.evaluator() == heuristic && fresh(
            r->Ok_0,
        ),
        r is Err ==> r->Err_0@ == "Unknown search algorithm name '"@ + s@ + "'!"@,
{
    if same_text(s, "mini") {
        Ok(Engine::Minimax(Minimax::new(Box::new(heuristic))))
    } else if same_text(s, "ab") {
        Ok(Engine::AlphaBeta(AlphaBeta::new(Box::new(heuristic))))
    } else if same_text(s, "ab-order") {
        Ok(Engine::Ordering(AlphaBetaOrdering::new(Box::new(heuristic))))
    } else if same_text(s, "ab-order-unit") {
        Ok(Engine::OrderingUnit(AlphaBetaOrderingUnit::new(Box::new(heuristic))))
    } else {
        Err(quoted("Unknown search algorithm name '", s, "'!"))
    }
}

/// `s` cut at every ':', as `str::split` cuts it.
pub open spec fn split_colon(s: Seq<char>) -> Seq<Seq<char>>
    decreases s.len(),
{
    if s.len() == 0 {
        seq![Seq::empty()]
    } else {
        let parts = split_colon(s.drop_last());
        if s.last() == ':' {
            parts.push(Seq::empty())
        } else {
            parts.update(parts.len() - 1, parts.last().push(s.last()))
        }
    }
}

proof fn lemma_split_colon_nonempty(s: Seq<char>)
    ensures
        split_colon(s).len() >= 1,
    decreases s.len(),
{
    if s.len() > 0 {
        lemma_split_colon_nonempty(s.drop_last());
    }
}

/// The pieces of `s` between the ':' characters, at most `limit` of them.
fn split_colon_exec<'a>(s: &'a str, limit: usize) -> (r: Vec<&'a str>)
    requires
        limit >= 1,
    ensures
        r@.len() == if split_colon(s@).len() < limit {
            split_colon(s@).len()
        } else {
            limit as nat
        },
        forall|j: int| 0 <= j < r@.len() ==> #[trigger] r@[j]@ == split_colon(s@)[j],
{
    let n = s.unicode_len();
    let mut parts: Vec<&'a str> = Vec::new();
    let mut start: usize = 0;
    let mut i: usize = 0;
    while i < n
        invariant
            n == s@.len(),
            start <= i <= n,
            split_colon(s@.take(i as int)).len() == parts@.len() + 1,
            forall|j: int|
                0 <= j < parts@.len() ==> #[trigger] parts@[j]@ == split_colon(s@.take(i as int))[j],
            split_colon(s@.take(i as int)).last() == s@.subrange(start as int, i as int),
        decreases n - i,
    {
        let c = s.get_char(i);
        proof {
            assert(s@.take(i + 1).drop_last() =~= s@.take(i as int));
            assert(s@.take(i + 1).last() == c);
            lemma_split_colon_nonempty(s@.take(i as int));
        }
        if c == ':' {
            parts.push(s.substring_char(start, i));
            start = i + 1;
            proof {
                assert(s@.subrange(start as int, i + 1) =~= Seq::<char>::empty());
            }
        } else {
            proof {
                assert(s@.subrange(start as int, i + 1) =~= s@.subrange(start as int, i as int).push(
                    c,
                ));
            }
        }
        i += 1;
    }
    parts.push(s.substring_char(start, n));
    proof {
        assert(s@.take(n as int) =~= s@);
    }
    if parts.len() > limit {
        parts.truncate(limit);
    }
    parts
}

/// Why a depth did not parse.
#[derive(Copy, Clone, PartialEq, Eq, Debug, Structural)]
pub enum DepthError {
    Empty,
    InvalidDigit,
    TooLarge,
}

impl DepthError {
    pub open spec fn text(self) -> Seq<char> {
        match self {
            DepthError::Empty => "cannot parse integer from empty string"@,
            DepthError::InvalidDigit => "invalid digit found in string"@,
            DepthError::TooLarge => "number too large to fit in target type"@,
        }
    }

    /// The message of the error, in the words of `usize`'s own parser.
    pub fn message(&self) -> (r: String)
        ensures
            r@ == self.text(),
    {
        match self {
            DepthError::Empty => String::from_str("cannot parse integer from empty string"),
            DepthError::InvalidDigit => String::from_str("invalid digit found in string"),
            DepthError::TooLarge => String::from_str("number too large to fit in target type"),
        }
    }
}

pub open spec fn is_digit(c: char) -> bool {
    '0' <= c <= '9'
}

pub open spec fn digit_value(c: char) -> int {
    c as int - '0' as int
}

/// Reads the decimal digits of `d` from position `i` on, with `acc` read so
/// far: the first character that is not a digit, or the first digit that
/// takes the number past `usize::MAX`, ends it with an error.
pub open spec fn digits_from(d: Seq<char>, i: int, acc: int) -> Result<usize, DepthError>
    decreases d.len() - i,
{
    if i >= d.len() {
        Ok(acc as usize)
    } else if !is_digit(d[i]) {
        Err(DepthError::InvalidDigit)
    } else if acc * 10 + digit_value(d[i]) > usize::MAX {
        Err(DepthError::TooLarge)
    } else {
        digits_from(d, i + 1, acc * 10 + digit_value(d[i]))
    }
}

/// A depth read as `usize` reads it: an optional '+', then decimal digits.
pub open spec fn depth_of(s: Seq<char>) -> Result<usize, DepthError> {
    if s.len() == 0 {
        Err(DepthError::Empty)
    } else if s[0] == '+' {
        if s.len() == 1 {
            Err(DepthError::InvalidDigit)
        } else {
            digits_from(s, 1, 0)
        }
    } else {
        digits_from(s, 0, 0)
    }
}

/// Reads a depth: an optional '+', then decimal digits that fit a `usize`.
pub fn parse_depth(s: &str) -> (r: Result<usize, DepthError>)
    ensures
        r == depth_of(s@),
{
    let n = s.unicode_len();
    if n == 0 {
        return Err(DepthError::Empty);
    }
    let mut i: usize = 0;
    if s.get_char(0) == '+' {
        if n == 1 {
            return Err(DepthError::InvalidDigit);
        }
        i = 1;
    }
    let ghost first = i as int;
    let mut acc: usize = 0;
    while i < n
        invariant
            n == s@.len(),
            first <= i <= n,
            depth_of(s@) == digits_from(s@, first, 0),
            digits_from(s@, first, 0) == digits_from(s@, i as int, acc as int),
        decreases n - i,
    {
        let c = s.get_char(i);
        if c < '0' || c > '9' {
            proof {
                assert(!is_digit(s@[i as int]));
                assert(digits_from(s@, i as int, acc as int) == Err::<usize, DepthError>(
                    DepthError::InvalidDigit,
                ));
            }
            return Err(DepthError::InvalidDigit);
        }
        let d = (c as u32 - '0' as u32) as usize;
        proof {
            assert(is_digit(s@[i as int]));
            assert(d == digit_value(s@[i as int]));
        }
        if acc > (usize::MAX - d) / 10 {
            proof {
                assert(acc * 10 + d > usize::MAX) by (nonlinear_arith)
                    requires
                        acc > (usize::MAX - d) / 10,
                        d <= 9,
                ;
                assert(digits_from(s@, i as int, acc as int) == Err::<usize, DepthError>(
                    DepthError::TooLarge,
                ));
            }
            return Err(DepthError::TooLarge);
        }
        proof {
            assert(acc * 10 + d <= usize::MAX) by (nonlinear_arith)
                requires
                    acc <= (usize::MAX - d) / 10,
                    d <= 9,
            ;
        }
        acc = acc * 10 + d;
        i += 1;
    }
    Ok(acc)
}

/// Builds the engine for `search_name` over the heuristic for `heuristic_name`.
fn engine_for(search_name: &str, heuristic_name: &str) -> (r: Result<Engine, String>)
    ensures
        !is_heuristic_name(heuristic_name@) ==> r is Err && r->Err_0@
            == "Unknown heuristic function '"@ + heuristic_name@ + "'!"@,
        is_heuristic_name(heuristic_name@) && !is_search_name(search_name@) ==> r is Err
            && r->Err_0@ == "Unknown search algorithm name '"@ + search_name@ + "'!"@,
        is_heuristic_name(heuristic_name@) && is_search_name(search_name@) ==> r is Ok,
        r is Ok ==> names_search(search_name@, r->Ok_0) && names_heuristic(
            heuristic_name@,
            r->Ok_0.evaluator(),
        ) && fresh(r->Ok_0),
{
    let heuristic = match extract_heuristic_name(heuristic_name) {
        Ok(h) => h,
        Err(e) => {
            return Err(e);
        },
    };
    extract_search_name(search_name, heuristic)
}

/// Reads "algorithm:heuristic:depth" (anything after a third ':' is ignored).
pub fn extract_algorithm_depth(s: &str) -> (r: Result<(Engine, usize), String>)
    ensures
        ({
            let p = split_colon(s@);
            &&& p.len() < 3 ==> r is Err && r->Err_0@ == "Invalid depth-suffixed algorithm string '"@
                + s@ + "'!"@
            &&& p.len() >= 3 && !is_heuristic_name(p[1]) ==> r is Err && r->Err_0@
                == "Unknown heuristic function '"@ + p[1] + "'!"@
            &&& p.len() >= 3 && is_heuristic_name(p[1]) && !is_search_name(p[0]) ==> r is Err
                && r->Err_0@ == "Unknown search algorithm name '"@ + p[0] + "'!"@
            &&& p.len() >= 3 && is_heuristic_name(p[1]) && is_search_name(p[0]) ==> match depth_of(
                p[2],
            ) {
                Ok(d) => r is Ok && r->Ok_0.1 == d,
                Err(e) => r is Err && r->Err_0@ == e.text(),
            }
            &&& r is Ok ==> names_search(p[0], r->Ok_0.0) && names_heuristic(
                p[1],
                r->Ok_0.0.evaluator(),
            ) && fresh(r->Ok_0.0)
        }),
{
    let parts = split_colon_exec(s, 3);
    if parts.len() < 3 {
        return Err(quoted("Invalid depth-suffixed algorithm string '", s, "'!"));
    }
    let alg = match engine_for(parts[0], parts[1]) {
        Ok(a) => a,
        Err(e) => {
            return Err(e);
        },
    };
    match parse_depth(parts[2]) {
        Ok(depth) => Ok((alg, depth)),
        Err(e) => Err(e.message()),
    }
}

/// Reads "algorithm:heuristic" (anything after a second ':' is ignored).
pub fn extract_search_algorithm(s: &str) -> (r: Result<Engine, String>)
    ensures
        ({
            let p = split_colon(s@);
            &&& p.len() < 2 ==> r is Err && r->Err_0@
                == "Invalid non-depth-suffixed algorithm string '"@ + s@ + "'!"@
            &&& p.len() >= 2 && !is_heuristic_name(p[1]) ==> r is Err && r->Err_0@
                == "Unknown heuristic function '"@ + p[1] + "'!"@
            &&& p.len() >= 2 && is_heuristic_name(p[1]) && !is_search_name(p[0]) ==> r is Err
                && r->Err_0@ == "Unknown search algorithm name '"@ + p[0] + "'!"@
            &&& p.len() >= 2 && is_heuristic_name(p[1]) && is_search_name(p[0]) ==> r is Ok
            &&& r is Ok ==> names_search(p[0], r->Ok_0) && names_heuristic(p[1], r->Ok_0.evaluator())
                && fresh(r->Ok_0)
        }),
{
    let parts = split_colon_exec(s, 2);
    if parts.len() < 2 {
        return Err(quoted("Invalid non-depth-suffixed algorithm string '", s, "'!"));
    }
    engine_for(parts[0], parts[1])
}

} // verus!
