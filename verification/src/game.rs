//! The game core: the board data model, the terminal evaluator, move
//! application, and the minimax search engine with alpha-beta pruning.

use vstd::prelude::*;

verus! {

broadcast use vstd::array::group_array_axioms;

/// One of the two players. X always moves first and is the maximizing side
/// of the search; O is the minimizing side.
#[derive(Copy, Clone, PartialEq, Eq, Structural)]
pub enum Player {
    X,
    O,
}

/// The status of a game: still in progress, won by one side, or a tie.
#[derive(Copy, Clone, Debug, PartialEq, Eq, Structural)]
pub enum GameState {
    Playing,
    XWon,
    OWon,
    Tie,
}

/// The contents of one cell of the board.
#[derive(Copy, Clone, PartialEq, Eq, Structural)]
pub enum BoardSpace {
    Occupied(Player),
    Empty,
}

/// A full game state: the 3x3 board, whose turn it is, and the status.
///
/// Well-formed values (see [`Game::wf`]) keep `state` equal to what the
/// evaluator computes from `board`; every constructor and mutation of this
/// module maintains that.
#[derive(Copy, Clone)]
pub struct Game {
    pub board: [[BoardSpace; 3]; 3],
    pub turn: Player,
    pub state: GameState,
}

/// The player who moves after `p`.
pub open spec fn spec_other(p: Player) -> Player {
    match p {
        Player::X => Player::O,
        Player::O => Player::X,
    }
}

/// Cell `(r, c)` is occupied by `p`.
pub open spec fn spec_owns(b: [[BoardSpace; 3]; 3], p: Player, r: int, c: int) -> bool {
    b[r][c] == BoardSpace::Occupied(p)
}

/// `p` owns one of the eight lines: a row, a column, or a diagonal.
pub open spec fn spec_wins(b: [[BoardSpace; 3]; 3], p: Player) -> bool {
    ||| spec_owns(b, p, 0, 0) && spec_owns(b, p, 0, 1) && spec_owns(b, p, 0, 2)
    ||| spec_owns(b, p, 1, 0) && spec_owns(b, p, 1, 1) && spec_owns(b, p, 1, 2)
    ||| spec_owns(b, p, 2, 0) && spec_owns(b, p, 2, 1) && spec_owns(b, p, 2, 2)
    ||| spec_owns(b, p, 0, 0) && spec_owns(b, p, 1, 0) && spec_owns(b, p, 2, 0)
    ||| spec_owns(b, p, 0, 1) && spec_owns(b, p, 1, 1) && spec_owns(b, p, 2, 1)
    ||| spec_owns(b, p, 0, 2) && spec_owns(b, p, 1, 2) && spec_owns(b, p, 2, 2)
    ||| spec_owns(b, p, 0, 0) && spec_owns(b, p, 1, 1) && spec_owns(b, p, 2, 2)
    ||| spec_owns(b, p, 0, 2) && spec_owns(b, p, 1, 1) && spec_owns(b, p, 2, 0)
}

/// No cell of the board is empty.
pub open spec fn spec_full(b: [[BoardSpace; 3]; 3]) -> bool {
    forall|r: int, c: int| 0 <= r < 3 && 0 <= c < 3 ==> !((#[trigger] b[r][c]) is Empty)
}

/// The status the terminal evaluator assigns to a board: a completed line
/// wins (a line of X takes precedence over one of O), a full board without
/// a winner is a tie, and otherwise the game is still in progress.
pub open spec fn spec_status(b: [[BoardSpace; 3]; 3]) -> GameState {
    if spec_wins(b, Player::X) {
        GameState::XWon
    } else if spec_wins(b, Player::O) {
        GameState::OWon
    } else if spec_full(b) {
        GameState::Tie
    } else {
        GameState::Playing
    }
}

/// The terminal score of a game: +1 if X won, -1 if O won, 0 otherwise.
pub open spec fn spec_score(s: GameState) -> int {
    match s {
        GameState::XWon => 1,
        GameState::OWon => -1,
        GameState::Tie => 0,
        GameState::Playing => 0,
    }
}

/// The row of the cell with row-major index `t` (for `t` in `0..9`).
pub open spec fn rm_row(t: int) -> int {
    if t < 3 {
        0
    } else if t < 6 {
        1
    } else {
        2
    }
}

/// The column of the cell with row-major index `t` (for `t` in `0..9`).
pub open spec fn rm_col(t: int) -> int {
    t - 3 * rm_row(t)
}

/// The cell of `b` with row-major index `t`.
pub open spec fn cell_rm(b: [[BoardSpace; 3]; 3], t: int) -> BoardSpace {
    b[rm_row(t)][rm_col(t)]
}

/// How many cells with row-major index at least `t` are empty.
pub open spec fn count_empty_from(b: [[BoardSpace; 3]; 3], t: int) -> nat
    decreases 9 - t,
{
    if t < 0 || t >= 9 {
        0
    } else {
        (if cell_rm(b, t) is Empty {
            1nat
        } else {
            0nat
        }) + count_empty_from(b, t + 1)
    }
}

/// How many cells of the board are empty.
pub open spec fn count_empty(b: [[BoardSpace; 3]; 3]) -> nat {
    count_empty_from(b, 0)
}

/// The coordinates of the empty cells with row-major index below `t`, in
/// row-major order.
pub open spec fn spec_empties_upto(b: [[BoardSpace; 3]; 3], t: int) -> Seq<(usize, usize)>
    decreases t,
{
    if 0 < t <= 9 {
        let rest = spec_empties_upto(b, t - 1);
        if cell_rm(b, t - 1) is Empty {
            rest.push((rm_row(t - 1) as usize, rm_col(t - 1) as usize))
        } else {
            rest
        }
    } else {
        Seq::empty()
    }
}

/// Boards that agree everywhere but at index `k`, where an empty cell was
/// filled, have empty-cell counts that differ by exactly one.
proof fn lemma_count_empty_update(
    b1: [[BoardSpace; 3]; 3],
    b2: [[BoardSpace; 3]; 3],
    k: int,
    t: int,
)
    requires
        0 <= k < 9,
        0 <= t <= 9,
        forall|j: int| 0 <= j < 9 && j != k ==> cell_rm(b2, j) == cell_rm(b1, j),
        cell_rm(b1, k) is Empty,
        !(cell_rm(b2, k) is Empty),
    ensures
        count_empty_from(b2, t) == if t <= k {
            count_empty_from(b1, t) - 1
        } else {
            count_empty_from(b1, t) as int
        },
    decreases 9 - t,
{
    if t < 9 {
        lemma_count_empty_update(b1, b2, k, t + 1);
    }
}

/// A legal move fills exactly the chosen cell and lowers the number of
/// empty cells by one.
proof fn lemma_play_cells(g: Game, x: int, y: int)
    requires
        0 <= x < 3,
        0 <= y < 3,
        g.board[x][y] is Empty,
    ensures
        cell_rm(spec_play(g, x, y).board, 3 * x + y) == BoardSpace::Occupied(g.turn),
        forall|j: int|
            0 <= j < 9 && j != 3 * x + y ==> cell_rm(spec_play(g, x, y).board, j) == cell_rm(
                g.board,
                j,
            ),
        count_empty(spec_play(g, x, y).board) == count_empty(g.board) - 1,
{
    let b1 = g.board;
    let b2 = spec_play(g, x, y).board;
    let k = 3 * x + y;
    assert(rm_row(k) == x && rm_col(k) == y);
    assert(cell_rm(b2, k) == BoardSpace::Occupied(g.turn));
    assert forall|j: int| 0 <= j < 9 && j != k implies cell_rm(b2, j) == cell_rm(b1, j) by {
        let r = rm_row(j);
        let c = rm_col(j);
        if r == x {
            assert(c != y);
            assert(b2[r][c] == b1[r][c]);
        } else {
            assert(b2[r][c] == b1[r][c]);
        }
    }
    lemma_count_empty_update(b1, b2, k, 0);
}

/// `a` is a strictly better score than `b` for player `p`: X maximizes and
/// O minimizes.
pub open spec fn spec_better(p: Player, a: int, b: int) -> bool {
    match p {
        Player::X => a > b,
        Player::O => a < b,
    }
}

/// The game one move later, the move named by its row-major index `t`.
pub open spec fn spec_play_rm(g: Game, t: int) -> Game {
    spec_play(g, rm_row(t), rm_col(t))
}

/// The minimax value of a game under optimal play by both sides: +1 if the
/// mover-side-X can force a win, -1 if O can, 0 if optimal play ties. A
/// finished game scores itself.
pub open spec fn spec_value(g: Game) -> int
    decreases count_empty(g.board), 10int,
{
    if !(g.state is Playing) {
        spec_score(g.state)
    } else {
        spec_value_from(g, 0)
    }
}

/// The best value the side to move can reach using moves with row-major
/// index at least `t`: a fold of the children's minimax values, maximum for
/// X and minimum for O, starting from the fold identity (-10 for X, +10 for
/// O).
pub open spec fn spec_value_from(g: Game, t: int) -> int
    decreases count_empty(g.board), 9 - t,
    via spec_value_from_decreases
{
    if 0 <= t < 9 {
        let rest = spec_value_from(g, t + 1);
        if cell_rm(g.board, t) is Empty {
            let s = spec_value(spec_play_rm(g, t));
            if spec_better(g.turn, s, rest) {
                s
            } else {
                rest
            }
        } else {
            rest
        }
    } else {
        if g.turn is X {
            -10
        } else {
            10
        }
    }
}

#[via_fn]
proof fn spec_value_from_decreases(g: Game, t: int) {
    if 0 <= t < 9 && cell_rm(g.board, t) is Empty {
        lemma_play_cells(g, rm_row(t), rm_col(t));
    }
}

/// The best value over the moves with row-major index below `t`: the prefix
/// of the same fold that `spec_value_from` takes the suffix of.
pub open spec fn spec_best_upto(g: Game, t: int) -> int
    decreases count_empty(g.board), t,
    via spec_best_upto_decreases
{
    if 0 < t <= 9 {
        let prev = spec_best_upto(g, t - 1);
        if cell_rm(g.board, t - 1) is Empty {
            let s = spec_value(spec_play_rm(g, t - 1));
            if spec_better(g.turn, s, prev) {
                s
            } else {
                prev
            }
        } else {
            prev
        }
    } else {
        if g.turn is X {
            -10
        } else {
            10
        }
    }
}

#[via_fn]
proof fn spec_best_upto_decreases(g: Game, t: int) {
    if 0 < t <= 9 && cell_rm(g.board, t - 1) is Empty {
        lemma_play_cells(g, rm_row(t - 1), rm_col(t - 1));
    }
}

/// Minimax values never leave the band spanned by the fold identities.
proof fn lemma_value_bounds(g: Game)
    ensures
        -10 <= spec_value(g) <= 10,
    decreases count_empty(g.board), 10int,
{
    if g.state is Playing {
        lemma_value_from_bounds(g, 0);
    }
}

/// Partial folds of children values never leave the same band.
proof fn lemma_value_from_bounds(g: Game, t: int)
    ensures
        -10 <= spec_value_from(g, t) <= 10,
    decreases count_empty(g.board), 9 - t,
{
    if 0 <= t < 9 {
        lemma_value_from_bounds(g, t + 1);
        if cell_rm(g.board, t) is Empty {
            lemma_play_cells(g, rm_row(t), rm_col(t));
            lemma_value_bounds(spec_play_rm(g, t));
        }
    }
}

/// Prefix folds of children values never leave the same band either.
proof fn lemma_upto_bounds(g: Game, t: int)
    ensures
        -10 <= spec_best_upto(g, t) <= 10,
    decreases count_empty(g.board), t,
{
    if 0 < t <= 9 {
        lemma_upto_bounds(g, t - 1);
        if cell_rm(g.board, t - 1) is Empty {
            lemma_play_cells(g, rm_row(t - 1), rm_col(t - 1));
            lemma_value_bounds(spec_play_rm(g, t - 1));
        }
    }
}

/// Law: the minimax value of any well-formed game lies in the terminal
/// score range [-1, 1], strictly inside the engine's initial alpha-beta
/// window (-10, 10) — so no optimal branch is ever pruned away at the root
/// and the pruning search returns exactly the unpruned minimax value there
/// (see `minimax`).
pub proof fn lemma_value_in_score_range(g: Game)
    requires
        g.wf(),
    ensures
        -1 <= spec_value(g) <= 1,
    decreases count_empty(g.board), 10int,
{
    if g.state is Playing {
        assert(!spec_full(g.board));
        let (r, c) = choose|r: int, c: int|
            0 <= r < 3 && 0 <= c < 3 && (#[trigger] g.board[r][c]) is Empty;
        assert(cell_rm(g.board, 3 * r + c) is Empty);
        lemma_value_from_range(g, 0);
    }
}

/// The suffix folds of a well-formed running game stay within the terminal
/// score range on the side of their identity, and land in it entirely as
/// soon as the suffix still holds an empty cell.
proof fn lemma_value_from_range(g: Game, t: int)
    requires
        g.wf(),
        g.state is Playing,
        0 <= t <= 9,
    ensures
        g.turn is X ==> spec_value_from(g, t) <= 1,
        g.turn is O ==> spec_value_from(g, t) >= -1,
        (exists|j: int| t <= j < 9 && (#[trigger] cell_rm(g.board, j)) is Empty) ==> -1
            <= spec_value_from(g, t) <= 1,
    decreases count_empty(g.board), 9 - t,
{
    if t < 9 {
        lemma_value_from_range(g, t + 1);
        if cell_rm(g.board, t) is Empty {
            lemma_play_cells(g, rm_row(t), rm_col(t));
            let child = spec_play_rm(g, t);
            assert(child.wf());
            lemma_value_in_score_range(child);
        } else {
            if exists|j: int| t <= j < 9 && (#[trigger] cell_rm(g.board, j)) is Empty {
                let j = choose|j: int| t <= j < 9 && (#[trigger] cell_rm(g.board, j)) is Empty;
                assert(t + 1 <= j < 9 && cell_rm(g.board, j) is Empty);
            }
        }
    }
}

/// Splitting the fold of children values at any point `t`: combining the
/// best over the first `t` moves with the best over the rest gives the best
/// over all moves.
proof fn lemma_value_split(g: Game, t: int)
    requires
        0 <= t <= 9,
    ensures
        spec_value_from(g, 0) == if spec_better(
            g.turn,
            spec_best_upto(g, t),
            spec_value_from(g, t),
        ) {
            spec_best_upto(g, t)
        } else {
            spec_value_from(g, t)
        },
    decreases t,
{
    if t == 0 {
        lemma_value_from_bounds(g, 0);
    } else {
        lemma_value_split(g, t - 1);
    }
}

/// Every move with row-major index below `t` scores no better for the
/// mover than the prefix best over those moves.
proof fn lemma_upto_dominates(g: Game, t: int)
    requires
        0 <= t <= 9,
    ensures
        forall|j: int|
            0 <= j < t && (#[trigger] cell_rm(g.board, j)) is Empty ==> !spec_better(
                g.turn,
                spec_value(spec_play_rm(g, j)),
                spec_best_upto(g, t),
            ),
    decreases t,
{
    if t > 0 {
        lemma_upto_dominates(g, t - 1);
    }
}

/// `s` is the empty cell marker.
fn is_empty_space(s: BoardSpace) -> (r: bool)
    ensures
        r == (s is Empty),
{
    match s {
        BoardSpace::Empty => true,
        BoardSpace::Occupied(_) => false,
    }
}

/// The three given cells are all occupied by `p`.
fn line_owned(a: BoardSpace, b: BoardSpace, c: BoardSpace, p: Player) -> (r: bool)
    ensures
        r == (a == BoardSpace::Occupied(p) && b == BoardSpace::Occupied(p) && c
            == BoardSpace::Occupied(p)),
{
    a == BoardSpace::Occupied(p) && b == BoardSpace::Occupied(p) && c == BoardSpace::Occupied(p)
}

/// `p` owns a row, a column, or a diagonal of `b`.
fn wins(b: &[[BoardSpace; 3]; 3], p: Player) -> (r: bool)
    ensures
        r == spec_wins(*b, p),
{
    line_owned(b[0][0], b[0][1], b[0][2], p) || line_owned(b[1][0], b[1][1], b[1][2], p)
        || line_owned(b[2][0], b[2][1], b[2][2], p) || line_owned(b[0][0], b[1][0], b[2][0], p)
        || line_owned(b[0][1], b[1][1], b[2][1], p) || line_owned(b[0][2], b[1][2], b[2][2], p)
        || line_owned(b[0][0], b[1][1], b[2][2], p) || line_owned(b[0][2], b[1][1], b[2][0], p)
}

/// Every cell of `b` is occupied.
fn board_full(b: &[[BoardSpace; 3]; 3]) -> (r: bool)
    ensures
        r == spec_full(*b),
{
    let full = !is_empty_space(b[0][0]) && !is_empty_space(b[0][1]) && !is_empty_space(b[0][2])
        && !is_empty_space(b[1][0]) && !is_empty_space(b[1][1]) && !is_empty_space(b[1][2])
        && !is_empty_space(b[2][0]) && !is_empty_space(b[2][1]) && !is_empty_space(b[2][2]);
    full
}

/// The game state after a move of the side to move at `(x, y)`: if the cell
/// is empty it is taken and the turn flips, otherwise board and turn stay as
/// they are; either way the status is recomputed from the board.
pub open spec fn spec_play(g: Game, x: int, y: int) -> Game {
    if g.board[x][y] is Empty {
        let row = vstd::array::spec_array_update(g.board[x], y, BoardSpace::Occupied(g.turn));
        let b = vstd::array::spec_array_update(g.board, x, row);
        Game { board: b, turn: spec_other(g.turn), state: spec_status(b) }
    } else {
        Game { board: g.board, turn: g.turn, state: spec_status(g.board) }
    }
}

impl Game {
    /// `state` is exactly what the evaluator computes from `board`.
    pub open spec fn wf(self) -> bool {
        self.state == spec_status(self.board)
    }

    /// Applies a move for the side to move at `(x, y)`.
    ///
    /// If the target cell is empty it becomes occupied by the mover and the
    /// turn flips to the other player; a move onto an occupied cell is a
    /// silent no-op on board and turn. The status is recomputed from the
    /// board afterwards, so the result is well-formed in every case.
    pub fn play(&mut self, x: usize, y: usize)
        requires
            x < 3,
            y < 3,
        ensures
            *final(self) == spec_play(*old(self), x as int, y as int),
            final(self).wf(),
    {
        if is_empty_space(self.board[x][y]) {
            let mut row = self.board[x];
            row[y] = BoardSpace::Occupied(self.turn);
            self.board[x] = row;
            self.turn = match self.turn {
                Player::X => Player::O,
                Player::O => Player::X,
            };
            proof {
                let g = *old(self);
                let target = spec_play(g, x as int, y as int);
                assert(self.board =~= target.board);
            }
        }
        self.state = self.check_win();
    }

    /// A fresh game: empty board, X to move, still in progress.
    pub fn new() -> (g: Game)
        ensures
            g.turn == Player::X,
            g.state == GameState::Playing,
            forall|r: int, c: int| 0 <= r < 3 && 0 <= c < 3 ==> (#[trigger] g.board[r][c]) is Empty,
            g.wf(),
    {
        let g = Game {
            board: [[BoardSpace::Empty; 3]; 3],
            turn: Player::X,
            state: GameState::Playing,
        };
        proof {
            assert forall|r: int, c: int| 0 <= r < 3 && 0 <= c < 3 implies (#[trigger] g.board[r][c])
                is Empty by {
                let row = g.board[r];
                assert(row[c] is Empty);
            }
            assert(!spec_full(g.board)) by {
                assert(g.board[0][0] is Empty);
            }
        }
        g
    }

    /// Read-only snapshot of the status.
    pub fn get_state(&self) -> (s: GameState)
        ensures
            s == self.state,
    {
        self.state
    }

    /// Read-only snapshot of whose turn it is.
    pub fn get_turn(&self) -> (t: Player)
        ensures
            t == self.turn,
    {
        self.turn
    }

    /// Read-only snapshot of the board.
    pub fn get_board(&self) -> (b: [[BoardSpace; 3]; 3])
        ensures
            b == self.board,
    {
        self.board
    }

    /// The coordinates of every empty cell of the board, visited in
    /// row-major order (rows outermost), each exactly once.
    pub fn empty_spaces(&self) -> (v: Vec<(usize, usize)>)
        ensures
            v@ == spec_empties_upto(self.board, 9),
    {
        let mut v: Vec<(usize, usize)> = Vec::new();
        for t in 0..9usize
            invariant
                v@ == spec_empties_upto(self.board, t as int),
        {
            let x = t / 3;
            let y = t % 3;
            assert(x == rm_row(t as int) && y == rm_col(t as int));
            if is_empty_space(self.board[x][y]) {
                v.push((x, y));
            }
        }
        v
    }

    /// The terminal evaluator: computes the status of the current board by
    /// checking the three rows, the three columns, and the two diagonals.
    ///
    /// The result is a pure function of the board alone, so two evaluations
    /// of the same board always agree.
    pub fn check_win(&self) -> (r: GameState)
        ensures
            r == spec_status(self.board),
    {
        let x_won = wins(&self.board, Player::X);
        let o_won = wins(&self.board, Player::O);
        let tie = board_full(&self.board);
        if x_won {
            GameState::XWon
        } else if o_won {
            GameState::OWon
        } else if tie {
            GameState::Tie
        } else {
            GameState::Playing
        }
    }
}

/// The running best of one search loop: `m` is an empty cell with
/// row-major index below `t`, its child's minimax value is exactly `s`,
/// and every empty cell before `m` scores strictly worse for the mover.
pub open spec fn spec_loop_best(g: Game, m: (usize, usize), t: int, s: int) -> bool {
    let k = 3 * m.0 + m.1;
    &&& m.0 < 3
    &&& m.1 < 3
    &&& k < t
    &&& cell_rm(g.board, k) is Empty
    &&& spec_value(spec_play_rm(g, k)) == s
    &&& forall|j: int|
        0 <= j < k && (#[trigger] cell_rm(g.board, j)) is Empty ==> spec_better(
            g.turn,
            s,
            spec_value(spec_play_rm(g, j)),
        )
}

/// `m` is the move the engine owes for `g`: the first empty cell in
/// row-major order whose child's minimax value equals the minimax value of
/// `g` itself.
pub open spec fn spec_best_move(g: Game, m: (usize, usize)) -> bool {
    spec_loop_best(g, m, 9, spec_value(g))
}

/// Minimax search with alpha-beta pruning for the side to move, exploring
/// candidate moves in the row-major order of `empty_spaces` and keeping the
/// first strict improvement — the deterministic tie-break.
///
/// The score obeys the classical pruning-window contract: a score strictly
/// inside the window `(alpha, beta)` is exactly the unpruned minimax value
/// `spec_value`, and a score at or beyond a window bound certifies that the
/// true value lies at or beyond that bound too. Called with the engine's
/// initial window (-10, 10), which strictly contains every reachable value
/// (see `lemma_value_in_score_range`), the score is therefore exactly the
/// unpruned minimax value and the move is the first optimal one — pruning
/// never changes the outcome.
#[verifier::rlimit(100)]
pub fn minimax(game: &Game, alpha: i32, beta: i32) -> (r: ((usize, usize), i32))
    requires
        game.wf(),
        -10 <= alpha < beta <= 10,
    ensures
        -10 <= r.1 <= 10,
        !(game.state is Playing) ==> r.0 == (0usize, 0usize) && r.1 == spec_score(game.state),
        game.state is Playing ==> {
            &&& spec_value(*game) >= beta ==> r.1 >= beta
            &&& spec_value(*game) <= alpha ==> r.1 <= alpha
            &&& alpha < spec_value(*game) < beta ==> r.1 == spec_value(*game) && spec_best_move(
                *game,
                r.0,
            )
        },
    decreases count_empty(game.board),
{
    let playing = match game.state {
        GameState::Playing => true,
        _ => false,
    };
    if !playing {
        return ((0, 0), evaluate_position(game));
    }
    let mut best_move: (usize, usize) = (0, 0);
    let mut best_score: i32;
    match game.turn {
        Player::X => {
            best_score = -10;
            let mut a = alpha;
            let mut t: usize = 0;
            while t < 9
                invariant_except_break
                    game.wf(),
                    game.state is Playing,
                    game.turn is X,
                    -10 <= alpha < beta <= 10,
                    t <= 9,
                    alpha <= a < beta,
                    -10 <= best_score <= 10,
                    a as int == if best_score > alpha {
                        best_score as int
                    } else {
                        alpha as int
                    },
                    best_score as int <= if spec_best_upto(*game, t as int) > alpha {
                        spec_best_upto(*game, t as int)
                    } else {
                        alpha as int
                    },
                    spec_best_upto(*game, t as int) <= a as int,
                    best_score > alpha ==> spec_loop_best(
                        *game,
                        best_move,
                        t as int,
                        best_score as int,
                    ),
                ensures
                    -10 <= best_score <= 10,
                    (spec_value(*game) >= beta && best_score >= beta) || (t == 9 && alpha <= a
                        < beta && a as int == (if best_score > alpha {
                        best_score as int
                    } else {
                        alpha as int
                    }) && best_score as int <= (if spec_best_upto(*game, 9) > alpha {
                        spec_best_upto(*game, 9)
                    } else {
                        alpha as int
                    }) && spec_best_upto(*game, 9) <= a as int && (best_score > alpha
                        ==> spec_loop_best(*game, best_move, 9, best_score as int))),
                decreases 9 - t,
            {
                let x = t / 3;
                let y = t % 3;
                proof {
                    assert(x == rm_row(t as int) && y == rm_col(t as int));
                }
                if is_empty_space(game.board[x][y]) {
                    proof {
                        lemma_play_cells(*game, x as int, y as int);
                    }
                    let mut clonned_game = game.clone();
                    clonned_game.play(x, y);
                    proof {
                        assert(clonned_game == spec_play_rm(*game, t as int));
                        assert(count_empty(clonned_game.board) < count_empty(game.board));
                    }
                    let ghost a0 = a as int;
                    let ghost best0 = best_score as int;
                    let ghost vc = spec_value(spec_play_rm(*game, t as int));
                    let (_child_move, score) = minimax(&clonned_game, a, beta);
                    proof {
                        if !(clonned_game.state is Playing) {
                            assert(score == vc);
                        }
                        assert(vc >= beta ==> score >= beta);
                        assert(vc <= a0 ==> score <= a0);
                        assert(a0 < vc < beta ==> score == vc);
                        lemma_value_bounds(clonned_game);
                        assert(spec_best_upto(*game, t as int + 1) == if spec_better(
                            Player::X,
                            vc,
                            spec_best_upto(*game, t as int),
                        ) {
                            vc
                        } else {
                            spec_best_upto(*game, t as int)
                        });
                        lemma_upto_dominates(*game, t as int);
                    }
                    if score > best_score {
                        best_score = score;
                        best_move = (x, y);
                    }
                    if score > a {
                        a = score;
                    }
                    if beta <= a {
                        proof {
                            assert(score >= beta);
                            assert(vc >= beta);
                            lemma_value_split(*game, t as int + 1);
                            assert(spec_best_upto(*game, t as int + 1) >= vc);
                            assert(spec_value_from(*game, 0) >= spec_best_upto(*game, t as int + 1));
                            assert(spec_value(*game) >= beta);
                        }
                        break;
                    }
                } else {
                    proof {
                        assert(spec_best_upto(*game, t as int + 1) == spec_best_upto(
                            *game,
                            t as int,
                        ));
                    }
                }
                t = t + 1;
            }
            proof {
                lemma_value_split(*game, 9);
                lemma_upto_bounds(*game, 9);
                assert(spec_value_from(*game, 9) == -10);
            }
        },
        Player::O => {
            best_score = 10;
            let mut b = beta;
            let mut t: usize = 0;
            while t < 9
                invariant_except_break
                    game.wf(),
                    game.state is Playing,
                    game.turn is O,
                    -10 <= alpha < beta <= 10,
                    t <= 9,
                    alpha < b <= beta,
                    -10 <= best_score <= 10,
                    b as int == if best_score < beta {
                        best_score as int
                    } else {
                        beta as int
                    },
                    best_score as int >= if spec_best_upto(*game, t as int) < beta {
                        spec_best_upto(*game, t as int)
                    } else {
                        beta as int
                    },
                    spec_best_upto(*game, t as int) >= b as int,
                    best_score < beta ==> spec_loop_best(
                        *game,
                        best_move,
                        t as int,
                        best_score as int,
                    ),
                ensures
                    -10 <= best_score <= 10,
                    (spec_value(*game) <= alpha && best_score <= alpha) || (t == 9 && alpha < b
                        <= beta && b as int == (if best_score < beta {
                        best_score as int
                    } else {
                        beta as int
                    }) && best_score as int >= (if spec_best_upto(*game, 9) < beta {
                        spec_best_upto(*game, 9)
                    } else {
                        beta as int
                    }) && spec_best_upto(*game, 9) >= b as int && (best_score < beta
                        ==> spec_loop_best(*game, best_move, 9, best_score as int))),
                decreases 9 - t,
            {
                let x = t / 3;
                let y = t % 3;
                proof {
                    assert(x == rm_row(t as int) && y == rm_col(t as int));
                }
                if is_empty_space(game.board[x][y]) {
                    proof {
                        lemma_play_cells(*game, x as int, y as int);
                    }
                    let mut clonned_game = game.clone();
                    clonned_game.play(x, y);
                    proof {
                        assert(clonned_game == spec_play_rm(*game, t as int));
                        assert(count_empty(clonned_game.board) < count_empty(game.board));
                    }
                    let ghost b0 = b as int;
                    let ghost best0 = best_score as int;
                    let ghost vc = spec_value(spec_play_rm(*game, t as int));
                    let (_child_move, score) = minimax(&clonned_game, alpha, b);
                    proof {
                        if !(clonned_game.state is Playing) {
                            assert(score == vc);
                        }
                        assert(vc >= b0 ==> score >= b0);
                        assert(vc <= alpha ==> score <= alpha);
                        assert(alpha < vc < b0 ==> score == vc);
                        lemma_value_bounds(clonned_game);
                        assert(spec_best_upto(*game, t as int + 1) == if spec_better(
                            Player::O,
                            vc,
                            spec_best_upto(*game, t as int),
                        ) {
                            vc
                        } else {
                            spec_best_upto(*game, t as int)
                        });
                        lemma_upto_dominates(*game, t as int);
                    }
                    if score < best_score {
                        best_score = score;
                        best_move = (x, y);
                    }
                    if score < b {
                        b = score;
                    }
                    if b <= alpha {
                        proof {
                            assert(score <= alpha);
                            assert(vc <= alpha);
                            lemma_value_split(*game, t as int + 1);
                            assert(spec_best_upto(*game, t as int + 1) <= vc);
                            assert(spec_value_from(*game, 0) <= spec_best_upto(*game, t as int + 1));
                            assert(spec_value(*game) <= alpha);
                        }
                        break;
                    }
                } else {
                    proof {
                        assert(spec_best_upto(*game, t as int + 1) == spec_best_upto(
                            *game,
                            t as int,
                        ));
                    }
                }
                t = t + 1;
            }
            proof {
                lemma_value_split(*game, 9);
                lemma_upto_bounds(*game, 9);
                assert(spec_value_from(*game, 9) == 10);
            }
        },
    }
    (best_move, best_score)
}

/// Picks an optimal move for the side to move: nothing if and only if the
/// game is already over, and otherwise the first empty cell in row-major
/// order whose child's minimax value equals the game's own minimax value.
pub fn ai_move(game: &Game) -> (r: Option<(usize, usize)>)
    requires
        game.wf(),
    ensures
        r is Some <==> game.state is Playing,
        r matches Some(m) ==> m.0 < 3 && m.1 < 3 && game.board[m.0 as int][m.1 as int] is Empty,
        r matches Some(m) ==> spec_best_move(*game, m),
{
    let playing = match game.state {
        GameState::Playing => true,
        _ => false,
    };
    if !playing {
        None
    } else {
        proof {
            lemma_value_in_score_range(*game);
        }
        let ((x, y), _score) = minimax(game, -10, 10);
        proof {
            let k = 3 * (x as int) + (y as int);
            assert(rm_row(k) == x && rm_col(k) == y);
        }
        Some((x, y))
    }
}

/// The score of a finished game: +1 if X won, -1 if O won, 0 for a tie.
///
/// Asking for the terminal score of a game still in progress is a defect of
/// the caller (a broken recursion guard), so it is ruled out up front.
pub fn evaluate_position(game: &Game) -> (r: i32)
    requires
        !(game.state is Playing),
    ensures
        r == spec_score(game.state),
{
    match game.state {
        GameState::XWon => 1,
        GameState::OWon => -1,
        GameState::Tie => 0,
        GameState::Playing => 0,
    }
}

/// Law: the evaluator is pure and deterministic — any two results computed
/// from equal boards are equal.
pub proof fn lemma_evaluate_deterministic(
    b: [[BoardSpace; 3]; 3],
    r1: GameState,
    r2: GameState,
)
    requires
        r1 == spec_status(b),
        r2 == spec_status(b),
    ensures
        r1 == r2,
{
}

/// Law: a move aimed at an occupied cell is a no-op — board, turn and
/// status of a well-formed game are left exactly as they were.
pub proof fn lemma_play_occupied_noop(g: Game, x: int, y: int)
    requires
        g.wf(),
        0 <= x < 3,
        0 <= y < 3,
        !(g.board[x][y] is Empty),
    ensures
        spec_play(g, x, y) == g,
{
}

/// Law: a legal move hands the turn to the other player, and the other
/// player of the other player is the mover again — so across a sequence of
/// legal moves the turn strictly alternates X, O, X, O, ...
pub proof fn lemma_play_alternates_turn(g: Game, x: int, y: int)
    requires
        0 <= x < 3,
        0 <= y < 3,
        g.board[x][y] is Empty,
    ensures
        spec_play(g, x, y).turn == spec_other(g.turn),
        spec_other(spec_other(g.turn)) == g.turn,
{
}

} // verus!

