//! Choosing the computer's move: minimax over the whole game tree, searched
//! with alpha-beta pruning.
use vstd::prelude::*;

use crate::board::{all_taken, has_line, other, Board, BoardPosition, BoardView, Team};

verus! {

/// The score of a game that the searching side wins.
pub const WIN: i8 = 1;

/// The score of a drawn game.
pub const DRAW: i8 = 0;

/// The score of a game that the searching side loses.
pub const LOSS: i8 = -1;

/// A bound below every score, where the search window starts.
const BELOW_ALL: i8 = -2;

/// A bound above every score, where the search window starts.
const ABOVE_ALL: i8 = 2;

/// The number of free cells.
pub open spec fn empties(cells: Seq<Option<Team>>) -> nat
    decreases cells.len(),
{
    if cells.len() == 0 {
        0
    } else {
        empties(cells.drop_last()) + if cells.last() is None {
            1nat
        } else {
            0nat
        }
    }
}

/// Filling a free cell leaves one free cell fewer.
pub proof fn lemma_fill_decreases(cells: Seq<Option<Team>>, i: int, t: Team)
    requires
        0 <= i < cells.len(),
        cells[i] is None,
    ensures
        empties(cells.update(i, Some(t))) + 1 == empties(cells),
    decreases cells.len(),
{
    let u = cells.update(i, Some(t));
    if i == cells.len() - 1 {
        assert(u.drop_last() =~= cells.drop_last());
    } else {
        assert(u.drop_last() =~= cells.drop_last().update(i, Some(t)));
        lemma_fill_decreases(cells.drop_last(), i, t);
    }
}

/// The minimax value of a position for the searching side, where `mover`
/// has just moved and `maximizing` says whether the searching side is to
/// move next: a line for `mover` ends the game, a full board is a draw, and
/// otherwise the side to move takes the best of its replies.
pub open spec fn game_value(cells: Seq<Option<Team>>, mover: Team, maximizing: bool) -> int
    decreases empties(cells), 10nat,
{
    if has_line(cells, mover) {
        if maximizing {
            LOSS as int
        } else {
            WIN as int
        }
    } else if all_taken(cells) {
        DRAW as int
    } else {
        best_reply(cells, mover, maximizing, 9)
    }
}

/// The value of `cells` with `t` put into cell `i`, `t` having moved.
pub open spec fn reply_value(cells: Seq<Option<Team>>, t: Team, maximizing: bool, i: int) -> int
    decreases empties(cells), 0nat,
{
    if 0 <= i < cells.len() && cells[i] is None {
        proof {
            lemma_fill_decreases(cells, i, t);
        }
        game_value(cells.update(i, Some(t)), t, maximizing)
    } else {
        DRAW as int
    }
}

/// The best value (the largest when `maximizing`, else the smallest) that
/// the side after `mover` reaches by a reply in one of the first `n` cells,
/// starting from the worst score for that side.
pub open spec fn best_reply(cells: Seq<Option<Team>>, mover: Team, maximizing: bool, n: nat) -> int
    decreases empties(cells), n,
{
    if n == 0 {
        if maximizing {
            LOSS as int
        } else {
            WIN as int
        }
    } else {
        let prev = best_reply(cells, mover, maximizing, (n - 1) as nat);
        if n - 1 < cells.len() && cells[n - 1] is None {
            let c = reply_value(cells, other(mover), !maximizing, n - 1);
            if maximizing {
                if c > prev {
                    c
                } else {
                    prev
                }
            } else {
                if c < prev {
                    c
                } else {
                    prev
                }
            }
        } else {
            prev
        }
    }
}

/// The value for the side to move of putting its symbol into cell `i`.
pub open spec fn move_value(b: BoardView, i: int) -> int {
    game_value(b.cells.update(i, Some(b.player)), b.player, false)
}

/// Whether cell `i` is the move that the search picks: a free cell of the
/// greatest value, the first such in row-major order.
pub open spec fn is_best_move(b: BoardView, i: int) -> bool {
    &&& 0 <= i < 9
    &&& b.cells[i] is None
    &&& forall|j: int| 0 <= j < 9 && b.cells[j] is None ==> move_value(b, j) <= move_value(b, i)
    &&& forall|j: int| 0 <= j < i && b.cells[j] is None ==> move_value(b, j) < move_value(b, i)
}

/// `v` forced into `lo..=hi`.
spec fn clamp(v: int, lo: int, hi: int) -> int {
    if v < lo {
        lo
    } else if v > hi {
        hi
    } else {
        v
    }
}

/// Replies in more cells reach at least as good a value.
proof fn lemma_best_reply_monotone(
    cells: Seq<Option<Team>>,
    mover: Team,
    maximizing: bool,
    n: nat,
    m: nat,
)
    requires
        n <= m,
    ensures
        maximizing ==> best_reply(cells, mover, maximizing, n) <= best_reply(
            cells,
            mover,
            maximizing,
            m,
        ),
        !maximizing ==> best_reply(cells, mover, maximizing, n) >= best_reply(
            cells,
            mover,
            maximizing,
            m,
        ),
    decreases m,
{
    if n < m {
        lemma_best_reply_monotone(cells, mover, maximizing, n, (m - 1) as nat);
    }
}

/// The move for the player to move: of the free cells, the one whose minimax
/// value is greatest, the first in row-major order among equals.
pub fn get_next_move(board: Board) -> (r: BoardPosition)
    requires
        board.wf(),
        !all_taken(board@.cells),
    ensures
        r.valid(),
        is_best_move(board@, r.index()),
{
    let ghost b = board@;
    proof {
        board.lemma_nine_cells();
    }
    let mut best_val: i8 = BELOW_ALL;
    let mut best_pos = BoardPosition { x: 0, y: 0 };
    let mut i: u8 = 0;
    while i < 9
        invariant
            board.wf(),
            b == board@,
            b.cells.len() == 9,
            i <= 9,
            best_pos.valid(),
            best_val == BELOW_ALL <==> forall|j: int| 0 <= j < i ==> !(b.cells[j] is None),
            best_val != BELOW_ALL ==> {
                &&& best_pos.index() < i
                &&& b.cells[best_pos.index()] is None
                &&& best_val == move_value(b, best_pos.index())
                &&& forall|j: int|
                    0 <= j < best_pos.index() && b.cells[j] is None ==> move_value(b, j)
                        < best_val
            },
            forall|j: int| 0 <= j < i && b.cells[j] is None ==> move_value(b, j) <= best_val,
        decreases 9 - i,
    {
        let pos = position_of(i);
        if board.is_cell_empty(pos) {
            let mut child = board;
            child.set_cell(pos);
            let val = minimax(child, BELOW_ALL, ABOVE_ALL, false);
            assert(val == move_value(b, i as int));
            if val > best_val {
                best_val = val;
                best_pos = pos;
            }
        }
        i = i + 1;
    }
    proof {
        if best_val == BELOW_ALL {
            let k = choose|k: int| 0 <= k < 9 && !(b.cells[k] is Some);
            assert(!(b.cells[k] is None));
        }
    }
    best_pos
}

/// Every minimax value is a score: a loss, a draw or a win.
pub proof fn lemma_game_value_range(cells: Seq<Option<Team>>, mover: Team, maximizing: bool)
    ensures
        LOSS <= game_value(cells, mover, maximizing) <= WIN,
    decreases empties(cells), 10nat,
{
    if !has_line(cells, mover) && !all_taken(cells) {
        lemma_best_reply_range(cells, mover, maximizing, 9);
    }
}

/// Every best reply value is a score.
proof fn lemma_best_reply_range(cells: Seq<Option<Team>>, mover: Team, maximizing: bool, n: nat)
    ensures
        LOSS <= best_reply(cells, mover, maximizing, n) <= WIN,
    decreases empties(cells), n,
{
    if n > 0 {
        lemma_best_reply_range(cells, mover, maximizing, (n - 1) as nat);
        if n - 1 < cells.len() && cells[n - 1] is None {
            lemma_fill_decreases(cells, n - 1, other(mover));
            lemma_game_value_range(
                cells.update(n - 1, Some(other(mover))),
                other(mover),
                !maximizing,
            );
            assert(reply_value(cells, other(mover), !maximizing, n - 1) == game_value(
                cells.update(n - 1, Some(other(mover))),
                other(mover),
                !maximizing,
            ));
        }
    }
}

/// The best reply is at least as good, for the side replying, as each
/// reply it ranges over.
proof fn lemma_best_reply_bounds_reply(
    cells: Seq<Option<Team>>,
    mover: Team,
    maximizing: bool,
    n: nat,
    k: int,
)
    requires
        0 <= k < n,
        k < cells.len(),
        cells[k] is None,
    ensures
        maximizing ==> reply_value(cells, other(mover), !maximizing, k) <= best_reply(
            cells,
            mover,
            maximizing,
            n,
        ),
        !maximizing ==> reply_value(cells, other(mover), !maximizing, k) >= best_reply(
            cells,
            mover,
            maximizing,
            n,
        ),
    decreases n,
{
    if k < n - 1 {
        lemma_best_reply_bounds_reply(cells, mover, maximizing, (n - 1) as nat, k);
    }
}

/// Exactly one cell is the move that the search picks, so the same board
/// always gives the same move.
pub proof fn lemma_best_move_unique(b: BoardView, i: int, j: int)
    requires
        is_best_move(b, i),
        is_best_move(b, j),
    ensures
        i == j,
{
    if i < j {
        assert(move_value(b, i) < move_value(b, j));
        assert(move_value(b, j) <= move_value(b, i));
    } else if j < i {
        assert(move_value(b, j) < move_value(b, i));
        assert(move_value(b, i) <= move_value(b, j));
    }
}

/// Where putting its symbol into free cell `k` completes a line for the side
/// to move, the search picks `k`, unless an earlier free cell also wins.
pub proof fn lemma_takes_immediate_win(b: BoardView, k: int, i: int)
    requires
        b.cells.len() == 9,
        0 <= k < 9,
        b.cells[k] is None,
        has_line(b.cells.update(k, Some(b.player)), b.player),
        forall|j: int| 0 <= j < k && b.cells[j] is None ==> move_value(b, j) < WIN,
        is_best_move(b, i),
    ensures
        i == k,
{
    assert(move_value(b, k) == WIN);
    lemma_game_value_range(b.cells.update(i, Some(b.player)), b.player, false);
}

/// Where the other side would complete a line in free cell `k` and no free
/// cell completes one for the side to move, the search blocks at `k`, unless
/// blocking loses as well and an earlier cell is free.
pub proof fn lemma_blocks_threat(b: BoardView, k: int, i: int)
    requires
        b.cells.len() == 9,
        0 <= k < 9,
        b.cells[k] is None,
        has_line(b.cells.update(k, Some(other(b.player))), other(b.player)),
        forall|j: int|
            0 <= j < 9 && b.cells[j] is None ==> !has_line(
                #[trigger] b.cells.update(j, Some(b.player)),
                b.player,
            ),
        move_value(b, k) > LOSS || forall|j: int| 0 <= j < k ==> b.cells[j] is Some,
        is_best_move(b, i),
    ensures
        i == k,
{
    let p = b.player;
    let q = other(p);
    assert forall|j: int| 0 <= j < 9 && j != k && b.cells[j] is None implies move_value(b, j)
        == LOSS by {
        let c = b.cells.update(j, Some(p));
        assert(!has_line(c, p));
        assert(c[k] is None);
        assert(!all_taken(c));
        let d = c.update(k, Some(q));
        let e = b.cells.update(k, Some(q));
        assert(forall|m: int| 0 <= m < 9 && e[m] == Some(q) ==> d[m] == Some(q));
        assert(has_line(d, q));
        assert(reply_value(c, q, true, k) == LOSS);
        lemma_best_reply_bounds_reply(c, p, false, 9, k);
        lemma_best_reply_range(c, p, false, 9);
    }
    lemma_game_value_range(b.cells.update(k, Some(p)), p, false);
    if i != k {
        assert(move_value(b, i) == LOSS);
        assert(move_value(b, k) == LOSS);
        if k < i {
            assert(move_value(b, k) < move_value(b, i));
        } else {
            assert(b.cells[i] is Some);
        }
    }
}

/// The cell with row-major index `i`.
fn position_of(i: u8) -> (r: BoardPosition)
    requires
        i < 9,
    ensures
        r.valid(),
        r.index() == i,
{
    BoardPosition { x: i % 3, y: i / 3 }
}

/// Alpha-beta search of the position in `board`, whose player to move has
/// just moved. The result agrees with the minimax value inside the window
/// `alpha..=beta`, and is on the same side of the window outside it.
///
/// A line for the side that just moved scores from the searching side's
/// point of view: a win when the searching side made it, a loss otherwise.
/// Replies are tried in row-major order, and a node stops trying them as
/// soon as its window closes (`alpha >= beta`, the textbook cutoff), not on
/// every reply that reaches a bound.
fn minimax(board: Board, alpha: i8, beta: i8, is_maximizing: bool) -> (r: i8)
    requires
        board.wf(),
        BELOW_ALL <= alpha < beta <= ABOVE_ALL,
    ensures
        LOSS <= r <= WIN,
        clamp(r as int, alpha as int, beta as int) == clamp(
            game_value(board@.cells, board@.player, is_maximizing),
            alpha as int,
            beta as int,
        ),
    decreases empties(board@.cells),
{
    let ghost cells = board@.cells;
    let ghost mover = board@.player;
    proof {
        board.lemma_nine_cells();
    }
    if board.evaluate() {
        if is_maximizing {
            return LOSS;
        } else {
            return WIN;
        }
    }
    if board.is_full() {
        return DRAW;
    }
    let mut lo = alpha;
    let mut hi = beta;
    let ghost alpha0 = alpha as int;
    let ghost beta0 = beta as int;
    let mut best: i8 = if is_maximizing {
        LOSS
    } else {
        WIN
    };
    let mut i: u8 = 0;
    while i < 9
        invariant
            board.wf(),
            cells == board@.cells,
            mover == board@.player,
            cells.len() == 9,
            !has_line(cells, mover),
            !all_taken(cells),
            i <= 9,
            LOSS <= best <= WIN,
            alpha0 == alpha,
            beta0 == beta,
            BELOW_ALL <= alpha0 <= lo < hi <= beta0 <= ABOVE_ALL,
            is_maximizing ==> hi == beta0 && (lo <= alpha0 || lo <= best),
            !is_maximizing ==> lo == alpha0 && (hi >= beta0 || hi >= best),
            clamp(best as int, alpha0, beta0) == clamp(
                best_reply(cells, mover, is_maximizing, i as nat),
                alpha0,
                beta0,
            ),
        decreases 9 - i,
    {
        let pos = position_of(i);
        if board.is_cell_empty(pos) {
            let mut child = board;
            child.swap_players();
            child.set_cell(pos);
            proof {
                lemma_fill_decreases(cells, i as int, other(mover));
            }
            let val = minimax(child, lo, hi, !is_maximizing);
            let ghost prev = best_reply(cells, mover, is_maximizing, i as nat);
            let ghost c = reply_value(cells, other(mover), !is_maximizing, i as int);
            assert(c == game_value(child@.cells, child@.player, !is_maximizing));
            assert(best_reply(cells, mover, is_maximizing, (i + 1) as nat) == if is_maximizing {
                if c > prev {
                    c
                } else {
                    prev
                }
            } else {
                if c < prev {
                    c
                } else {
                    prev
                }
            });
            if is_maximizing {
                if val > best {
                    best = val;
                }
                if best > lo {
                    lo = best;
                }
            } else {
                if val < best {
                    best = val;
                }
                if best < hi {
                    hi = best;
                }
            }
            assert(clamp(best as int, alpha0, beta0) == clamp(
                best_reply(cells, mover, is_maximizing, (i + 1) as nat),
                alpha0,
                beta0,
            ));
            // The window is closed: no further reply changes the result.
            if lo >= hi {
                proof {
                    lemma_best_reply_monotone(cells, mover, is_maximizing, (i + 1) as nat, 9);
                }
                assert(game_value(cells, mover, is_maximizing) == best_reply(
                    cells,
                    mover,
                    is_maximizing,
                    9,
                ));
                return best;
            }
        } else {
            assert(best_reply(cells, mover, is_maximizing, (i + 1) as nat) == best_reply(
                cells,
                mover,
                is_maximizing,
                i as nat,
            ));
        }
        i = i + 1;
    }
    best
}

} // verus!
