use vstd::prelude::*;
use crate::state::{Player, cell_is, count_empty, board_full, is_board_full,
    lemma_count_empty_fill, lemma_count_empty_le_len, lemma_count_empty_zero};

verus! {

/// Cell `j` (0..3) of winning line `k` (0..8): three rows, three columns,
/// then the two diagonals.
pub open spec fn ttt_line_cell(k: int, j: int) -> int {
    if k < 3 {
        3 * k + j
    } else if k < 6 {
        (k - 3) + 3 * j
    } else if k == 6 {
        4 * j
    } else {
        2 + 2 * j
    }
}

/// All three cells of line `k` hold `player`.
pub open spec fn ttt_line_won(b: Seq<Option<Player>>, player: Player, k: int) -> bool {
    &&& b[ttt_line_cell(k, 0)] == Some(player)
    &&& b[ttt_line_cell(k, 1)] == Some(player)
    &&& b[ttt_line_cell(k, 2)] == Some(player)
}

/// `player` holds a complete row, column or diagonal.
pub open spec fn ttt_won(b: Seq<Option<Player>>, player: Player) -> bool {
    exists|k: int| 0 <= k < 8 && #[trigger] ttt_line_won(b, player, k)
}

fn line_cell(k: usize, j: usize) -> (r: usize)
    requires
        k < 8,
        j < 3,
    ensures
        r == ttt_line_cell(k as int, j as int),
        r < 9,
{
    if k < 3 {
        3 * k + j
    } else if k < 6 {
        (k - 3) + 3 * j
    } else if k == 6 {
        4 * j
    } else {
        2 + 2 * j
    }
}

/// Whether `player` has three in a row.
pub fn check_ttt_win(board: &[Option<Player>; 9], player: Player) -> (r: bool)
    ensures
        r == ttt_won(board@, player),
{
    let mut k: usize = 0;
    while k < 8
        invariant
            k <= 8,
            forall|l: int| 0 <= l < k ==> !#[trigger] ttt_line_won(board@, player, l),
        decreases 8 - k,
    {
        let a = line_cell(k, 0);
        let b = line_cell(k, 1);
        let c = line_cell(k, 2);
        if cell_is(board[a], player) && cell_is(board[b], player) && cell_is(board[c], player) {
            assert(ttt_line_won(board@, player, k as int));
            return true;
        }
        k = k + 1;
    }
    false
}

/// The mark placed by the side to move: O maximises, X minimises.
pub open spec fn ttt_mark(is_maximizing: bool) -> Player {
    if is_maximizing { Player::O } else { Player::X }
}

pub open spec fn combine(is_maximizing: bool, best: int, score: int) -> int {
    if is_maximizing {
        if score > best { score } else { best }
    } else {
        if score < best { score } else { best }
    }
}

/// Minimax value of a tic-tac-toe position: a win for O scores `10 - depth`,
/// a win for X scores `depth - 10`, a full board scores 0, otherwise the
/// best value over the empty cells taken in index order.
pub open spec fn minimax_ttt_value(b: Seq<Option<Player>>, depth: int, is_maximizing: bool) -> int
    decreases count_empty(b), 10int,
{
    if ttt_won(b, Player::O) {
        10 - depth
    } else if ttt_won(b, Player::X) {
        depth - 10
    } else if board_full(b) {
        0
    } else {
        ttt_scan(b, depth, is_maximizing, 0, if is_maximizing { i32::MIN as int } else { i32::MAX as int })
    }
}

/// The running best over cells `i..9` of the board, starting from `best`.
pub open spec fn ttt_scan(b: Seq<Option<Player>>, depth: int, is_maximizing: bool, i: int, best: int) -> int
    decreases count_empty(b), 9 - i,
{
    if i < 0 || i >= 9 || i >= b.len() {
        best
    } else if b[i] is None {
        proof {
            lemma_count_empty_fill(b, i, ttt_mark(is_maximizing));
        }
        let score = minimax_ttt_value(b.update(i, Some(ttt_mark(is_maximizing))), depth + 1, !is_maximizing);
        ttt_scan(b, depth, is_maximizing, i + 1, combine(is_maximizing, best, score))
    } else {
        ttt_scan(b, depth, is_maximizing, i + 1, best)
    }
}

fn minimax_ttt(board: &mut [Option<Player>; 9], depth: i32, is_maximizing: bool) -> (r: i32)
    requires
        0 <= depth,
        depth + count_empty(old(board)@) < 1000,
    ensures
        final(board)@ == old(board)@,
        r == minimax_ttt_value(old(board)@, depth as int, is_maximizing),
    decreases count_empty(old(board)@),
{
    let ghost b0 = board@;
    if check_ttt_win(board, Player::O) {
        return 10 - depth;
    }
    if check_ttt_win(board, Player::X) {
        return depth - 10;
    }
    if is_board_full(board) {
        return 0;
    }
    let mut best_score = if is_maximizing { i32::MIN } else { i32::MAX };
    let mut i: usize = 0;
    while i < 9
        invariant
            0 <= depth,
            depth + count_empty(b0) < 1000,
            board@ == b0,
            b0 == old(board)@,
            b0.len() == 9,
            i <= 9,
            ttt_scan(b0, depth as int, is_maximizing, 0, if is_maximizing { i32::MIN as int } else { i32::MAX as int })
                == ttt_scan(b0, depth as int, is_maximizing, i as int, best_score as int),
        decreases 9 - i,
    {
        if board[i].is_none() {
            let mark = if is_maximizing { Player::O } else { Player::X };
            proof {
                lemma_count_empty_fill(b0, i as int, mark);
            }
            board[i] = Some(mark);
            let score = minimax_ttt(board, depth + 1, !is_maximizing);
            board[i] = None;
            assert(board@ =~= b0);
            best_score = if is_maximizing {
                if score > best_score { score } else { best_score }
            } else {
                if score < best_score { score } else { best_score }
            };
        }
        i = i + 1;
    }
    best_score
}

/// Scan of the root moves: the first empty cell with the strictly highest
/// minimax value (O to move) wins.
pub open spec fn ttt_best_scan(b: Seq<Option<Player>>, i: int, best_score: int, best_move: Option<usize>) -> Option<usize>
    decreases 9 - i,
{
    if i < 0 || i >= 9 || i >= b.len() {
        best_move
    } else if b[i] is None {
        let score = minimax_ttt_value(b.update(i, Some(Player::O)), 0, false);
        if score > best_score {
            ttt_best_scan(b, i + 1, score, Some(i as usize))
        } else {
            ttt_best_scan(b, i + 1, best_score, best_move)
        }
    } else {
        ttt_best_scan(b, i + 1, best_score, best_move)
    }
}

/// The computer's (O's) reply in tic-tac-toe.
pub open spec fn best_ttt_move(b: Seq<Option<Player>>) -> Option<usize> {
    ttt_best_scan(b, 0, i32::MIN as int, None)
}

/// Best move for O by full minimax search; `None` when the board is full.
pub fn get_best_ttt_move(board: &mut [Option<Player>; 9]) -> (r: Option<usize>)
    ensures
        final(board)@ == old(board)@,
        r == best_ttt_move(old(board)@),
{
    let ghost b0 = board@;
    let mut best_score = i32::MIN;
    let mut best_move: Option<usize> = None;
    let mut i: usize = 0;
    proof {
        lemma_count_empty_le_len(b0);
    }
    while i < 9
        invariant
            board@ == b0,
            b0.len() == 9,
            count_empty(b0) <= 9,
            i <= 9,
            best_ttt_move(b0) == ttt_best_scan(b0, i as int, best_score as int, best_move),
        decreases 9 - i,
    {
        if board[i].is_none() {
            proof {
                lemma_count_empty_fill(b0, i as int, Player::O);
            }
            board[i] = Some(Player::O);
            let score = minimax_ttt(board, 0, false);
            board[i] = None;
            assert(board@ =~= b0);
            if score > best_score {
                best_score = score;
                best_move = Some(i);
            }
        }
        i = i + 1;
    }
    best_move
}

proof fn lemma_best_scan_shape(b: Seq<Option<Player>>, i: int, best_score: int, best_move: Option<usize>)
    requires
        b.len() == 9,
        0 <= i <= 9,
        best_move matches Some(m) ==> m < 9 && b[m as int] is None,
        best_move is Some || best_score == i32::MIN,
        forall|j: int| 0 <= j < i ==> (#[trigger] b[j]) is Some || best_move is Some,
    ensures
        ttt_best_scan(b, i, best_score, best_move) matches Some(m) ==> m < 9 && b[m as int] is None,
        ttt_best_scan(b, i, best_score, best_move) is None <==> board_full(b),
    decreases 9 - i,
{
    if i < 9 {
        if b[i] is None {
            let score = minimax_ttt_value(b.update(i, Some(Player::O)), 0, false);
            if score > best_score {
                lemma_best_scan_shape(b, i + 1, score, Some(i as usize));
            } else {
                lemma_count_empty_fill(b, i, Player::O);
                lemma_count_empty_le_len(b);
                lemma_minimax_ttt_bounds(b.update(i, Some(Player::O)), 0, false);
                lemma_best_scan_shape(b, i + 1, best_score, best_move);
            }
        } else {
            lemma_best_scan_shape(b, i + 1, best_score, best_move);
        }
    } else {
        if best_move is None {
            assert(board_full(b));
        } else {
            assert(!board_full(b)) by {
                let m = best_move->0;
                assert(b[m as int] is None);
            }
        }
    }
}

/// Minimax values lie strictly above `i32::MIN` and strictly below `i32::MAX`.
proof fn lemma_minimax_ttt_bounds(b: Seq<Option<Player>>, depth: int, is_maximizing: bool)
    requires
        0 <= depth,
        depth + count_empty(b) < 1000,
        b.len() == 9,
    ensures
        i32::MIN < minimax_ttt_value(b, depth, is_maximizing) < i32::MAX,
    decreases count_empty(b), 10int,
{
    if !ttt_won(b, Player::O) && !ttt_won(b, Player::X) && !board_full(b) {
        let init = if is_maximizing { i32::MIN as int } else { i32::MAX as int };
        lemma_ttt_scan_bounds(b, depth, is_maximizing, 0, init);
        // some cell is empty, so the scan takes at least one value
        let k = choose|k: int| 0 <= k < b.len() && !(#[trigger] b[k] is Some);
        lemma_ttt_scan_hits(b, depth, is_maximizing, 0, init, k);
    }
}

proof fn lemma_ttt_scan_bounds(b: Seq<Option<Player>>, depth: int, is_maximizing: bool, i: int, best: int)
    requires
        0 <= depth,
        depth + count_empty(b) < 1000,
        b.len() == 9,
        0 <= i,
        i32::MIN <= best <= i32::MAX,
    ensures
        i32::MIN <= ttt_scan(b, depth, is_maximizing, i, best) <= i32::MAX,
        (i32::MIN < best < i32::MAX) ==> i32::MIN < ttt_scan(b, depth, is_maximizing, i, best) < i32::MAX,
    decreases count_empty(b), 9 - i,
{
    if i < 9 {
        if b[i] is None {
            lemma_count_empty_fill(b, i, ttt_mark(is_maximizing));
            let nb = b.update(i, Some(ttt_mark(is_maximizing)));
            lemma_minimax_ttt_bounds(nb, depth + 1, !is_maximizing);
            let score = minimax_ttt_value(nb, depth + 1, !is_maximizing);
            lemma_ttt_scan_bounds(b, depth, is_maximizing, i + 1, combine(is_maximizing, best, score));
        } else {
            lemma_ttt_scan_bounds(b, depth, is_maximizing, i + 1, best);
        }
    }
}

/// Once an empty cell at or after `i` is scanned, the result is a real score.
proof fn lemma_ttt_scan_hits(b: Seq<Option<Player>>, depth: int, is_maximizing: bool, i: int, best: int, k: int)
    requires
        0 <= depth,
        depth + count_empty(b) < 1000,
        b.len() == 9,
        0 <= i <= k < 9,
        b[k] is None,
        i32::MIN <= best <= i32::MAX,
        is_maximizing ==> best < i32::MAX,
        !is_maximizing ==> best > i32::MIN,
    ensures
        i32::MIN < ttt_scan(b, depth, is_maximizing, i, best) < i32::MAX,
    decreases count_empty(b), 9 - i,
{
    if b[i] is None {
        lemma_count_empty_fill(b, i, ttt_mark(is_maximizing));
        let nb = b.update(i, Some(ttt_mark(is_maximizing)));
        lemma_minimax_ttt_bounds(nb, depth + 1, !is_maximizing);
        let score = minimax_ttt_value(nb, depth + 1, !is_maximizing);
        lemma_ttt_scan_bounds(b, depth, is_maximizing, i + 1, combine(is_maximizing, best, score));
    } else {
        lemma_ttt_scan_hits(b, depth, is_maximizing, i + 1, best, k);
    }
}

/// The computer only ever answers with an empty cell, and answers whenever
/// one is left.
pub proof fn lemma_best_ttt_move_is_empty_cell(b: Seq<Option<Player>>)
    requires
        b.len() == 9,
    ensures
        best_ttt_move(b) matches Some(m) ==> m < 9 && b[m as int] is None,
        best_ttt_move(b) is None <==> board_full(b),
{
    lemma_best_scan_shape(b, 0, i32::MIN as int, None);
}

/// Minimax value for O of playing on cell `j`, X to answer.
pub open spec fn ttt_move_value(b: Seq<Option<Player>>, j: int) -> int {
    minimax_ttt_value(b.update(j, Some(Player::O)), 0, false)
}

proof fn lemma_ttt_best_scan_best(b: Seq<Option<Player>>, i: int, best_score: int, best_move: Option<usize>)
    requires
        b.len() == 9,
        0 <= i <= 9,
        forall|j: int| 0 <= j < i && b[j] is None ==> #[trigger] ttt_move_value(b, j) <= best_score,
        best_move matches Some(m) ==> {
            &&& m < i && b[m as int] is None
            &&& ttt_move_value(b, m as int) == best_score
            &&& forall|j: int| 0 <= j < m && b[j] is None ==> #[trigger] ttt_move_value(b, j) < best_score
        },
    ensures
        ttt_best_scan(b, i, best_score, best_move) matches Some(m) ==> {
            &&& m < 9 && b[m as int] is None
            &&& forall|j: int| 0 <= j < 9 && b[j] is None ==> #[trigger] ttt_move_value(b, j) <= ttt_move_value(b, m as int)
            &&& forall|j: int| 0 <= j < m && b[j] is None ==> #[trigger] ttt_move_value(b, j) < ttt_move_value(b, m as int)
        },
    decreases 9 - i,
{
    if i < 9 {
        if b[i] is None {
            let score = ttt_move_value(b, i);
            if score > best_score {
                lemma_ttt_best_scan_best(b, i + 1, score, Some(i as usize));
            } else {
                lemma_ttt_best_scan_best(b, i + 1, best_score, best_move);
            }
        } else {
            lemma_ttt_best_scan_best(b, i + 1, best_score, best_move);
        }
    }
}

/// The computer's tic-tac-toe answer has the highest minimax value among the
/// empty cells, and is the first such cell.
pub proof fn lemma_best_ttt_move_is_best(b: Seq<Option<Player>>)
    requires
        b.len() == 9,
    ensures
        best_ttt_move(b) matches Some(m) ==> {
            &&& m < 9 && b[m as int] is None
            &&& forall|j: int| 0 <= j < 9 && b[j] is None ==> #[trigger] ttt_move_value(b, j) <= ttt_move_value(b, m as int)
            &&& forall|j: int| 0 <= j < m && b[j] is None ==> #[trigger] ttt_move_value(b, j) < ttt_move_value(b, m as int)
        },
{
    lemma_ttt_best_scan_best(b, 0, i32::MIN as int, None);
}

/// A finished game is scored by its winner, full board or not: a board on
/// which O has a line is worth a win for O (positive), one on which only X
/// has a line a win for X (negative), and a sooner win counts for more.
pub proof fn lemma_ttt_won_board_value(b: Seq<Option<Player>>, depth: int, is_maximizing: bool)
    requires
        0 <= depth < 10,
    ensures
        ttt_won(b, Player::O) ==> 0 < minimax_ttt_value(b, depth, is_maximizing) == 10 - depth,
        ttt_won(b, Player::X) && !ttt_won(b, Player::O) ==> 0 > minimax_ttt_value(b, depth, is_maximizing) == depth - 10,
{
}

} // verus!
