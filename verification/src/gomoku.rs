use vstd::prelude::*;
use crate::state::{Player, cell_is, board_full, is_board_full};

verus! {

/// Index of the cell in row `y`, column `x` of the 15x15 board.
pub open spec fn gidx(y: int, x: int) -> int {
    y * 15 + x
}

/// Five cells starting at `idx`, `step` apart, all hold `player`.
pub open spec fn five_from(b: Seq<Option<Player>>, player: Player, idx: int, step: int) -> bool {
    &&& b[idx] == Some(player)
    &&& b[idx + step] == Some(player)
    &&& b[idx + 2 * step] == Some(player)
    &&& b[idx + 3 * step] == Some(player)
    &&& b[idx + 4 * step] == Some(player)
}

/// `player` has five in a row starting at (`y`, `x`): rightwards,
/// downwards, down-right or down-left.
pub open spec fn win_at(b: Seq<Option<Player>>, player: Player, y: int, x: int) -> bool {
    let i = gidx(y, x);
    ||| x <= 10 && five_from(b, player, i, 1)
    ||| y <= 10 && five_from(b, player, i, 15)
    ||| x <= 10 && y <= 10 && five_from(b, player, i, 16)
    ||| x >= 4 && y <= 10 && five_from(b, player, i, 14)
}

/// `player` has five stones in a row somewhere on the board.
pub open spec fn gomoku_won(b: Seq<Option<Player>>, player: Player) -> bool {
    exists|y: int, x: int| 0 <= y < 15 && 0 <= x < 15 && #[trigger] win_at(b, player, y, x)
}

fn five_in_row(board: &[Option<Player>; 225], player: Player, idx: usize, step: usize) -> (r: bool)
    requires
        idx + 4 * step < 225,
    ensures
        r == five_from(board@, player, idx as int, step as int),
{
    cell_is(board[idx], player) && cell_is(board[idx + step], player) && cell_is(board[idx + 2 * step], player)
        && cell_is(board[idx + 3 * step], player) && cell_is(board[idx + 4 * step], player)
}

/// Whether `player` has five in a row horizontally, vertically or diagonally.
pub fn check_gomoku_win(board: &[Option<Player>; 225], player: Player) -> (r: bool)
    ensures
        r == gomoku_won(board@, player),
{
    let size: usize = 15;
    let mut y: usize = 0;
    while y < size
        invariant
            size == 15,
            y <= 15,
            forall|yy: int, xx: int| 0 <= yy < y && 0 <= xx < 15 ==> !#[trigger] win_at(board@, player, yy, xx),
        decreases 15 - y,
    {
        let mut x: usize = 0;
        while x < size
            invariant
                size == 15,
                y < 15,
                x <= 15,
                forall|yy: int, xx: int| 0 <= yy < y && 0 <= xx < 15 ==> !#[trigger] win_at(board@, player, yy, xx),
                forall|xx: int| 0 <= xx < x ==> !#[trigger] win_at(board@, player, y as int, xx),
            decreases 15 - x,
        {
            let idx = y * size + x;
            if !cell_is(board[idx], player) {
                x = x + 1;
                continue;
            }
            if x <= size - 5 && five_in_row(board, player, idx, 1) {
                assert(win_at(board@, player, y as int, x as int));
                return true;
            }
            if y <= size - 5 && five_in_row(board, player, idx, size) {
                assert(win_at(board@, player, y as int, x as int));
                return true;
            }
            if x <= size - 5 && y <= size - 5 && five_in_row(board, player, idx, size + 1) {
                assert(win_at(board@, player, y as int, x as int));
                return true;
            }
            if x >= 4 && y <= size - 5 && five_in_row(board, player, idx, size - 1) {
                assert(win_at(board@, player, y as int, x as int));
                return true;
            }
            x = x + 1;
        }
        y = y + 1;
    }
    false
}

/// Score of a window of five cells holding `ai_count` stones of the computer
/// (O) and `human_count` stones of the player (X).
pub open spec fn window_value(ai_count: int, human_count: int) -> int {
    if ai_count > 0 && human_count == 0 {
        if ai_count == 5 {
            10000000
        } else if ai_count == 4 {
            100000
        } else if ai_count == 3 {
            1000
        } else if ai_count == 2 {
            10
        } else if ai_count == 1 {
            1
        } else {
            0
        }
    } else if human_count > 0 && ai_count == 0 {
        if human_count == 5 {
            -10000000
        } else if human_count == 4 {
            -1000000
        } else if human_count == 3 {
            -10000
        } else if human_count == 2 {
            -10
        } else if human_count == 1 {
            -1
        } else {
            0
        }
    } else {
        0
    }
}

fn evaluate_window(ai_count: i32, human_count: i32) -> (r: i32)
    ensures
        r == window_value(ai_count as int, human_count as int),
{
    if ai_count > 0 && human_count == 0 {
        match ai_count {
            5 => 10000000,
            4 => 100000,
            3 => 1000,
            2 => 10,
            1 => 1,
            _ => 0,
        }
    } else if human_count > 0 && ai_count == 0 {
        match human_count {
            5 => -10000000,
            4 => -1000000,
            3 => -10000,
            2 => -10,
            1 => -1,
            _ => 0,
        }
    } else {
        0
    }
}

pub open spec fn holds(c: Option<Player>, player: Player) -> int {
    if c == Some(player) { 1 } else { 0 }
}

/// Stones of `player` in the window of five cells from `idx`, `step` apart.
pub open spec fn window_count(b: Seq<Option<Player>>, player: Player, idx: int, step: int) -> int {
    holds(b[idx], player) + holds(b[idx + step], player) + holds(b[idx + 2 * step], player)
        + holds(b[idx + 3 * step], player) + holds(b[idx + 4 * step], player)
}

pub open spec fn window_score(b: Seq<Option<Player>>, idx: int, step: int) -> int {
    window_value(window_count(b, Player::O, idx, step), window_count(b, Player::X, idx, step))
}

/// Sum of the scores of the (up to four) windows that start at (`y`, `x`).
pub open spec fn cell_windows(b: Seq<Option<Player>>, y: int, x: int) -> int {
    let i = gidx(y, x);
    (if x <= 10 { window_score(b, i, 1) } else { 0 })
        + (if y <= 10 { window_score(b, i, 15) } else { 0 })
        + (if x <= 10 && y <= 10 { window_score(b, i, 16) } else { 0 })
        + (if x >= 4 && y <= 10 { window_score(b, i, 14) } else { 0 })
}

pub open spec fn row_windows(b: Seq<Option<Player>>, y: int, x: int) -> int
    decreases x,
{
    if x <= 0 { 0 } else { row_windows(b, y, x - 1) + cell_windows(b, y, x - 1) }
}

pub open spec fn rows_windows(b: Seq<Option<Player>>, y: int) -> int
    decreases y,
{
    if y <= 0 { 0 } else { rows_windows(b, y - 1) + row_windows(b, y - 1, 15) }
}

/// Heuristic value of a gomoku position for the computer (O): the sum of the
/// scores of every window of five consecutive cells.
pub open spec fn gomoku_eval(b: Seq<Option<Player>>) -> int {
    rows_windows(b, 15)
}

fn holds_exec(c: Option<Player>, player: Player) -> (r: i32)
    ensures
        r == holds(c, player),
{
    if cell_is(c, player) { 1 } else { 0 }
}

fn window_score_exec(board: &[Option<Player>; 225], idx: usize, step: usize) -> (r: i32)
    requires
        idx + 4 * step < 225,
    ensures
        r == window_score(board@, idx as int, step as int),
{
    let c0 = board[idx];
    let c1 = board[idx + step];
    let c2 = board[idx + 2 * step];
    let c3 = board[idx + 3 * step];
    let c4 = board[idx + 4 * step];
    let ai_count = holds_exec(c0, Player::O) + holds_exec(c1, Player::O) + holds_exec(c2, Player::O)
        + holds_exec(c3, Player::O) + holds_exec(c4, Player::O);
    let human_count = holds_exec(c0, Player::X) + holds_exec(c1, Player::X) + holds_exec(c2, Player::X)
        + holds_exec(c3, Player::X) + holds_exec(c4, Player::X);
    evaluate_window(ai_count, human_count)
}

/// Without five in a row, every window scores between -1000000 and 100000.
proof fn lemma_window_score_bounds(b: Seq<Option<Player>>, y: int, x: int, step: int)
    requires
        !win_at(b, Player::O, y, x),
        !win_at(b, Player::X, y, x),
        (step == 1 && x <= 10) || (step == 15 && y <= 10) || (step == 16 && x <= 10 && y <= 10)
            || (step == 14 && x >= 4 && y <= 10),
    ensures
        -1000000 <= window_score(b, gidx(y, x), step) <= 100000,
{
    let i = gidx(y, x);
    assert(window_count(b, Player::O, i, step) == 5 ==> five_from(b, Player::O, i, step));
    assert(window_count(b, Player::X, i, step) == 5 ==> five_from(b, Player::X, i, step));
}

/// Heuristic evaluation of the board for the computer; callers ensure that
/// neither side has five in a row.
fn evaluate_board(board: &[Option<Player>; 225]) -> (r: i32)
    requires
        !gomoku_won(board@, Player::O),
        !gomoku_won(board@, Player::X),
    ensures
        r == gomoku_eval(board@),
{
    let mut score: i32 = 0;
    let size: usize = 15;
    let mut y: usize = 0;
    while y < size
        invariant
            size == 15,
            y <= 15,
            !gomoku_won(board@, Player::O),
            !gomoku_won(board@, Player::X),
            score == rows_windows(board@, y as int),
            -60000000 * y <= score <= 6000000 * y,
        decreases 15 - y,
    {
        let mut x: usize = 0;
        while x < size
            invariant
                size == 15,
                y < 15,
                x <= 15,
                !gomoku_won(board@, Player::O),
                !gomoku_won(board@, Player::X),
                score == rows_windows(board@, y as int) + row_windows(board@, y as int, x as int),
                -60000000 * y - 4000000 * x <= score <= 6000000 * y + 400000 * x,
            decreases 15 - x,
        {
            let idx = y * size + x;
            proof {
                assert(!win_at(board@, Player::O, y as int, x as int));
                assert(!win_at(board@, Player::X, y as int, x as int));
                if x <= 10 { lemma_window_score_bounds(board@, y as int, x as int, 1); }
                if y <= 10 { lemma_window_score_bounds(board@, y as int, x as int, 15); }
                if x <= 10 && y <= 10 { lemma_window_score_bounds(board@, y as int, x as int, 16); }
                if x >= 4 && y <= 10 { lemma_window_score_bounds(board@, y as int, x as int, 14); }
            }
            if x <= size - 5 {
                let w = window_score_exec(board, idx, 1);
                score = score + w;
            }
            if y <= size - 5 {
                let w = window_score_exec(board, idx, size);
                score = score + w;
            }
            if x <= size - 5 && y <= size - 5 {
                let w = window_score_exec(board, idx, size + 1);
                score = score + w;
            }
            if x >= 4 && y <= size - 5 {
                let w = window_score_exec(board, idx, size - 1);
                score = score + w;
            }
            x = x + 1;
        }
        y = y + 1;
    }
    score
}

/// Some stone lies within two rows and two columns of (`y`, `x`).
pub open spec fn has_neighbor(b: Seq<Option<Player>>, y: int, x: int) -> bool {
    exists|dy: int, dx: int|
        -2 <= dy <= 2 && -2 <= dx <= 2 && !(dx == 0 && dy == 0) && 0 <= x + dx < 15 && 0 <= y + dy < 15
            && (#[trigger] b[gidx(y + dy, x + dx)]) is Some
}

/// An empty cell near a stone: a candidate move of the search.
pub open spec fn relevant(b: Seq<Option<Player>>, y: int, x: int) -> bool {
    b[gidx(y, x)] is None && has_neighbor(b, y, x)
}

pub open spec fn relevant_row(b: Seq<Option<Player>>, y: int, x: int) -> Seq<usize>
    decreases x,
{
    if x <= 0 {
        Seq::empty()
    } else if relevant(b, y, x - 1) {
        relevant_row(b, y, x - 1).push(gidx(y, x - 1) as usize)
    } else {
        relevant_row(b, y, x - 1)
    }
}

pub open spec fn relevant_rows(b: Seq<Option<Player>>, y: int) -> Seq<usize>
    decreases y,
{
    if y <= 0 { Seq::empty() } else { relevant_rows(b, y - 1) + relevant_row(b, y - 1, 15) }
}

pub open spec fn any_stone(b: Seq<Option<Player>>) -> bool {
    exists|i: int| 0 <= i < 225 && (#[trigger] b[i]) is Some
}

/// Candidate moves: the centre on an empty board, otherwise every empty
/// cell within two steps of a stone, in index order.
pub open spec fn relevant_moves(b: Seq<Option<Player>>) -> Seq<usize> {
    if !any_stone(b) { seq![112usize] } else { relevant_rows(b, 15) }
}

fn has_neighbor_exec(board: &[Option<Player>; 225], y: usize, x: usize) -> (r: bool)
    requires
        y < 15,
        x < 15,
    ensures
        r == has_neighbor(board@, y as int, x as int),
{
    let ix = x as isize;
    let iy = y as isize;
    let mut dy: isize = -2;
    while dy <= 2
        invariant
            -2 <= dy <= 3,
            ix == x,
            iy == y,
            x < 15,
            y < 15,
            forall|ddy: int, ddx: int|
                -2 <= ddy < dy && -2 <= ddx <= 2 && !(ddx == 0 && ddy == 0) && 0 <= x + ddx < 15 && 0 <= y + ddy < 15
                    ==> (#[trigger] board@[gidx(y + ddy, x + ddx)]) is None,
        decreases 3 - dy,
    {
        let mut dx: isize = -2;
        while dx <= 2
            invariant
                -2 <= dy <= 2,
                -2 <= dx <= 3,
                ix == x,
                iy == y,
                x < 15,
                y < 15,
                forall|ddy: int, ddx: int|
                    -2 <= ddy < dy && -2 <= ddx <= 2 && !(ddx == 0 && ddy == 0) && 0 <= x + ddx < 15 && 0 <= y + ddy < 15
                        ==> (#[trigger] board@[gidx(y + ddy, x + ddx)]) is None,
                forall|ddx: int|
                    -2 <= ddx < dx && !(ddx == 0 && dy == 0) && 0 <= x + ddx < 15 && 0 <= y + dy < 15
                        ==> (#[trigger] board@[gidx(y + dy, x + ddx)]) is None,
            decreases 3 - dx,
        {
            if !(dx == 0 && dy == 0) {
                let nx = ix + dx;
                let ny = iy + dy;
                if 0 <= nx && nx < 15 && 0 <= ny && ny < 15 && board[(ny * 15 + nx) as usize].is_some() {
                    assert(board@[gidx(y + dy, x + dx)] is Some);
                    return true;
                }
            }
            dx = dx + 1;
        }
        dy = dy + 1;
    }
    false
}

/// Candidate moves for the search; see `relevant_moves`.
fn get_relevant_moves(board: &[Option<Player>; 225]) -> (r: Vec<usize>)
    ensures
        r@ == relevant_moves(board@),
{
    let mut moves: Vec<usize> = Vec::new();
    let mut is_empty = true;
    let mut y: usize = 0;
    while y < 15
        invariant
            y <= 15,
            moves@ == relevant_rows(board@, y as int),
            is_empty == (forall|i: int| 0 <= i < 15 * y ==> (#[trigger] board@[i]) is None),
        decreases 15 - y,
    {
        let mut x: usize = 0;
        while x < 15
            invariant
                y < 15,
                x <= 15,
                moves@ == relevant_rows(board@, y as int) + relevant_row(board@, y as int, x as int),
                is_empty == (forall|i: int| 0 <= i < 15 * y + x ==> (#[trigger] board@[i]) is None),
            decreases 15 - x,
        {
            let i = y * 15 + x;
            if board[i].is_some() {
                is_empty = false;
            } else if has_neighbor_exec(board, y, x) {
                moves.push(i);
            }
            proof {
                assert(relevant_rows(board@, y as int) + relevant_row(board@, y as int, x + 1)
                    =~= if relevant(board@, y as int, x as int) {
                        (relevant_rows(board@, y as int) + relevant_row(board@, y as int, x as int)).push(i)
                    } else {
                        relevant_rows(board@, y as int) + relevant_row(board@, y as int, x as int)
                    });
            }
            x = x + 1;
        }
        proof {
            assert(relevant_rows(board@, y + 1) =~= relevant_rows(board@, y as int) + relevant_row(board@, y as int, 15));
        }
        y = y + 1;
    }
    if is_empty {
        let mut v: Vec<usize> = Vec::new();
        v.push(112);
        proof {
            assert(v@ =~= seq![112usize]);
        }
        v
    } else {
        moves
    }
}

/// Every candidate move is an empty cell of the board.
pub proof fn lemma_relevant_moves_empty_cells(b: Seq<Option<Player>>)
    requires
        b.len() == 225,
    ensures
        forall|k: int| 0 <= k < relevant_moves(b).len() ==>
            (#[trigger] relevant_moves(b)[k]) < 225 && b[relevant_moves(b)[k] as int] is None,
{
    if !any_stone(b) {
        assert(b[112] is None);
    } else {
        lemma_relevant_rows_cells(b, 15);
    }
}

proof fn lemma_relevant_row_cells(b: Seq<Option<Player>>, y: int, x: int)
    requires
        0 <= y < 15,
        0 <= x <= 15,
    ensures
        forall|k: int| 0 <= k < relevant_row(b, y, x).len() ==>
            (#[trigger] relevant_row(b, y, x)[k]) < 225 && b[relevant_row(b, y, x)[k] as int] is None,
    decreases x,
{
    if x > 0 {
        lemma_relevant_row_cells(b, y, x - 1);
    }
}

proof fn lemma_relevant_rows_cells(b: Seq<Option<Player>>, y: int)
    requires
        0 <= y <= 15,
    ensures
        forall|k: int| 0 <= k < relevant_rows(b, y).len() ==>
            (#[trigger] relevant_rows(b, y)[k]) < 225 && b[relevant_rows(b, y)[k] as int] is None,
    decreases y,
{
    if y > 0 {
        lemma_relevant_rows_cells(b, y - 1);
        lemma_relevant_row_cells(b, y - 1, 15);
        let a = relevant_rows(b, y - 1);
        let c = relevant_row(b, y - 1, 15);
        assert forall|k: int| 0 <= k < relevant_rows(b, y).len() implies
            (#[trigger] relevant_rows(b, y)[k]) < 225 && b[relevant_rows(b, y)[k] as int] is None by {
            if k < a.len() {
                assert(relevant_rows(b, y)[k] == a[k]);
            } else {
                assert(relevant_rows(b, y)[k] == c[k - a.len()]);
            }
        }
    }
}

/// The stone played by the side to move: the computer (O) maximises.
pub open spec fn gomoku_mark(is_maximizing: bool) -> Player {
    if is_maximizing { Player::O } else { Player::X }
}

/// Value of the depth-limited alpha-beta search of a gomoku position:
/// +10000000 when O has five in a row, -10000000 when X has, the heuristic
/// evaluation at depth 0 or on a full board, otherwise the search over the
/// candidate moves.
pub open spec fn gomoku_search(b: Seq<Option<Player>>, depth: int, alpha: int, beta: int, is_maximizing: bool) -> int
    decreases depth, 1int, 0int,
{
    if gomoku_won(b, Player::O) {
        10000000
    } else if gomoku_won(b, Player::X) {
        -10000000
    } else if depth <= 0 || board_full(b) {
        gomoku_eval(b)
    } else {
        gomoku_search_loop(b, depth, relevant_moves(b), 0, alpha, beta, is_maximizing,
            if is_maximizing { i32::MIN as int } else { i32::MAX as int })
    }
}

/// The alpha-beta loop over `moves[k..]`, with running best `best`; it
/// stops as soon as `beta <= alpha`.
pub open spec fn gomoku_search_loop(
    b: Seq<Option<Player>>,
    depth: int,
    moves: Seq<usize>,
    k: int,
    alpha: int,
    beta: int,
    is_maximizing: bool,
    best: int,
) -> int
    decreases depth, 0int, moves.len() - k,
{
    if depth <= 0 || k < 0 || k >= moves.len() {
        best
    } else {
        let m = moves[k] as int;
        let e = gomoku_search(b.update(m, Some(gomoku_mark(is_maximizing))), depth - 1, alpha, beta, !is_maximizing);
        if is_maximizing {
            let nbest = if e > best { e } else { best };
            let nalpha = if e > alpha { e } else { alpha };
            if beta <= nalpha {
                nbest
            } else {
                gomoku_search_loop(b, depth, moves, k + 1, nalpha, beta, is_maximizing, nbest)
            }
        } else {
            let nbest = if e < best { e } else { best };
            let nbeta = if e < beta { e } else { beta };
            if nbeta <= alpha {
                nbest
            } else {
                gomoku_search_loop(b, depth, moves, k + 1, alpha, nbeta, is_maximizing, nbest)
            }
        }
    }
}

fn minimax_gomoku(board: &mut [Option<Player>; 225], depth: i32, alpha: i32, beta: i32, is_maximizing: bool) -> (r: i32)
    requires
        depth >= 0,
    ensures
        final(board)@ == old(board)@,
        r == gomoku_search(old(board)@, depth as int, alpha as int, beta as int, is_maximizing),
    decreases depth,
{
    let ghost b0 = board@;
    if check_gomoku_win(board, Player::O) {
        return 10000000;
    }
    if check_gomoku_win(board, Player::X) {
        return -10000000;
    }
    if depth == 0 || is_board_full(board) {
        return evaluate_board(board);
    }
    let moves = get_relevant_moves(board);
    proof {
        lemma_relevant_moves_empty_cells(b0);
    }
    let ghost alpha0 = alpha as int;
    let ghost beta0 = beta as int;
    let mut lo = alpha;
    let mut hi = beta;
    let mark = if is_maximizing { Player::O } else { Player::X };
    let mut best: i32 = if is_maximizing { i32::MIN } else { i32::MAX };
    let mut k: usize = 0;
    while k < moves.len()
        invariant
            depth > 0,
            board@ == b0,
            b0 == old(board)@,
            b0.len() == 225,
            moves@ == relevant_moves(b0),
            forall|j: int| 0 <= j < moves@.len() ==> (#[trigger] moves@[j]) < 225 && b0[moves@[j] as int] is None,
            k <= moves.len(),
            mark == gomoku_mark(is_maximizing),
            alpha0 == alpha as int,
            beta0 == beta as int,
            gomoku_search(b0, depth as int, alpha0, beta0, is_maximizing)
                == gomoku_search_loop(b0, depth as int, moves@, k as int, lo as int, hi as int, is_maximizing, best as int),
        decreases moves.len() - k,
    {
        let m = moves[k];
        let ghost lo0 = lo as int;
        let ghost hi0 = hi as int;
        let ghost best0 = best as int;
        board[m] = Some(mark);
        let eval = minimax_gomoku(board, depth - 1, lo, hi, !is_maximizing);
        board[m] = None;
        assert(board@ =~= b0);
        assert(eval == gomoku_search(b0.update(m as int, Some(gomoku_mark(is_maximizing))), depth - 1, lo0, hi0, !is_maximizing));
        if is_maximizing {
            if eval > best {
                best = eval;
            }
            if eval > lo {
                lo = eval;
            }
            if hi <= lo {
                assert(gomoku_search_loop(b0, depth as int, moves@, k as int, lo0, hi0, is_maximizing, best0) == best);
                return best;
            }
        } else {
            if eval < best {
                best = eval;
            }
            if eval < hi {
                hi = eval;
            }
            if hi <= lo {
                return best;
            }
        }
        k = k + 1;
    }
    best
}

/// Scan of the root moves for O: the first candidate with the strictly
/// highest search value wins.
pub open spec fn gomoku_best_scan(
    b: Seq<Option<Player>>,
    moves: Seq<usize>,
    k: int,
    best_score: int,
    best_move: Option<usize>,
) -> Option<usize>
    decreases moves.len() - k,
{
    if k < 0 || k >= moves.len() {
        best_move
    } else {
        let m = moves[k];
        let score = gomoku_search(b.update(m as int, Some(Player::O)), 2, i32::MIN as int, i32::MAX as int, false);
        if score > best_score {
            gomoku_best_scan(b, moves, k + 1, score, Some(m))
        } else {
            gomoku_best_scan(b, moves, k + 1, best_score, best_move)
        }
    }
}

/// The computer's (O's) reply in gomoku: a three-ply alpha-beta search over
/// the candidate moves.
pub open spec fn best_gomoku_move(b: Seq<Option<Player>>) -> Option<usize> {
    gomoku_best_scan(b, relevant_moves(b), 0, i32::MIN as int, None)
}

/// Best move for O by a depth-3 alpha-beta search; `None` when there is no
/// candidate move.
pub fn get_best_gomoku_move(board: &[Option<Player>; 225]) -> (r: Option<usize>)
    ensures
        r == best_gomoku_move(board@),
{
    let mut cloned_board = *board;
    let moves = get_relevant_moves(&cloned_board);
    let ghost b0 = board@;
    proof {
        lemma_relevant_moves_empty_cells(b0);
    }
    let mut best_score = i32::MIN;
    let mut best_move: Option<usize> = None;
    let depth: i32 = 3;
    let mut k: usize = 0;
    while k < moves.len()
        invariant
            cloned_board@ == b0,
            b0.len() == 225,
            depth == 3,
            moves@ == relevant_moves(b0),
            forall|j: int| 0 <= j < moves@.len() ==> (#[trigger] moves@[j]) < 225 && b0[moves@[j] as int] is None,
            k <= moves.len(),
            best_gomoku_move(b0) == gomoku_best_scan(b0, moves@, k as int, best_score as int, best_move),
        decreases moves.len() - k,
    {
        let m = moves[k];
        cloned_board[m] = Some(Player::O);
        let score = minimax_gomoku(&mut cloned_board, depth - 1, i32::MIN, i32::MAX, false);
        cloned_board[m] = None;
        assert(cloned_board@ =~= b0);
        if score > best_score {
            best_score = score;
            best_move = Some(m);
        }
        k = k + 1;
    }
    best_move
}

proof fn lemma_best_scan_member(b: Seq<Option<Player>>, moves: Seq<usize>, k: int, best_score: int, best_move: Option<usize>)
    requires
        0 <= k,
        best_move matches Some(m) ==> moves.contains(m),
    ensures
        gomoku_best_scan(b, moves, k, best_score, best_move) matches Some(m) ==> moves.contains(m),
        moves.len() == 0 ==> gomoku_best_scan(b, moves, k, best_score, best_move) == best_move,
    decreases moves.len() - k,
{
    if k < moves.len() {
        let m = moves[k];
        assert(moves.contains(m));
        let score = gomoku_search(b.update(m as int, Some(Player::O)), 2, i32::MIN as int, i32::MAX as int, false);
        if score > best_score {
            lemma_best_scan_member(b, moves, k + 1, score, Some(m));
        } else {
            lemma_best_scan_member(b, moves, k + 1, best_score, best_move);
        }
    }
}

/// The computer only plays on empty cells, and plays nothing when there is
/// no candidate move.
pub proof fn lemma_best_gomoku_move_is_empty_cell(b: Seq<Option<Player>>)
    requires
        b.len() == 225,
    ensures
        best_gomoku_move(b) matches Some(m) ==> m < 225 && b[m as int] is None,
        relevant_moves(b).len() == 0 ==> best_gomoku_move(b) is None,
{
    lemma_best_scan_member(b, relevant_moves(b), 0, i32::MIN as int, None);
    lemma_relevant_moves_empty_cells(b);
    if best_gomoku_move(b) is Some {
        let m = best_gomoku_move(b)->0;
        let k = choose|k: int| 0 <= k < relevant_moves(b).len() && relevant_moves(b)[k] == m;
        assert(relevant_moves(b)[k] < 225);
    }
}

// ---------------------------------------------------------------------------
// The computer answers whenever a cell is free

proof fn lemma_row_windows_bounds(b: Seq<Option<Player>>, y: int, x: int)
    requires
        0 <= y < 15,
        0 <= x <= 15,
        !gomoku_won(b, Player::O),
        !gomoku_won(b, Player::X),
    ensures
        -4000000 * x <= row_windows(b, y, x) <= 400000 * x,
    decreases x,
{
    if x > 0 {
        lemma_row_windows_bounds(b, y, x - 1);
        let c = x - 1;
        assert(!win_at(b, Player::O, y, c));
        assert(!win_at(b, Player::X, y, c));
        if c <= 10 {
            lemma_window_score_bounds(b, y, c, 1);
        }
        if y <= 10 {
            lemma_window_score_bounds(b, y, c, 15);
        }
        if c <= 10 && y <= 10 {
            lemma_window_score_bounds(b, y, c, 16);
        }
        if c >= 4 && y <= 10 {
            lemma_window_score_bounds(b, y, c, 14);
        }
    }
}

proof fn lemma_rows_windows_bounds(b: Seq<Option<Player>>, y: int)
    requires
        0 <= y <= 15,
        !gomoku_won(b, Player::O),
        !gomoku_won(b, Player::X),
    ensures
        -60000000 * y <= rows_windows(b, y) <= 6000000 * y,
    decreases y,
{
    if y > 0 {
        lemma_rows_windows_bounds(b, y - 1);
        lemma_row_windows_bounds(b, y - 1, 15);
    }
}

/// An empty cell and a stone on the board: some empty cell lies within two
/// steps of a stone.
proof fn lemma_relevant_cell_exists(b: Seq<Option<Player>>, ys: int, xs: int, ye: int, xe: int)
    requires
        0 <= ys < 15 && 0 <= xs < 15,
        0 <= ye < 15 && 0 <= xe < 15,
        b[gidx(ys, xs)] is Some,
        b[gidx(ye, xe)] is None,
    ensures
        exists|y: int, x: int| 0 <= y < 15 && 0 <= x < 15 && #[trigger] relevant(b, y, x),
    decreases (if ys >= ye { ys - ye } else { ye - ys }) + (if xs >= xe { xs - xe } else { xe - xs }),
{
    let dy = ys - ye;
    let dx = xs - xe;
    if -2 <= dy <= 2 && -2 <= dx <= 2 {
        assert(b[gidx(ye + dy, xe + dx)] is Some);
        assert(has_neighbor(b, ye, xe));
        assert(relevant(b, ye, xe));
    } else {
        let sy = if dy > 0 { 1int } else if dy < 0 { -1int } else { 0int };
        let sx = if dx > 0 { 1int } else if dx < 0 { -1int } else { 0int };
        let y1 = ye + sy;
        let x1 = xe + sx;
        if b[gidx(y1, x1)] is Some {
            assert(b[gidx(ye + sy, xe + sx)] is Some);
            assert(has_neighbor(b, ye, xe));
            assert(relevant(b, ye, xe));
        } else {
            lemma_relevant_cell_exists(b, ys, xs, y1, x1);
        }
    }
}

proof fn lemma_relevant_row_len(b: Seq<Option<Player>>, y: int, x: int, x0: int)
    requires
        0 <= x0 < x <= 15,
        relevant(b, y, x0),
    ensures
        relevant_row(b, y, x).len() > 0,
    decreases x,
{
    if x - 1 != x0 {
        lemma_relevant_row_len(b, y, x - 1, x0);
    }
}

proof fn lemma_relevant_rows_len(b: Seq<Option<Player>>, y: int, y0: int, x0: int)
    requires
        0 <= y0 < y <= 15,
        0 <= x0 < 15,
        relevant(b, y0, x0),
    ensures
        relevant_rows(b, y).len() > 0,
    decreases y,
{
    if y - 1 == y0 {
        lemma_relevant_row_len(b, y0, 15, x0);
    } else {
        lemma_relevant_rows_len(b, y - 1, y0, x0);
    }
}

proof fn lemma_full_row_irrelevant(b: Seq<Option<Player>>, y: int, x: int)
    requires
        b.len() == 225,
        0 <= y < 15,
        0 <= x <= 15,
        board_full(b),
    ensures
        relevant_row(b, y, x).len() == 0,
    decreases x,
{
    if x > 0 {
        lemma_full_row_irrelevant(b, y, x - 1);
        assert(b[gidx(y, x - 1)] is Some);
    }
}

proof fn lemma_full_rows_irrelevant(b: Seq<Option<Player>>, y: int)
    requires
        b.len() == 225,
        0 <= y <= 15,
        board_full(b),
    ensures
        relevant_rows(b, y).len() == 0,
    decreases y,
{
    if y > 0 {
        lemma_full_rows_irrelevant(b, y - 1);
        lemma_full_row_irrelevant(b, y - 1, 15);
    }
}

/// There is a candidate move exactly when some cell is free.
pub proof fn lemma_relevant_moves_nonempty(b: Seq<Option<Player>>)
    requires
        b.len() == 225,
    ensures
        relevant_moves(b).len() > 0 <==> !board_full(b),
{
    if !any_stone(b) {
        assert(b[112] is None);
    } else if board_full(b) {
        lemma_full_rows_irrelevant(b, 15);
    } else {
        let i = choose|i: int| 0 <= i < 225 && (#[trigger] b[i]) is Some;
        let j = choose|j: int| 0 <= j < b.len() && !((#[trigger] b[j]) is Some);
        assert(gidx(i / 15, i % 15) == i);
        assert(gidx(j / 15, j % 15) == j);
        lemma_relevant_cell_exists(b, i / 15, i % 15, j / 15, j % 15);
        let (y0, x0) = choose|y: int, x: int| 0 <= y < 15 && 0 <= x < 15 && #[trigger] relevant(b, y, x);
        lemma_relevant_rows_len(b, 15, y0, x0);
    }
}

pub open spec fn gomoku_in_range(v: int) -> bool {
    -900000000 <= v <= 900000000
}

proof fn lemma_gomoku_search_bounds(b: Seq<Option<Player>>, depth: int, alpha: int, beta: int, is_maximizing: bool)
    requires
        b.len() == 225,
        depth <= 3,
    ensures
        gomoku_in_range(gomoku_search(b, depth, alpha, beta, is_maximizing)),
    decreases depth, 1int, 0int,
{
    if gomoku_won(b, Player::O) || gomoku_won(b, Player::X) {
    } else if depth <= 0 || board_full(b) {
        lemma_rows_windows_bounds(b, 15);
    } else {
        lemma_relevant_moves_nonempty(b);
        lemma_relevant_moves_empty_cells(b);
        lemma_gomoku_loop_bounds(b, depth, relevant_moves(b), 0, alpha, beta, is_maximizing,
            if is_maximizing { i32::MIN as int } else { i32::MAX as int });
    }
}

proof fn lemma_gomoku_loop_bounds(
    b: Seq<Option<Player>>,
    depth: int,
    moves: Seq<usize>,
    k: int,
    alpha: int,
    beta: int,
    is_maximizing: bool,
    best: int,
)
    requires
        b.len() == 225,
        1 <= depth <= 3,
        0 <= k,
        forall|j: int| 0 <= j < moves.len() ==> (#[trigger] moves[j]) < 225,
        gomoku_in_range(best) || best == (if is_maximizing { i32::MIN as int } else { i32::MAX as int }),
    ensures
        (k < moves.len() || gomoku_in_range(best)) ==> gomoku_in_range(
            gomoku_search_loop(b, depth, moves, k, alpha, beta, is_maximizing, best),
        ),
    decreases depth, 0int, moves.len() - k,
{
    if k < moves.len() {
        let m = moves[k] as int;
        let child = b.update(m, Some(gomoku_mark(is_maximizing)));
        lemma_gomoku_search_bounds(child, depth - 1, alpha, beta, !is_maximizing);
        let e = gomoku_search(child, depth - 1, alpha, beta, !is_maximizing);
        if is_maximizing {
            let nbest = if e > best { e } else { best };
            let nalpha = if e > alpha { e } else { alpha };
            lemma_gomoku_loop_bounds(b, depth, moves, k + 1, nalpha, beta, is_maximizing, nbest);
        } else {
            let nbest = if e < best { e } else { best };
            let nbeta = if e < beta { e } else { beta };
            lemma_gomoku_loop_bounds(b, depth, moves, k + 1, alpha, nbeta, is_maximizing, nbest);
        }
    }
}

proof fn lemma_gomoku_scan_some(b: Seq<Option<Player>>, moves: Seq<usize>, k: int, best_score: int, best_move: Option<usize>)
    requires
        b.len() == 225,
        0 <= k,
        forall|j: int| 0 <= j < moves.len() ==> (#[trigger] moves[j]) < 225,
        best_move is Some || (k < moves.len() && best_score == i32::MIN as int),
    ensures
        gomoku_best_scan(b, moves, k, best_score, best_move) is Some,
    decreases moves.len() - k,
{
    if k < moves.len() {
        let m = moves[k];
        let child = b.update(m as int, Some(Player::O));
        lemma_gomoku_search_bounds(child, 2, i32::MIN as int, i32::MAX as int, false);
        let score = gomoku_search(child, 2, i32::MIN as int, i32::MAX as int, false);
        if score > best_score {
            lemma_gomoku_scan_some(b, moves, k + 1, score, Some(m));
        } else {
            lemma_gomoku_scan_some(b, moves, k + 1, best_score, best_move);
        }
    }
}

/// The computer answers exactly when some cell of the board is free.
pub proof fn lemma_best_gomoku_move_some(b: Seq<Option<Player>>)
    requires
        b.len() == 225,
    ensures
        best_gomoku_move(b) is Some <==> !board_full(b),
{
    lemma_relevant_moves_nonempty(b);
    lemma_relevant_moves_empty_cells(b);
    if !board_full(b) {
        lemma_gomoku_scan_some(b, relevant_moves(b), 0, i32::MIN as int, None);
    }
}

/// Search value for O of playing on cell `m`, X to answer.
pub open spec fn gomoku_move_value(b: Seq<Option<Player>>, m: usize) -> int {
    gomoku_search(b.update(m as int, Some(Player::O)), 2, i32::MIN as int, i32::MAX as int, false)
}

proof fn lemma_gomoku_scan_best(b: Seq<Option<Player>>, moves: Seq<usize>, k: int, best_score: int, best_move: Option<usize>)
    requires
        0 <= k <= moves.len(),
        forall|j: int| 0 <= j < k ==> #[trigger] gomoku_move_value(b, moves[j]) <= best_score,
        best_move matches Some(m) ==> exists|p: int| {
            &&& 0 <= p < k && #[trigger] moves[p] == m
            &&& gomoku_move_value(b, m) == best_score
            &&& forall|j: int| 0 <= j < p ==> #[trigger] gomoku_move_value(b, moves[j]) < best_score
        },
    ensures
        gomoku_best_scan(b, moves, k, best_score, best_move) matches Some(m) ==> exists|p: int| {
            &&& 0 <= p < moves.len() && #[trigger] moves[p] == m
            &&& forall|j: int| 0 <= j < moves.len() ==> #[trigger] gomoku_move_value(b, moves[j]) <= gomoku_move_value(b, m)
            &&& forall|j: int| 0 <= j < p ==> #[trigger] gomoku_move_value(b, moves[j]) < gomoku_move_value(b, m)
        },
    decreases moves.len() - k,
{
    if k < moves.len() {
        let m = moves[k];
        let score = gomoku_move_value(b, m);
        if score > best_score {
            assert(moves[k] == m);
            lemma_gomoku_scan_best(b, moves, k + 1, score, Some(m));
        } else {
            lemma_gomoku_scan_best(b, moves, k + 1, best_score, best_move);
        }
    }
}

/// The computer's gomoku answer has the highest search value among the
/// candidate moves, and is the first such candidate (candidates come in
/// cell order).
pub proof fn lemma_best_gomoku_move_is_best(b: Seq<Option<Player>>)
    ensures
        best_gomoku_move(b) matches Some(m) ==> exists|p: int| {
            &&& 0 <= p < relevant_moves(b).len() && #[trigger] relevant_moves(b)[p] == m
            &&& forall|j: int| 0 <= j < relevant_moves(b).len() ==> #[trigger] gomoku_move_value(b, relevant_moves(b)[j])
                <= gomoku_move_value(b, m)
            &&& forall|j: int| 0 <= j < p ==> #[trigger] gomoku_move_value(b, relevant_moves(b)[j]) < gomoku_move_value(b, m)
        },
{
    lemma_gomoku_scan_best(b, relevant_moves(b), 0, i32::MIN as int, None);
}

// ---------------------------------------------------------------------------
// Alpha-beta gives the minimax value

/// Plain minimax value of a gomoku position to `depth`, without cut-offs:
/// the win values, the heuristic evaluation at depth 0 or on a full board,
/// otherwise the best child value over the candidate moves (highest when O
/// moves, lowest when X moves).
pub open spec fn gomoku_minimax(b: Seq<Option<Player>>, depth: int, is_maximizing: bool) -> int
    decreases depth, 1int, 0int,
{
    if gomoku_won(b, Player::O) {
        10000000
    } else if gomoku_won(b, Player::X) {
        -10000000
    } else if depth <= 0 || board_full(b) {
        gomoku_eval(b)
    } else {
        gomoku_minimax_fold(b, depth, relevant_moves(b), 0, is_maximizing,
            if is_maximizing { i32::MIN as int } else { i32::MAX as int })
    }
}

/// Best of `w` and the child values of `moves[k..]`.
pub open spec fn gomoku_minimax_fold(b: Seq<Option<Player>>, depth: int, moves: Seq<usize>, k: int, is_maximizing: bool, w: int) -> int
    decreases depth, 0int, moves.len() - k,
{
    if depth <= 0 || k < 0 || k >= moves.len() {
        w
    } else {
        let e = gomoku_minimax(b.update(moves[k] as int, Some(gomoku_mark(is_maximizing))), depth - 1, !is_maximizing);
        gomoku_minimax_fold(b, depth, moves, k + 1, is_maximizing,
            if is_maximizing { if e > w { e } else { w } } else { if e < w { e } else { w } })
    }
}

/// `s` is what a fail-soft alpha-beta search may return for minimax value
/// `v` in the window (`alpha`, `beta`): `v` itself inside the window, a
/// value between `v` and the bound outside it.
pub open spec fn gomoku_window_ok(s: int, v: int, alpha: int, beta: int) -> bool {
    &&& alpha < v < beta ==> s == v
    &&& v <= alpha ==> v <= s <= alpha
    &&& v >= beta ==> beta <= s <= v
}

proof fn lemma_gomoku_fold_extreme(b: Seq<Option<Player>>, depth: int, moves: Seq<usize>, k: int, is_maximizing: bool, w: int)
    requires
        depth >= 1,
        0 <= k <= moves.len(),
    ensures
        is_maximizing ==> gomoku_minimax_fold(b, depth, moves, k, is_maximizing, w) >= w,
        !is_maximizing ==> gomoku_minimax_fold(b, depth, moves, k, is_maximizing, w) <= w,
    decreases moves.len() - k,
{
    if k < moves.len() {
        let e = gomoku_minimax(b.update(moves[k] as int, Some(gomoku_mark(is_maximizing))), depth - 1, !is_maximizing);
        let w2 = if is_maximizing { if e > w { e } else { w } } else { if e < w { e } else { w } };
        lemma_gomoku_fold_extreme(b, depth, moves, k + 1, is_maximizing, w2);
    }
}

/// Alpha-beta with window (`alpha`, `beta`) returns the minimax value when
/// it lies inside the window, and a bound on it otherwise.
pub proof fn lemma_gomoku_search_window(b: Seq<Option<Player>>, depth: int, alpha: int, beta: int, is_maximizing: bool)
    requires
        i32::MIN <= alpha < beta <= i32::MAX,
    ensures
        gomoku_window_ok(gomoku_search(b, depth, alpha, beta, is_maximizing), gomoku_minimax(b, depth, is_maximizing),
            alpha, beta),
    decreases depth, 1int, 0int,
{
    if !gomoku_won(b, Player::O) && !gomoku_won(b, Player::X) && !(depth <= 0 || board_full(b)) {
        let init = if is_maximizing { i32::MIN as int } else { i32::MAX as int };
        lemma_gomoku_loop_window(b, depth, relevant_moves(b), 0, alpha, beta, is_maximizing, init, alpha, beta, init);
    }
}

proof fn lemma_gomoku_loop_window(
    b: Seq<Option<Player>>,
    depth: int,
    moves: Seq<usize>,
    k: int,
    alpha: int,
    beta: int,
    is_maximizing: bool,
    best: int,
    alpha0: int,
    beta0: int,
    w: int,
)
    requires
        depth >= 1,
        0 <= k <= moves.len(),
        i32::MIN <= alpha0 < beta0 <= i32::MAX,
        is_maximizing ==> {
            &&& beta == beta0
            &&& w < beta0
            &&& w > alpha0 ==> best == w && alpha == w
            &&& w <= alpha0 ==> w <= best <= alpha0 && alpha == alpha0
        },
        !is_maximizing ==> {
            &&& alpha == alpha0
            &&& w > alpha0
            &&& w < beta0 ==> best == w && beta == w
            &&& w >= beta0 ==> beta0 <= best <= w && beta == beta0
        },
    ensures
        gomoku_window_ok(gomoku_search_loop(b, depth, moves, k, alpha, beta, is_maximizing, best),
            gomoku_minimax_fold(b, depth, moves, k, is_maximizing, w), alpha0, beta0),
    decreases depth, 0int, moves.len() - k,
{
    if k < moves.len() {
        let cb = b.update(moves[k] as int, Some(gomoku_mark(is_maximizing)));
        lemma_gomoku_search_window(cb, depth - 1, alpha, beta, !is_maximizing);
        let e = gomoku_search(cb, depth - 1, alpha, beta, !is_maximizing);
        let v = gomoku_minimax(cb, depth - 1, !is_maximizing);
        if is_maximizing {
            let nbest = if e > best { e } else { best };
            let nalpha = if e > alpha { e } else { alpha };
            let w2 = if v > w { v } else { w };
            lemma_gomoku_fold_extreme(b, depth, moves, k + 1, is_maximizing, w2);
            if beta > nalpha {
                lemma_gomoku_loop_window(b, depth, moves, k + 1, nalpha, beta, is_maximizing, nbest, alpha0, beta0, w2);
            }
        } else {
            let nbest = if e < best { e } else { best };
            let nbeta = if e < beta { e } else { beta };
            let w2 = if v < w { v } else { w };
            lemma_gomoku_fold_extreme(b, depth, moves, k + 1, is_maximizing, w2);
            if nbeta > alpha {
                lemma_gomoku_loop_window(b, depth, moves, k + 1, alpha, nbeta, is_maximizing, nbest, alpha0, beta0, w2);
            }
        }
    }
}

/// With the full window, the gomoku alpha-beta search gives exactly the
/// minimax value; in particular the computer ranks a cell by the plain
/// minimax value of the board with its stone there, two plies deep.
pub proof fn lemma_gomoku_search_is_minimax(b: Seq<Option<Player>>, depth: int, is_maximizing: bool)
    requires
        b.len() == 225,
        depth <= 3,
    ensures
        gomoku_search(b, depth, i32::MIN as int, i32::MAX as int, is_maximizing) == gomoku_minimax(b, depth,
            is_maximizing),
{
    lemma_gomoku_search_window(b, depth, i32::MIN as int, i32::MAX as int, is_maximizing);
    lemma_gomoku_search_bounds(b, depth, i32::MIN as int, i32::MAX as int, is_maximizing);
}

/// The value by which the computer ranks a gomoku cell is the plain minimax
/// value of the board with its stone there, X to answer, two plies deep.
pub proof fn lemma_gomoku_move_value_is_minimax(b: Seq<Option<Player>>, m: usize)
    requires
        b.len() == 225,
        m < 225,
    ensures
        gomoku_move_value(b, m) == gomoku_minimax(b.update(m as int, Some(Player::O)), 2, false),
{
    lemma_gomoku_search_is_minimax(b.update(m as int, Some(Player::O)), 2, false);
}

// ---------------------------------------------------------------------------
// The evaluation does not depend on left and right

/// The board mirrored left to right.
pub open spec fn mirror_lr(b: Seq<Option<Player>>) -> Seq<Option<Player>> {
    Seq::new(225, |i: int| b[gidx(i / 15, 14 - i % 15)])
}

proof fn lemma_mirror_cell(b: Seq<Option<Player>>, y: int, x: int)
    requires
        0 <= y < 15,
        0 <= x < 15,
    ensures
        mirror_lr(b)[gidx(y, x)] == b[gidx(y, 14 - x)],
{
    let i = gidx(y, x);
    assert(i / 15 == y && i % 15 == x);
}

proof fn lemma_mirror_window(b: Seq<Option<Player>>, y: int, x: int, step: int, y2: int, x2: int, step2: int)
    requires
        0 <= y < 15,
        0 <= x < 15,
        (step == 1 && x <= 10 && y2 == y && x2 == 10 - x && step2 == 1)
            || (step == 15 && y <= 10 && y2 == y && x2 == 14 - x && step2 == 15)
            || (step == 16 && x <= 10 && y <= 10 && y2 == y && x2 == 14 - x && step2 == 14)
            || (step == 14 && x >= 4 && y <= 10 && y2 == y && x2 == 14 - x && step2 == 16),
    ensures
        window_score(mirror_lr(b), gidx(y, x), step) == window_score(b, gidx(y2, x2), step2),
{
    let m = mirror_lr(b);
    let dy = if step == 1 { 0int } else { 1int };
    let dx = if step == 15 { 0int } else if step == 14 { -1int } else { 1int };
    lemma_mirror_cell(b, y, x);
    lemma_mirror_cell(b, y + dy, x + dx);
    lemma_mirror_cell(b, y + 2 * dy, x + 2 * dx);
    lemma_mirror_cell(b, y + 3 * dy, x + 3 * dx);
    lemma_mirror_cell(b, y + 4 * dy, x + 4 * dx);
    assert(gidx(y, x) + step == gidx(y + dy, x + dx));
    assert(gidx(y, x) + 2 * step == gidx(y + 2 * dy, x + 2 * dx));
    assert(gidx(y, x) + 3 * step == gidx(y + 3 * dy, x + 3 * dx));
    assert(gidx(y, x) + 4 * step == gidx(y + 4 * dy, x + 4 * dx));
    if step == 1 {
        assert(gidx(y2, x2) + 4 == gidx(y, 14 - x));
    }
}

proof fn lemma_mirror_cell_windows(b: Seq<Option<Player>>, y: int, x: int)
    requires
        0 <= y < 15,
        0 <= x < 15,
    ensures
        (x <= 10 ==> window_score(mirror_lr(b), gidx(y, x), 1) == window_score(b, gidx(y, 10 - x), 1)),
        (y <= 10 ==> window_score(mirror_lr(b), gidx(y, x), 15) == window_score(b, gidx(y, 14 - x), 15)),
        (x <= 10 && y <= 10 ==> window_score(mirror_lr(b), gidx(y, x), 16) == window_score(b, gidx(y, 14 - x), 14)),
        (x >= 4 && y <= 10 ==> window_score(mirror_lr(b), gidx(y, x), 14) == window_score(b, gidx(y, 14 - x), 16)),
{
    if x <= 10 {
        lemma_mirror_window(b, y, x, 1, y, 10 - x, 1);
    }
    if y <= 10 {
        lemma_mirror_window(b, y, x, 15, y, 14 - x, 15);
    }
    if x <= 10 && y <= 10 {
        lemma_mirror_window(b, y, x, 16, y, 14 - x, 14);
    }
    if x >= 4 && y <= 10 {
        lemma_mirror_window(b, y, x, 14, y, 14 - x, 16);
    }
}

#[verifier::rlimit(60)]
proof fn lemma_mirror_row(b: Seq<Option<Player>>, y: int)
    requires
        0 <= y < 15,
    ensures
        row_windows(mirror_lr(b), y, 15) == row_windows(b, y, 15),
{
    lemma_mirror_cell_windows(b, y, 0);
    lemma_mirror_cell_windows(b, y, 1);
    lemma_mirror_cell_windows(b, y, 2);
    lemma_mirror_cell_windows(b, y, 3);
    lemma_mirror_cell_windows(b, y, 4);
    lemma_mirror_cell_windows(b, y, 5);
    lemma_mirror_cell_windows(b, y, 6);
    lemma_mirror_cell_windows(b, y, 7);
    lemma_mirror_cell_windows(b, y, 8);
    lemma_mirror_cell_windows(b, y, 9);
    lemma_mirror_cell_windows(b, y, 10);
    lemma_mirror_cell_windows(b, y, 11);
    lemma_mirror_cell_windows(b, y, 12);
    lemma_mirror_cell_windows(b, y, 13);
    lemma_mirror_cell_windows(b, y, 14);
    reveal_with_fuel(row_windows, 16);
}

proof fn lemma_mirror_rows(b: Seq<Option<Player>>, y: int)
    requires
        0 <= y <= 15,
    ensures
        rows_windows(mirror_lr(b), y) == rows_windows(b, y),
    decreases y,
{
    if y > 0 {
        lemma_mirror_rows(b, y - 1);
        lemma_mirror_row(b, y - 1);
    }
}

/// The evaluation sums every window of five in all four directions, so a
/// board and its left-right mirror image evaluate the same (a down-right
/// line and its mirrored down-left line score alike).
pub proof fn lemma_gomoku_eval_mirror(b: Seq<Option<Player>>)
    ensures
        gomoku_eval(mirror_lr(b)) == gomoku_eval(b),
{
    lemma_mirror_rows(b, 15);
}

} // verus!
