use vstd::prelude::*;
use super::{PieceType, XiangqiColor, XiangqiPiece, other_side};

verus! {

#[derive(Copy, Clone, Debug)]
pub struct XiangqiMove {
    pub from: usize,
    pub to: usize,
}

pub open spec fn xmove(from: int, to: int) -> XiangqiMove {
    XiangqiMove { from: from as usize, to: to as usize }
}

// ---------------------------------------------------------------------------
// Board geometry: 10 rows, 9 columns, index = row * 9 + col

pub open spec fn on_xboard(r: int, c: int) -> bool {
    0 <= r < 10 && 0 <= c < 9
}

pub open spec fn xsq(r: int, c: int) -> int {
    r * 9 + c
}

pub open spec fn abs(x: int) -> int {
    if x < 0 { -x } else { x }
}

pub open spec fn min(x: int, y: int) -> int {
    if x <= y { x } else { y }
}

pub open spec fn max(x: int, y: int) -> int {
    if x >= y { x } else { y }
}

/// The nine palace squares of `color`.
pub open spec fn palace(row: int, col: int, color: XiangqiColor) -> bool {
    3 <= col <= 5 && match color {
        XiangqiColor::Red => 7 <= row <= 9,
        XiangqiColor::Black => 0 <= row <= 2,
    }
}

pub open spec fn own_side(row: int, color: XiangqiColor) -> bool {
    match color {
        XiangqiColor::Red => row >= 5,
        XiangqiColor::Black => row <= 4,
    }
}

pub open spec fn crossed(row: int, color: XiangqiColor) -> bool {
    match color {
        XiangqiColor::Red => row <= 4,
        XiangqiColor::Black => row >= 5,
    }
}

pub open spec fn forward(color: XiangqiColor) -> int {
    match color {
        XiangqiColor::Red => -1,
        XiangqiColor::Black => 1,
    }
}

pub open spec fn is_xq(c: Option<XiangqiPiece>, color: XiangqiColor, pt: PieceType) -> bool {
    c == Some(XiangqiPiece { piece_type: pt, color })
}

pub open spec fn free_or_enemy(c: Option<XiangqiPiece>, color: XiangqiColor) -> bool {
    c is None || c->0.color != color
}

fn in_bounds(row: isize, col: isize) -> (b: bool)
    ensures
        b == on_xboard(row as int, col as int),
{
    0 <= row && row < 10 && 0 <= col && col < 9
}

fn idx(row: isize, col: isize) -> (i: usize)
    requires
        on_xboard(row as int, col as int),
    ensures
        i == xsq(row as int, col as int),
        i < 90,
{
    row as usize * 9 + col as usize
}

fn in_palace(row: usize, col: usize, color: XiangqiColor) -> (b: bool)
    ensures
        b == palace(row as int, col as int, color),
{
    3 <= col && col <= 5 && match color {
        XiangqiColor::Red => 7 <= row && row <= 9,
        XiangqiColor::Black => row <= 2,
    }
}

fn on_own_side(row: usize, color: XiangqiColor) -> (b: bool)
    ensures
        b == own_side(row as int, color),
{
    match color {
        XiangqiColor::Red => row >= 5,
        XiangqiColor::Black => row <= 4,
    }
}

fn crossed_river(row: usize, color: XiangqiColor) -> (b: bool)
    ensures
        b == crossed(row as int, color),
{
    match color {
        XiangqiColor::Red => row <= 4,
        XiangqiColor::Black => row >= 5,
    }
}

fn forward_dir(color: XiangqiColor) -> (d: isize)
    ensures
        d == forward(color),
{
    match color {
        XiangqiColor::Red => -1,  // Red moves upward (decreasing row)
        XiangqiColor::Black => 1,  // Black moves downward (increasing row)
    }
}

fn free_or_enemy_exec(c: Option<XiangqiPiece>, color: XiangqiColor) -> (b: bool)
    ensures
        b == free_or_enemy(c, color),
{
    match c {
        Some(p) => p.color != color,
        None => true,
    }
}

fn is_xq_exec(c: Option<XiangqiPiece>, color: XiangqiColor, pt: PieceType) -> (b: bool)
    ensures
        b == is_xq(c, color, pt),
{
    match c {
        Some(p) => p.color == color && p.piece_type == pt,
        None => false,
    }
}

// ---------------------------------------------------------------------------
// Generals

pub open spec fn has_general(b: Seq<Option<XiangqiPiece>>, c: XiangqiColor) -> bool {
    exists|i: int| 0 <= i < 90 && #[trigger] is_xq(b[i], c, PieceType::General)
}

pub open spec fn general_from(b: Seq<Option<XiangqiPiece>>, c: XiangqiColor, i: int) -> int
    decreases 90 - i,
{
    if i < 0 || i >= 90 {
        90
    } else if is_xq(b[i], c, PieceType::General) {
        i
    } else {
        general_from(b, c, i + 1)
    }
}

/// The first square (in index order) holding the general of `c`.
pub open spec fn general_square(b: Seq<Option<XiangqiPiece>>, c: XiangqiColor) -> int {
    general_from(b, c, 0)
}

proof fn lemma_general_from(b: Seq<Option<XiangqiPiece>>, c: XiangqiColor, i: int)
    requires
        0 <= i <= 90,
    ensures
        (exists|j: int| i <= j < 90 && #[trigger] is_xq(b[j], c, PieceType::General)) ==> {
            let k = general_from(b, c, i);
            &&& i <= k < 90
            &&& is_xq(b[k], c, PieceType::General)
        },
    decreases 90 - i,
{
    if i < 90 {
        lemma_general_from(b, c, i + 1);
        if !is_xq(b[i], c, PieceType::General) && (exists|j: int| i <= j < 90 && #[trigger] is_xq(b[j], c, PieceType::General)) {
            let j = choose|j: int| i <= j < 90 && #[trigger] is_xq(b[j], c, PieceType::General);
            assert(i + 1 <= j);
        }
    }
}

pub proof fn lemma_general_square(b: Seq<Option<XiangqiPiece>>, c: XiangqiColor)
    requires
        has_general(b, c),
    ensures
        0 <= general_square(b, c) < 90,
        is_xq(b[general_square(b, c)], c, PieceType::General),
{
    lemma_general_from(b, c, 0);
}

fn find_general(board: &[Option<XiangqiPiece>; 90], color: XiangqiColor) -> (r: usize)
    requires
        has_general(board@, color),
    ensures
        r == general_square(board@, color),
        r < 90,
{
    proof {
        lemma_general_from(board@, color, 0);
    }
    let mut i: usize = 0;
    while i < 90
        invariant
            i <= 90,
            has_general(board@, color),
            general_from(board@, color, 0) == general_from(board@, color, i as int),
            forall|j: int| 0 <= j < i ==> !#[trigger] is_xq(board@[j], color, PieceType::General),
        decreases 90 - i,
    {
        if is_xq_exec(board[i], color, PieceType::General) {
            return i;
        }
        i = i + 1;
    }
    proof {
        let j = choose|j: int| 0 <= j < 90 && #[trigger] is_xq(board@[j], color, PieceType::General);
        assert(!is_xq(board@[j], color, PieceType::General));
    }
    90
}

// ---------------------------------------------------------------------------
// Lines between two squares

pub open spec fn row_clear(b: Seq<Option<XiangqiPiece>>, r: int, lo: int, hi: int) -> bool {
    forall|x: int| lo <= x < hi ==> (#[trigger] b[xsq(r, x)]) is None
}

pub open spec fn col_clear(b: Seq<Option<XiangqiPiece>>, c: int, lo: int, hi: int) -> bool {
    forall|y: int| lo <= y < hi ==> (#[trigger] b[xsq(y, c)]) is None
}

/// Number of pieces on row `r` in columns `lo..hi`.
pub open spec fn row_count(b: Seq<Option<XiangqiPiece>>, r: int, lo: int, hi: int) -> int
    decreases hi - lo,
{
    if hi <= lo { 0 } else { row_count(b, r, lo, hi - 1) + (if b[xsq(r, hi - 1)] is Some { 1int } else { 0 }) }
}

/// Number of pieces on column `c` in rows `lo..hi`.
pub open spec fn col_count(b: Seq<Option<XiangqiPiece>>, c: int, lo: int, hi: int) -> int
    decreases hi - lo,
{
    if hi <= lo { 0 } else { col_count(b, c, lo, hi - 1) + (if b[xsq(hi - 1, c)] is Some { 1int } else { 0 }) }
}

fn row_is_clear(board: &[Option<XiangqiPiece>; 90], r: usize, lo: usize, hi: usize) -> (res: bool)
    requires
        r < 10,
        hi <= 9,
    ensures
        res == row_clear(board@, r as int, lo as int, hi as int),
{
    let mut x = lo;
    while x < hi
        invariant
            lo <= x,
            r < 10,
            hi <= 9,
            forall|xx: int| lo <= xx < x ==> (#[trigger] board@[xsq(r as int, xx)]) is None,
        decreases hi - x,
    {
        if board[r * 9 + x].is_some() {
            assert(board@[xsq(r as int, x as int)] is Some);
            return false;
        }
        x = x + 1;
    }
    true
}

fn col_is_clear(board: &[Option<XiangqiPiece>; 90], c: usize, lo: usize, hi: usize) -> (res: bool)
    requires
        c < 9,
        hi <= 10,
    ensures
        res == col_clear(board@, c as int, lo as int, hi as int),
{
    let mut y = lo;
    while y < hi
        invariant
            lo <= y,
            c < 9,
            hi <= 10,
            forall|yy: int| lo <= yy < y ==> (#[trigger] board@[xsq(yy, c as int)]) is None,
        decreases hi - y,
    {
        if board[y * 9 + c].is_some() {
            assert(board@[xsq(y as int, c as int)] is Some);
            return false;
        }
        y = y + 1;
    }
    true
}

fn count_row(board: &[Option<XiangqiPiece>; 90], r: usize, lo: usize, hi: usize) -> (res: u32)
    requires
        r < 10,
        lo <= hi <= 9,
    ensures
        res == row_count(board@, r as int, lo as int, hi as int),
{
    let mut count: u32 = 0;
    let mut x = lo;
    while x < hi
        invariant
            lo <= x <= hi,
            r < 10,
            hi <= 9,
            count == row_count(board@, r as int, lo as int, x as int),
            count <= x - lo,
        decreases hi - x,
    {
        if board[r * 9 + x].is_some() {
            count += 1;
        }
        x = x + 1;
    }
    count
}

fn count_col(board: &[Option<XiangqiPiece>; 90], c: usize, lo: usize, hi: usize) -> (res: u32)
    requires
        c < 9,
        lo <= hi <= 10,
    ensures
        res == col_count(board@, c as int, lo as int, hi as int),
{
    let mut count: u32 = 0;
    let mut y = lo;
    while y < hi
        invariant
            lo <= y <= hi,
            c < 9,
            hi <= 10,
            count == col_count(board@, c as int, lo as int, y as int),
            count <= y - lo,
        decreases hi - y,
    {
        if board[y * 9 + c].is_some() {
            count += 1;
        }
        y = y + 1;
    }
    count
}

// ---------------------------------------------------------------------------
// Attacks

/// A piece of type `pt` and side `by` on (`pr`, `pc`) attacks (`row`, `col`).
pub open spec fn xq_attacks(b: Seq<Option<XiangqiPiece>>, pr: int, pc: int, pt: PieceType, by: XiangqiColor, row: int, col: int) -> bool {
    let dr = row - pr;
    let dc = col - pc;
    match pt {
        PieceType::General => (abs(dr) == 1 && dc == 0) || (dr == 0 && abs(dc) == 1),
        PieceType::Advisor => abs(dr) == 1 && abs(dc) == 1,
        PieceType::Elephant => abs(dr) == 2 && abs(dc) == 2 && b[xsq(pr + dr / 2, pc + dc / 2)] is None,
        PieceType::Horse => ((abs(dr) == 2 && abs(dc) == 1) || (abs(dr) == 1 && abs(dc) == 2)) && (if abs(dr) == 2 {
            b[xsq(pr + dr / 2, pc)] is None
        } else {
            b[xsq(pr, pc + dc / 2)] is None
        }),
        PieceType::Chariot => if pr == row {
            pc != col && row_clear(b, row, min(col, pc) + 1, max(col, pc))
        } else if pc == col {
            col_clear(b, col, min(row, pr) + 1, max(row, pr))
        } else {
            false
        },
        PieceType::Cannon => if pr == row && pc != col {
            row_count(b, row, min(col, pc) + 1, max(col, pc)) == 1
        } else if pc == col && pr != row {
            col_count(b, col, min(row, pr) + 1, max(row, pr)) == 1
        } else {
            false
        },
        PieceType::Soldier => (row == pr + forward(by) && col == pc) || (crossed(pr, by) && row == pr && abs(dc) == 1),
    }
}

/// Some piece of `by` attacks `square`.
pub open spec fn xq_attacked(b: Seq<Option<XiangqiPiece>>, square: int, by: XiangqiColor) -> bool {
    exists|s: int|
        0 <= s < 90 && b[s] is Some && b[s]->0.color == by && #[trigger] xq_attacks(
            b,
            s / 9,
            s % 9,
            b[s]->0.piece_type,
            by,
            square / 9,
            square % 9,
        )
}

/// The general of `c` (the first one, in index order) is attacked.
pub open spec fn xq_in_check(b: Seq<Option<XiangqiPiece>>, c: XiangqiColor) -> bool {
    xq_attacked(b, general_square(b, c), other_side(c))
}

/// The two generals face each other on one column with nothing between them.
pub open spec fn flying_general(b: Seq<Option<XiangqiPiece>>) -> bool {
    let rg = general_square(b, XiangqiColor::Red);
    let bg = general_square(b, XiangqiColor::Black);
    rg % 9 == bg % 9 && col_clear(b, rg % 9, min(bg / 9, rg / 9) + 1, max(bg / 9, rg / 9))
}

fn iabs(x: isize) -> (r: isize)
    requires
        x > isize::MIN,
    ensures
        r == abs(x as int),
{
    if x < 0 { -x } else { x }
}

fn piece_attacks(
    board: &[Option<XiangqiPiece>; 90],
    pr: usize,
    pc: usize,
    pt: PieceType,
    by: XiangqiColor,
    row: usize,
    col: usize,
) -> (res: bool)
    requires
        pr < 10,
        pc < 9,
        row < 10,
        col < 9,
    ensures
        res == xq_attacks(board@, pr as int, pc as int, pt, by, row as int, col as int),
{
    match pt {
        PieceType::General => {
            let dr = iabs(row as isize - pr as isize);
            let dc = iabs(col as isize - pc as isize);
            (dr == 1 && dc == 0) || (dr == 0 && dc == 1)
        },
        PieceType::Advisor => {
            let dr = iabs(row as isize - pr as isize);
            let dc = iabs(col as isize - pc as isize);
            dr == 1 && dc == 1
        },
        PieceType::Elephant => {
            let dr = row as isize - pr as isize;
            let dc = col as isize - pc as isize;
            if iabs(dr) == 2 && iabs(dc) == 2 {
                let mid_r = pr as isize + dr / 2;
                let mid_c = pc as isize + dc / 2;
                board[idx(mid_r, mid_c)].is_none()
            } else {
                false
            }
        },
        PieceType::Horse => {
            let dr = row as isize - pr as isize;
            let dc = col as isize - pc as isize;
            let is_horse_move = (iabs(dr) == 2 && iabs(dc) == 1) || (iabs(dr) == 1 && iabs(dc) == 2);
            if is_horse_move {
                // Check "horse leg" blocking at orthogonal midpoint
                let (block_r, block_c) = if iabs(dr) == 2 {
                    (pr as isize + dr / 2, pc as isize)
                } else {
                    (pr as isize, pc as isize + dc / 2)
                };
                board[idx(block_r, block_c)].is_none()
            } else {
                false
            }
        },
        PieceType::Chariot => {
            if pr == row {
                let min_c = if col < pc { col } else { pc };
                let max_c = if col < pc { pc } else { col };
                min_c != max_c && row_is_clear(board, pr, min_c + 1, max_c)
            } else if pc == col {
                let min_r = if row < pr { row } else { pr };
                let max_r = if row < pr { pr } else { row };
                col_is_clear(board, col, min_r + 1, max_r)
            } else {
                false
            }
        },
        PieceType::Cannon => {
            if pr == row && pc != col {
                let min_c = if col < pc { col } else { pc };
                let max_c = if col < pc { pc } else { col };
                count_row(board, pr, min_c + 1, max_c) == 1
            } else if pc == col && pr != row {
                let min_r = if row < pr { row } else { pr };
                let max_r = if row < pr { pr } else { row };
                count_col(board, col, min_r + 1, max_r) == 1
            } else {
                false
            }
        },
        PieceType::Soldier => {
            let dir = forward_dir(by);
            // Forward attack, then sideways attack after crossing the river
            (row as isize == pr as isize + dir && col == pc) || (crossed_river(pr, by) && row == pr && iabs(
                col as isize - pc as isize,
            ) == 1)
        },
    }
}

fn is_square_attacked(board: &[Option<XiangqiPiece>; 90], square: usize, by_color: XiangqiColor) -> (res: bool)
    requires
        square < 90,
    ensures
        res == xq_attacked(board@, square as int, by_color),
{
    let row = square / 9;
    let col = square % 9;
    let mut sq: usize = 0;
    while sq < 90
        invariant
            sq <= 90,
            square < 90,
            row == square / 9,
            col == square % 9,
            forall|s: int|
                0 <= s < sq ==> !(board@[s] is Some && board@[s]->0.color == by_color && #[trigger] xq_attacks(
                    board@,
                    s / 9,
                    s % 9,
                    board@[s]->0.piece_type,
                    by_color,
                    row as int,
                    col as int,
                )),
        decreases 90 - sq,
    {
        match board[sq] {
            Some(p) => {
                if p.color == by_color && piece_attacks(board, sq / 9, sq % 9, p.piece_type, by_color, row, col) {
                    return true;
                }
            },
            None => {},
        }
        sq = sq + 1;
    }
    false
}

/// Check if the given color's general is under attack.
pub fn is_in_check(board: &[Option<XiangqiPiece>; 90], color: XiangqiColor) -> (r: bool)
    requires
        has_general(board@, color),
    ensures
        r == xq_in_check(board@, color),
{
    let gen_sq = find_general(board, color);
    is_square_attacked(board, gen_sq, color.opposite())
}

/// Check if the flying general rule is violated (two generals face each other
/// on the same column with no pieces between them).
fn is_flying_general(board: &[Option<XiangqiPiece>; 90]) -> (r: bool)
    requires
        has_general(board@, XiangqiColor::Red),
        has_general(board@, XiangqiColor::Black),
    ensures
        r == flying_general(board@),
{
    let red_gen = find_general(board, XiangqiColor::Red);
    let black_gen = find_general(board, XiangqiColor::Black);
    let red_col = red_gen % 9;
    let black_col = black_gen % 9;
    if red_col != black_col {
        return false;
    }
    let red_row = red_gen / 9;
    let black_row = black_gen / 9;
    let min_row = if black_row <= red_row { black_row } else { red_row };
    let max_row = if black_row >= red_row { black_row } else { red_row };
    col_is_clear(board, red_col, min_row + 1, max_row)
}

// ---------------------------------------------------------------------------
// Pseudo-legal moves

/// Orthogonal steps: (-1,0) (1,0) (0,-1) (0,1).
pub open spec fn orth_dr(k: int) -> int {
    if k == 0 { -1 } else if k == 1 { 1 } else { 0 }
}

pub open spec fn orth_dc(k: int) -> int {
    if k == 2 { -1 } else if k == 3 { 1 } else { 0 }
}

/// Diagonal steps: (-1,-1) (-1,1) (1,-1) (1,1).
pub open spec fn diag_dr(k: int) -> int {
    if k < 2 { -1 } else { 1 }
}

pub open spec fn diag_dc(k: int) -> int {
    if k == 0 || k == 2 { -1 } else { 1 }
}

/// Horse jumps (-2,-1) (-2,1) (2,-1) (2,1) (-1,-2) (-1,2) (1,-2) (1,2) and
/// their leg squares (-1,0) (-1,0) (1,0) (1,0) (0,-1) (0,1) (0,-1) (0,1).
pub open spec fn horse_dr(k: int) -> int {
    if k < 2 { -2 } else if k < 4 { 2 } else if k < 6 { -1 } else { 1 }
}

pub open spec fn horse_dc(k: int) -> int {
    if k == 0 || k == 2 {
        -1
    } else if k == 1 || k == 3 {
        1
    } else if k == 4 || k == 6 {
        -2
    } else {
        2
    }
}

pub open spec fn horse_bdr(k: int) -> int {
    if k < 2 { -1 } else if k < 4 { 1 } else { 0 }
}

pub open spec fn horse_bdc(k: int) -> int {
    if k < 4 { 0 } else if k == 4 || k == 6 { -1 } else { 1 }
}

/// Kinds of single-step pieces: 0 general, 1 advisor, 2 elephant, 3 horse.
pub open spec fn jump_count(kind: int) -> int {
    if kind == 3 { 8 } else { 4 }
}

pub open spec fn jump_dr(kind: int, k: int) -> int {
    if kind == 0 {
        orth_dr(k)
    } else if kind == 1 {
        diag_dr(k)
    } else if kind == 2 {
        2 * diag_dr(k)
    } else {
        horse_dr(k)
    }
}

pub open spec fn jump_dc(kind: int, k: int) -> int {
    if kind == 0 {
        orth_dc(k)
    } else if kind == 1 {
        diag_dc(k)
    } else if kind == 2 {
        2 * diag_dc(k)
    } else {
        horse_dc(k)
    }
}

/// The jump number `k` of a piece of the given kind from (`r`, `c`) is allowed:
/// on the board, not onto an own piece, inside the palace (general and
/// advisor), on its own side with a free eye (elephant), with a free leg (horse).
pub open spec fn jump_ok(b: Seq<Option<XiangqiPiece>>, color: XiangqiColor, kind: int, r: int, c: int, k: int) -> bool {
    let nr = r + jump_dr(kind, k);
    let nc = c + jump_dc(kind, k);
    &&& on_xboard(nr, nc)
    &&& if kind == 0 || kind == 1 {
        palace(nr, nc, color)
    } else if kind == 2 {
        own_side(nr, color) && b[xsq(r + diag_dr(k), c + diag_dc(k))] is None
    } else {
        b[xsq(r + horse_bdr(k), c + horse_bdc(k))] is None
    }
    &&& free_or_enemy(b[xsq(nr, nc)], color)
}

pub open spec fn jumps_from(b: Seq<Option<XiangqiPiece>>, color: XiangqiColor, sq: int, r: int, c: int, kind: int, k: int) -> Seq<XiangqiMove>
    decreases 8 - k,
{
    if k < 0 || k >= jump_count(kind) || k >= 8 {
        Seq::empty()
    } else {
        (if jump_ok(b, color, kind, r, c, k) {
            seq![xmove(sq, xsq(r + jump_dr(kind, k), c + jump_dc(kind, k)))]
        } else {
            Seq::empty()
        }) + jumps_from(b, color, sq, r, c, kind, k + 1)
    }
}

/// Chariot moves along (`dr`, `dc`) from step `n` on: every empty square,
/// up to and including the first enemy piece.
pub open spec fn chariot_from(b: Seq<Option<XiangqiPiece>>, color: XiangqiColor, sq: int, r: int, c: int, dr: int, dc: int, n: int) -> Seq<XiangqiMove>
    decreases 10 - n,
{
    if n < 1 || n >= 10 || !on_xboard(r + orth_steps(n, dr), c + orth_steps(n, dc)) {
        Seq::empty()
    } else {
        let t = xsq(r + orth_steps(n, dr), c + orth_steps(n, dc));
        match b[t] {
            None => seq![xmove(sq, t)] + chariot_from(b, color, sq, r, c, dr, dc, n + 1),
            Some(p) => if p.color != color { seq![xmove(sq, t)] } else { Seq::empty() },
        }
    }
}

/// `n` steps in direction `d` (-1, 0 or 1).
pub open spec fn orth_steps(n: int, d: int) -> int {
    if d > 0 { n } else if d < 0 { -n } else { 0 }
}

/// Cannon moves along (`dr`, `dc`) from step `n` on: every empty square up to
/// the first piece (the screen), then the capture of the first piece beyond it
/// if it belongs to the other side.
pub open spec fn cannon_from(b: Seq<Option<XiangqiPiece>>, color: XiangqiColor, sq: int, r: int, c: int, dr: int, dc: int, n: int) -> Seq<XiangqiMove>
    decreases 10 - n,
{
    if n < 1 || n >= 10 || !on_xboard(r + orth_steps(n, dr), c + orth_steps(n, dc)) {
        Seq::empty()
    } else {
        let t = xsq(r + orth_steps(n, dr), c + orth_steps(n, dc));
        if b[t] is Some {
            cannon_capture_from(b, color, sq, r, c, dr, dc, n + 1)
        } else {
            seq![xmove(sq, t)] + cannon_from(b, color, sq, r, c, dr, dc, n + 1)
        }
    }
}

pub open spec fn cannon_capture_from(b: Seq<Option<XiangqiPiece>>, color: XiangqiColor, sq: int, r: int, c: int, dr: int, dc: int, n: int) -> Seq<XiangqiMove>
    decreases 10 - n,
{
    if n < 1 || n >= 10 || !on_xboard(r + orth_steps(n, dr), c + orth_steps(n, dc)) {
        Seq::empty()
    } else {
        let t = xsq(r + orth_steps(n, dr), c + orth_steps(n, dc));
        match b[t] {
            Some(p) => if p.color != color { seq![xmove(sq, t)] } else { Seq::empty() },
            None => cannon_capture_from(b, color, sq, r, c, dr, dc, n + 1),
        }
    }
}

#[verifier::opaque]
pub open spec fn chariot_moves(b: Seq<Option<XiangqiPiece>>, color: XiangqiColor, sq: int, r: int, c: int) -> Seq<XiangqiMove> {
    chariot_from(b, color, sq, r, c, -1, 0, 1) + chariot_from(b, color, sq, r, c, 1, 0, 1) + chariot_from(b, color, sq, r, c, 0, -1, 1)
        + chariot_from(b, color, sq, r, c, 0, 1, 1)
}

#[verifier::opaque]
pub open spec fn cannon_moves(b: Seq<Option<XiangqiPiece>>, color: XiangqiColor, sq: int, r: int, c: int) -> Seq<XiangqiMove> {
    cannon_from(b, color, sq, r, c, -1, 0, 1) + cannon_from(b, color, sq, r, c, 1, 0, 1) + cannon_from(b, color, sq, r, c, 0, -1, 1)
        + cannon_from(b, color, sq, r, c, 0, 1, 1)
}

pub open spec fn soldier_side(b: Seq<Option<XiangqiPiece>>, color: XiangqiColor, sq: int, r: int, c: int, dc: int) -> Seq<XiangqiMove> {
    if on_xboard(r, c + dc) && free_or_enemy(b[xsq(r, c + dc)], color) {
        seq![xmove(sq, xsq(r, c + dc))]
    } else {
        Seq::empty()
    }
}

/// A soldier steps forward, and sideways once it has crossed the river.
pub open spec fn soldier_moves(b: Seq<Option<XiangqiPiece>>, color: XiangqiColor, sq: int, r: int, c: int) -> Seq<XiangqiMove> {
    let nr = r + forward(color);
    (if on_xboard(nr, c) && free_or_enemy(b[xsq(nr, c)], color) {
        seq![xmove(sq, xsq(nr, c))]
    } else {
        Seq::empty()
    }) + (if crossed(r, color) {
        soldier_side(b, color, sq, r, c, -1) + soldier_side(b, color, sq, r, c, 1)
    } else {
        Seq::empty()
    })
}

pub open spec fn xq_piece_moves(b: Seq<Option<XiangqiPiece>>, color: XiangqiColor, sq: int) -> Seq<XiangqiMove> {
    let r = sq / 9;
    let c = sq % 9;
    match b[sq] {
        Some(p) => if p.color != color {
            Seq::empty()
        } else {
            match p.piece_type {
                PieceType::General => jumps_from(b, color, sq, r, c, 0, 0),
                PieceType::Advisor => jumps_from(b, color, sq, r, c, 1, 0),
                PieceType::Elephant => jumps_from(b, color, sq, r, c, 2, 0),
                PieceType::Horse => jumps_from(b, color, sq, r, c, 3, 0),
                PieceType::Chariot => chariot_moves(b, color, sq, r, c),
                PieceType::Cannon => cannon_moves(b, color, sq, r, c),
                PieceType::Soldier => soldier_moves(b, color, sq, r, c),
            }
        },
        None => Seq::empty(),
    }
}

pub open spec fn xq_pseudo_upto(b: Seq<Option<XiangqiPiece>>, color: XiangqiColor, n: int) -> Seq<XiangqiMove>
    decreases n,
{
    if n <= 0 { Seq::empty() } else { xq_pseudo_upto(b, color, n - 1) + xq_piece_moves(b, color, n - 1) }
}

/// All pseudo-legal moves of `color`, square by square in index order.
pub open spec fn xq_pseudo_moves(b: Seq<Option<XiangqiPiece>>, color: XiangqiColor) -> Seq<XiangqiMove> {
    xq_pseudo_upto(b, color, 90)
}

fn jump_offset(kind: usize, k: usize) -> (r: (isize, isize))
    requires
        kind < 4,
        k < 8,
        kind < 3 ==> k < 4,
    ensures
        r.0 == jump_dr(kind as int, k as int),
        r.1 == jump_dc(kind as int, k as int),
{
    if kind == 0 {
        match k {
            0 => (-1, 0),
            1 => (1, 0),
            2 => (0, -1),
            _ => (0, 1),
        }
    } else if kind == 1 {
        match k {
            0 => (-1, -1),
            1 => (-1, 1),
            2 => (1, -1),
            _ => (1, 1),
        }
    } else if kind == 2 {
        match k {
            0 => (-2, -2),
            1 => (-2, 2),
            2 => (2, -2),
            _ => (2, 2),
        }
    } else {
        match k {
            0 => (-2, -1),
            1 => (-2, 1),
            2 => (2, -1),
            3 => (2, 1),
            4 => (-1, -2),
            5 => (-1, 2),
            6 => (1, -2),
            _ => (1, 2),
        }
    }
}

fn horse_block(k: usize) -> (r: (isize, isize))
    requires
        k < 8,
    ensures
        r.0 == horse_bdr(k as int),
        r.1 == horse_bdc(k as int),
{
    match k {
        0 => (-1, 0),
        1 => (-1, 0),
        2 => (1, 0),
        3 => (1, 0),
        4 => (0, -1),
        5 => (0, 1),
        6 => (0, -1),
        _ => (0, 1),
    }
}

/// Single-step moves of a general (kind 0), advisor (1), elephant (2) or horse (3).
fn push_jumps(board: &[Option<XiangqiPiece>; 90], sq: usize, color: XiangqiColor, kind: usize, moves: &mut Vec<XiangqiMove>)
    requires
        sq < 90,
        kind < 4,
    ensures
        final(moves)@ == old(moves)@ + jumps_from(board@, color, sq as int, sq as int / 9, sq as int % 9, kind as int, 0),
{
    let row = (sq / 9) as isize;
    let col = (sq % 9) as isize;
    let count: usize = if kind == 3 { 8 } else { 4 };
    let ghost m0 = moves@;
    let ghost b = board@;
    let mut k: usize = 0;
    while k < count
        invariant
            sq < 90,
            kind < 4,
            count == jump_count(kind as int),
            k <= count,
            row == sq / 9,
            col == sq % 9,
            b == board@,
            moves@ + jumps_from(b, color, sq as int, row as int, col as int, kind as int, k as int)
                == m0 + jumps_from(b, color, sq as int, row as int, col as int, kind as int, 0),
        decreases count - k,
    {
        let (dr, dc) = jump_offset(kind, k);
        let nr = row + dr;
        let nc = col + dc;
        let ghost before = moves@;
        if in_bounds(nr, nc) {
            let allowed = if kind == 0 || kind == 1 {
                in_palace(nr as usize, nc as usize, color)
            } else if kind == 2 {
                let (er, ec) = jump_offset(1, k);
                on_own_side(nr as usize, color) && board[idx(row + er, col + ec)].is_none()
            } else {
                let (br, bc) = horse_block(k);
                board[idx(row + br, col + bc)].is_none()
            };
            if allowed {
                let to = idx(nr, nc);
                if free_or_enemy_exec(board[to], color) {
                    moves.push(XiangqiMove { from: sq, to });
                }
            }
        }
        assert(moves@ =~= before + (if jump_ok(b, color, kind as int, row as int, col as int, k as int) {
            seq![xmove(sq as int, xsq(row + jump_dr(kind as int, k as int), col + jump_dc(kind as int, k as int)))]
        } else {
            Seq::empty()
        }));
        k = k + 1;
    }
    assert(jumps_from(b, color, sq as int, row as int, col as int, kind as int, count as int) =~= Seq::<XiangqiMove>::empty());
    assert(moves@ =~= m0 + jumps_from(b, color, sq as int, row as int, col as int, kind as int, 0));
}

fn push_chariot_ray(board: &[Option<XiangqiPiece>; 90], sq: usize, dr: isize, dc: isize, color: XiangqiColor, moves: &mut Vec<XiangqiMove>)
    requires
        sq < 90,
        -1 <= dr <= 1,
        -1 <= dc <= 1,
        !(dr == 0 && dc == 0),
    ensures
        final(moves)@ == old(moves)@ + chariot_from(board@, color, sq as int, sq as int / 9, sq as int % 9, dr as int, dc as int, 1),
{
    let row = (sq / 9) as isize;
    let col = (sq % 9) as isize;
    let ghost m0 = moves@;
    let ghost b = board@;
    let mut nr = row + dr;
    let mut nc = col + dc;
    let ghost mut n: int = 1;
    while in_bounds(nr, nc)
        invariant
            b == board@,
            m0 == old(moves)@,
            sq < 90,
            row == sq / 9,
            col == sq % 9,
            -1 <= dr <= 1,
            -1 <= dc <= 1,
            !(dr == 0 && dc == 0),
            1 <= n <= 10,
            nr == row + orth_steps(n, dr as int),
            nc == col + orth_steps(n, dc as int),
            moves@ + chariot_from(b, color, sq as int, row as int, col as int, dr as int, dc as int, n)
                == m0 + chariot_from(b, color, sq as int, row as int, col as int, dr as int, dc as int, 1),
        decreases 10 - n,
    {
        let to = idx(nr, nc);
        assert(n < 10);
        match board[to] {
            None => moves.push(XiangqiMove { from: sq, to }),
            Some(p) => {
                if p.color != color {
                    moves.push(XiangqiMove { from: sq, to });
                }
                assert(moves@ =~= m0 + chariot_from(b, color, sq as int, row as int, col as int, dr as int, dc as int, 1));
                return;
            },
        }
        nr = nr + dr;
        nc = nc + dc;
        proof {
            n = n + 1;
        }
    }
    assert(chariot_from(b, color, sq as int, row as int, col as int, dr as int, dc as int, n) =~= Seq::<XiangqiMove>::empty());
    assert(moves@ =~= m0 + chariot_from(b, color, sq as int, row as int, col as int, dr as int, dc as int, 1));
}

fn push_cannon_ray(board: &[Option<XiangqiPiece>; 90], sq: usize, dr: isize, dc: isize, color: XiangqiColor, moves: &mut Vec<XiangqiMove>)
    requires
        sq < 90,
        -1 <= dr <= 1,
        -1 <= dc <= 1,
        !(dr == 0 && dc == 0),
    ensures
        final(moves)@ == old(moves)@ + cannon_from(board@, color, sq as int, sq as int / 9, sq as int % 9, dr as int, dc as int, 1),
{
    let row = (sq / 9) as isize;
    let col = (sq % 9) as isize;
    let ghost m0 = moves@;
    let ghost b = board@;
    let mut nr = row + dr;
    let mut nc = col + dc;
    let ghost mut n: int = 1;
    // Non-capture: slide until blocked
    while in_bounds(nr, nc)
        invariant
            b == board@,
            m0 == old(moves)@,
            sq < 90,
            row == sq / 9,
            col == sq % 9,
            -1 <= dr <= 1,
            -1 <= dc <= 1,
            !(dr == 0 && dc == 0),
            1 <= n <= 10,
            nr == row + orth_steps(n, dr as int),
            nc == col + orth_steps(n, dc as int),
            moves@ + cannon_from(b, color, sq as int, row as int, col as int, dr as int, dc as int, n)
                == m0 + cannon_from(b, color, sq as int, row as int, col as int, dr as int, dc as int, 1),
        decreases 10 - n,
    {
        let to = idx(nr, nc);
        assert(n < 10);
        if board[to].is_some() {
            // Found platform piece: look for a capture target beyond it
            nr = nr + dr;
            nc = nc + dc;
            proof {
                n = n + 1;
            }
            while in_bounds(nr, nc)
                invariant
                    b == board@,
                    m0 == old(moves)@,
                    sq < 90,
                    row == sq / 9,
                    col == sq % 9,
                    -1 <= dr <= 1,
                    -1 <= dc <= 1,
                    !(dr == 0 && dc == 0),
                    2 <= n <= 10,
                    nr == row + orth_steps(n, dr as int),
                    nc == col + orth_steps(n, dc as int),
                    moves@ + cannon_capture_from(b, color, sq as int, row as int, col as int, dr as int, dc as int, n)
                        == m0 + cannon_from(b, color, sq as int, row as int, col as int, dr as int, dc as int, 1),
                decreases 10 - n,
            {
                let cap_to = idx(nr, nc);
                assert(n < 10);
                if let Some(p) = board[cap_to] {
                    if p.color != color {
                        moves.push(XiangqiMove { from: sq, to: cap_to });
                    }
                    assert(moves@ =~= m0 + cannon_from(b, color, sq as int, row as int, col as int, dr as int, dc as int, 1));
                    return;
                }
                nr = nr + dr;
                nc = nc + dc;
                proof {
                    n = n + 1;
                }
            }
            assert(cannon_capture_from(b, color, sq as int, row as int, col as int, dr as int, dc as int, n)
                =~= Seq::<XiangqiMove>::empty());
            assert(moves@ =~= m0 + cannon_from(b, color, sq as int, row as int, col as int, dr as int, dc as int, 1));
            return;
        }
        moves.push(XiangqiMove { from: sq, to });
        nr = nr + dr;
        nc = nc + dc;
        proof {
            n = n + 1;
        }
    }
    assert(cannon_from(b, color, sq as int, row as int, col as int, dr as int, dc as int, n) =~= Seq::<XiangqiMove>::empty());
    assert(moves@ =~= m0 + cannon_from(b, color, sq as int, row as int, col as int, dr as int, dc as int, 1));
}

fn push_chariot(board: &[Option<XiangqiPiece>; 90], sq: usize, color: XiangqiColor, moves: &mut Vec<XiangqiMove>)
    requires
        sq < 90,
    ensures
        final(moves)@ == old(moves)@ + chariot_moves(board@, color, sq as int, sq as int / 9, sq as int % 9),
{
    let ghost m0 = moves@;
    push_chariot_ray(board, sq, -1, 0, color, moves);
    push_chariot_ray(board, sq, 1, 0, color, moves);
    push_chariot_ray(board, sq, 0, -1, color, moves);
    push_chariot_ray(board, sq, 0, 1, color, moves);
    proof {
        reveal(chariot_moves);
    }
    assert(moves@ =~= m0 + chariot_moves(board@, color, sq as int, sq as int / 9, sq as int % 9));
}

fn push_cannon(board: &[Option<XiangqiPiece>; 90], sq: usize, color: XiangqiColor, moves: &mut Vec<XiangqiMove>)
    requires
        sq < 90,
    ensures
        final(moves)@ == old(moves)@ + cannon_moves(board@, color, sq as int, sq as int / 9, sq as int % 9),
{
    let ghost m0 = moves@;
    push_cannon_ray(board, sq, -1, 0, color, moves);
    push_cannon_ray(board, sq, 1, 0, color, moves);
    push_cannon_ray(board, sq, 0, -1, color, moves);
    push_cannon_ray(board, sq, 0, 1, color, moves);
    proof {
        reveal(cannon_moves);
    }
    assert(moves@ =~= m0 + cannon_moves(board@, color, sq as int, sq as int / 9, sq as int % 9));
}

fn push_soldier(board: &[Option<XiangqiPiece>; 90], sq: usize, color: XiangqiColor, moves: &mut Vec<XiangqiMove>)
    requires
        sq < 90,
    ensures
        final(moves)@ == old(moves)@ + soldier_moves(board@, color, sq as int, sq as int / 9, sq as int % 9),
{
    let row = sq / 9;
    let col = sq % 9;
    let ghost m0 = moves@;
    let ghost b = board@;
    let dir = forward_dir(color);
    // Forward move
    let nr = row as isize + dir;
    if in_bounds(nr, col as isize) {
        let to = idx(nr, col as isize);
        if free_or_enemy_exec(board[to], color) {
            moves.push(XiangqiMove { from: sq, to });
        }
    }
    let ghost m1 = moves@;
    // Sideways moves (after crossing river)
    if crossed_river(row, color) {
        let nc = col as isize - 1;
        if in_bounds(row as isize, nc) {
            let to = idx(row as isize, nc);
            if free_or_enemy_exec(board[to], color) {
                moves.push(XiangqiMove { from: sq, to });
            }
        }
        assert(moves@ =~= m1 + soldier_side(b, color, sq as int, row as int, col as int, -1));
        let ghost m2 = moves@;
        let nc = col as isize + 1;
        if in_bounds(row as isize, nc) {
            let to = idx(row as isize, nc);
            if free_or_enemy_exec(board[to], color) {
                moves.push(XiangqiMove { from: sq, to });
            }
        }
        assert(moves@ =~= m2 + soldier_side(b, color, sq as int, row as int, col as int, 1));
    }
    assert(moves@ =~= m0 + soldier_moves(b, color, sq as int, row as int, col as int));
}

fn push_piece_moves(board: &[Option<XiangqiPiece>; 90], sq: usize, color: XiangqiColor, moves: &mut Vec<XiangqiMove>)
    requires
        sq < 90,
    ensures
        final(moves)@ == old(moves)@ + xq_piece_moves(board@, color, sq as int),
{
    let ghost m0 = moves@;
    let piece = match board[sq] {
        Some(p) => p,
        None => {
            assert(moves@ =~= m0 + xq_piece_moves(board@, color, sq as int));
            return;
        },
    };
    if piece.color != color {
        assert(moves@ =~= m0 + xq_piece_moves(board@, color, sq as int));
        return;
    }
    match piece.piece_type {
        PieceType::General => push_jumps(board, sq, color, 0, moves),
        PieceType::Advisor => push_jumps(board, sq, color, 1, moves),
        PieceType::Elephant => push_jumps(board, sq, color, 2, moves),
        PieceType::Horse => push_jumps(board, sq, color, 3, moves),
        PieceType::Chariot => push_chariot(board, sq, color, moves),
        PieceType::Cannon => push_cannon(board, sq, color, moves),
        PieceType::Soldier => push_soldier(board, sq, color, moves),
    }
}

fn generate_pseudo_legal_moves(board: &[Option<XiangqiPiece>; 90], color: XiangqiColor) -> (r: Vec<XiangqiMove>)
    ensures
        r@ == xq_pseudo_moves(board@, color),
{
    let mut moves: Vec<XiangqiMove> = Vec::new();
    let mut sq: usize = 0;
    while sq < 90
        invariant
            sq <= 90,
            moves@ == xq_pseudo_upto(board@, color, sq as int),
        decreases 90 - sq,
    {
        push_piece_moves(board, sq, color, &mut moves);
        sq = sq + 1;
    }
    moves
}

// ---------------------------------------------------------------------------
// Every generated move starts on a square of the mover and ends on the board

pub open spec fn xq_moves_from(s: Seq<XiangqiMove>, sq: int) -> bool {
    forall|k: int| 0 <= k < s.len() ==> (#[trigger] s[k]).from == sq && s[k].to < 90
}

proof fn lemma_xq_moves_from_add(a: Seq<XiangqiMove>, b: Seq<XiangqiMove>, sq: int)
    requires
        xq_moves_from(a, sq),
        xq_moves_from(b, sq),
    ensures
        xq_moves_from(a + b, sq),
{
    assert forall|k: int| 0 <= k < (a + b).len() implies (#[trigger] (a + b)[k]).from == sq && (a + b)[k].to < 90 by {
        if k < a.len() {
            assert((a + b)[k] == a[k]);
        } else {
            assert((a + b)[k] == b[k - a.len()]);
        }
    }
}

proof fn lemma_jumps_shape(b: Seq<Option<XiangqiPiece>>, color: XiangqiColor, sq: int, r: int, c: int, kind: int, k: int)
    requires
        0 <= sq < 90,
    ensures
        xq_moves_from(jumps_from(b, color, sq, r, c, kind, k), sq),
    decreases 8 - k,
{
    if !(k < 0 || k >= jump_count(kind) || k >= 8) {
        lemma_jumps_shape(b, color, sq, r, c, kind, k + 1);
        let first = if jump_ok(b, color, kind, r, c, k) {
            seq![xmove(sq, xsq(r + jump_dr(kind, k), c + jump_dc(kind, k)))]
        } else {
            Seq::empty()
        };
        lemma_xq_moves_from_add(first, jumps_from(b, color, sq, r, c, kind, k + 1), sq);
    }
}

proof fn lemma_chariot_shape(b: Seq<Option<XiangqiPiece>>, color: XiangqiColor, sq: int, r: int, c: int, dr: int, dc: int, n: int)
    requires
        0 <= sq < 90,
    ensures
        xq_moves_from(chariot_from(b, color, sq, r, c, dr, dc, n), sq),
    decreases 10 - n,
{
    if !(n < 1 || n >= 10 || !on_xboard(r + orth_steps(n, dr), c + orth_steps(n, dc))) {
        lemma_chariot_shape(b, color, sq, r, c, dr, dc, n + 1);
        let t = xsq(r + orth_steps(n, dr), c + orth_steps(n, dc));
        lemma_xq_moves_from_add(seq![xmove(sq, t)], chariot_from(b, color, sq, r, c, dr, dc, n + 1), sq);
    }
}

proof fn lemma_cannon_capture_shape(b: Seq<Option<XiangqiPiece>>, color: XiangqiColor, sq: int, r: int, c: int, dr: int, dc: int, n: int)
    requires
        0 <= sq < 90,
    ensures
        xq_moves_from(cannon_capture_from(b, color, sq, r, c, dr, dc, n), sq),
    decreases 10 - n,
{
    if !(n < 1 || n >= 10 || !on_xboard(r + orth_steps(n, dr), c + orth_steps(n, dc))) {
        lemma_cannon_capture_shape(b, color, sq, r, c, dr, dc, n + 1);
    }
}

proof fn lemma_cannon_shape(b: Seq<Option<XiangqiPiece>>, color: XiangqiColor, sq: int, r: int, c: int, dr: int, dc: int, n: int)
    requires
        0 <= sq < 90,
    ensures
        xq_moves_from(cannon_from(b, color, sq, r, c, dr, dc, n), sq),
    decreases 10 - n,
{
    if !(n < 1 || n >= 10 || !on_xboard(r + orth_steps(n, dr), c + orth_steps(n, dc))) {
        lemma_cannon_shape(b, color, sq, r, c, dr, dc, n + 1);
        lemma_cannon_capture_shape(b, color, sq, r, c, dr, dc, n + 1);
        let t = xsq(r + orth_steps(n, dr), c + orth_steps(n, dc));
        lemma_xq_moves_from_add(seq![xmove(sq, t)], cannon_from(b, color, sq, r, c, dr, dc, n + 1), sq);
    }
}

proof fn lemma_xq_piece_moves_shape(b: Seq<Option<XiangqiPiece>>, color: XiangqiColor, sq: int)
    requires
        0 <= sq < 90,
    ensures
        xq_moves_from(xq_piece_moves(b, color, sq), sq),
{
    let r = sq / 9;
    let c = sq % 9;
    if b[sq] is Some && b[sq]->0.color == color {
        match b[sq]->0.piece_type {
            PieceType::General => lemma_jumps_shape(b, color, sq, r, c, 0, 0),
            PieceType::Advisor => lemma_jumps_shape(b, color, sq, r, c, 1, 0),
            PieceType::Elephant => lemma_jumps_shape(b, color, sq, r, c, 2, 0),
            PieceType::Horse => lemma_jumps_shape(b, color, sq, r, c, 3, 0),
            PieceType::Chariot => {
                reveal(chariot_moves);
                lemma_chariot_shape(b, color, sq, r, c, -1, 0, 1);
                lemma_chariot_shape(b, color, sq, r, c, 1, 0, 1);
                lemma_chariot_shape(b, color, sq, r, c, 0, -1, 1);
                lemma_chariot_shape(b, color, sq, r, c, 0, 1, 1);
                let s1 = chariot_from(b, color, sq, r, c, -1, 0, 1);
                let s2 = chariot_from(b, color, sq, r, c, 1, 0, 1);
                let s3 = chariot_from(b, color, sq, r, c, 0, -1, 1);
                let s4 = chariot_from(b, color, sq, r, c, 0, 1, 1);
                lemma_xq_moves_from_add(s1, s2, sq);
                lemma_xq_moves_from_add(s1 + s2, s3, sq);
                lemma_xq_moves_from_add(s1 + s2 + s3, s4, sq);
            },
            PieceType::Cannon => {
                reveal(cannon_moves);
                lemma_cannon_shape(b, color, sq, r, c, -1, 0, 1);
                lemma_cannon_shape(b, color, sq, r, c, 1, 0, 1);
                lemma_cannon_shape(b, color, sq, r, c, 0, -1, 1);
                lemma_cannon_shape(b, color, sq, r, c, 0, 1, 1);
                let s1 = cannon_from(b, color, sq, r, c, -1, 0, 1);
                let s2 = cannon_from(b, color, sq, r, c, 1, 0, 1);
                let s3 = cannon_from(b, color, sq, r, c, 0, -1, 1);
                let s4 = cannon_from(b, color, sq, r, c, 0, 1, 1);
                lemma_xq_moves_from_add(s1, s2, sq);
                lemma_xq_moves_from_add(s1 + s2, s3, sq);
                lemma_xq_moves_from_add(s1 + s2 + s3, s4, sq);
            },
            PieceType::Soldier => {
                let nr = r + forward(color);
                let f = if on_xboard(nr, c) && free_or_enemy(b[xsq(nr, c)], color) {
                    seq![xmove(sq, xsq(nr, c))]
                } else {
                    Seq::empty()
                };
                let sl = soldier_side(b, color, sq, r, c, -1);
                let sr = soldier_side(b, color, sq, r, c, 1);
                assert(xq_moves_from(f, sq));
                assert(xq_moves_from(sl, sq));
                assert(xq_moves_from(sr, sq));
                lemma_xq_moves_from_add(sl, sr, sq);
                lemma_xq_moves_from_add(f, sl + sr, sq);
                lemma_xq_moves_from_add(f, Seq::empty(), sq);
                assert(f + Seq::<XiangqiMove>::empty() =~= f);
            },
        }
    }
}

/// The move starts on a square holding a piece of `color`, and both of its
/// squares are on the board.
pub open spec fn xq_move_basic(b: Seq<Option<XiangqiPiece>>, color: XiangqiColor, m: XiangqiMove) -> bool {
    &&& m.from < 90
    &&& m.to < 90
    &&& b[m.from as int] is Some
    &&& b[m.from as int]->0.color == color
}

proof fn lemma_xq_pseudo_upto_basic(b: Seq<Option<XiangqiPiece>>, color: XiangqiColor, n: int)
    requires
        0 <= n <= 90,
    ensures
        forall|k: int| 0 <= k < xq_pseudo_upto(b, color, n).len() ==> xq_move_basic(b, color, #[trigger] xq_pseudo_upto(b, color, n)[k]),
    decreases n,
{
    if n > 0 {
        lemma_xq_pseudo_upto_basic(b, color, n - 1);
        lemma_xq_piece_moves_shape(b, color, n - 1);
        let a = xq_pseudo_upto(b, color, n - 1);
        let p = xq_piece_moves(b, color, n - 1);
        assert forall|k: int| 0 <= k < (a + p).len() implies xq_move_basic(b, color, #[trigger] (a + p)[k]) by {
            if k < a.len() {
                assert((a + p)[k] == a[k]);
            } else {
                assert((a + p)[k] == p[k - a.len()]);
                if !(b[n - 1] is Some && b[n - 1]->0.color == color) {
                    assert(p.len() == 0);
                }
            }
        }
    }
}

/// Every pseudo-legal move of `color` moves a piece of `color` within the board.
pub proof fn lemma_xq_pseudo_basic(b: Seq<Option<XiangqiPiece>>, color: XiangqiColor)
    ensures
        forall|k: int| 0 <= k < xq_pseudo_moves(b, color).len() ==> xq_move_basic(b, color, #[trigger] xq_pseudo_moves(b, color)[k]),
{
    lemma_xq_pseudo_upto_basic(b, color, 90);
}

// ---------------------------------------------------------------------------
// Making a move, legal moves

/// Board after `mv`: the piece on `from` moves to `to`, capturing whatever stood there.
pub open spec fn xq_apply(b: Seq<Option<XiangqiPiece>>, mv: XiangqiMove) -> Seq<Option<XiangqiPiece>> {
    b.update(mv.to as int, b[mv.from as int]).update(mv.from as int, None)
}

/// The board after `mv`: the piece moves, taking whatever stood on the destination.
pub fn apply_move(board: &[Option<XiangqiPiece>; 90], mv: &XiangqiMove) -> (r: [Option<XiangqiPiece>; 90])
    requires
        mv.from < 90,
        mv.to < 90,
    ensures
        r@ == xq_apply(board@, *mv),
{
    let mut new_board = *board;
    new_board[mv.to] = new_board[mv.from];
    new_board[mv.from] = None;
    assert(new_board@ =~= xq_apply(board@, *mv));
    new_board
}

/// After the move, the mover's general is not attacked and the generals do not face each other.
pub open spec fn xq_keeps_safe(b: Seq<Option<XiangqiPiece>>, color: XiangqiColor, m: XiangqiMove) -> bool {
    !xq_in_check(xq_apply(b, m), color) && !flying_general(xq_apply(b, m))
}

pub open spec fn xq_legal_filter(b: Seq<Option<XiangqiPiece>>, color: XiangqiColor, s: Seq<XiangqiMove>) -> Seq<XiangqiMove>
    decreases s.len(),
{
    if s.len() == 0 {
        Seq::empty()
    } else {
        xq_legal_filter(b, color, s.drop_last()) + (if xq_keeps_safe(b, color, s.last()) {
            seq![s.last()]
        } else {
            Seq::empty()
        })
    }
}

/// Legal moves: the pseudo-legal moves that neither leave the mover's general
/// attacked nor let the generals face each other, in generation order.
pub open spec fn xq_legal_moves(b: Seq<Option<XiangqiPiece>>, color: XiangqiColor) -> Seq<XiangqiMove> {
    xq_legal_filter(b, color, xq_pseudo_moves(b, color))
}

/// After every pseudo-legal move the mover still has a general and, unless
/// that general is attacked, so does the other side (the legality test looks
/// at both).
pub open spec fn xq_generals_survive(b: Seq<Option<XiangqiPiece>>, color: XiangqiColor) -> bool {
    forall|k: int|
        0 <= k < xq_pseudo_moves(b, color).len() ==> {
            let child = xq_apply(b, #[trigger] xq_pseudo_moves(b, color)[k]);
            &&& has_general(child, color)
            &&& !xq_in_check(child, color) ==> has_general(child, other_side(color))
        }
}

/// Generate all legal moves (filters out moves that leave own general in check
/// or create a flying general situation).
pub fn generate_legal_moves(board: &[Option<XiangqiPiece>; 90], color: XiangqiColor) -> (r: Vec<XiangqiMove>)
    requires
        xq_generals_survive(board@, color),
    ensures
        r@ == xq_legal_moves(board@, color),
{
    let pseudo = generate_pseudo_legal_moves(board, color);
    let ghost ps = pseudo@;
    proof {
        lemma_xq_pseudo_basic(board@, color);
    }
    let mut legal: Vec<XiangqiMove> = Vec::new();
    let mut i: usize = 0;
    while i < pseudo.len()
        invariant
            ps == pseudo@,
            ps == xq_pseudo_moves(board@, color),
            xq_generals_survive(board@, color),
            forall|k: int| 0 <= k < ps.len() ==> xq_move_basic(board@, color, #[trigger] ps[k]),
            i <= ps.len(),
            legal@ == xq_legal_filter(board@, color, ps.take(i as int)),
        decreases ps.len() - i,
    {
        let mv = pseudo[i];
        assert(xq_move_basic(board@, color, ps[i as int]));
        let new_board = apply_move(board, &mv);
        assert(has_general(new_board@, color));
        if !is_in_check(&new_board, color) {
            proof {
                if color == XiangqiColor::Red {
                    assert(has_general(new_board@, XiangqiColor::Black));
                } else {
                    assert(has_general(new_board@, XiangqiColor::Red));
                }
            }
            if !is_flying_general(&new_board) {
                legal.push(mv);
            }
        }
        assert(ps.take(i + 1).drop_last() =~= ps.take(i as int));
        i = i + 1;
    }
    assert(ps.take(ps.len() as int) =~= ps);
    legal
}

/// The side to move is in check and has no legal move.
pub fn is_checkmate(board: &[Option<XiangqiPiece>; 90], color: XiangqiColor) -> (r: bool)
    requires
        has_general(board@, color),
        xq_in_check(board@, color) ==> xq_generals_survive(board@, color),
    ensures
        r == (xq_in_check(board@, color) && xq_legal_moves(board@, color).len() == 0),
{
    is_in_check(board, color) && generate_legal_moves(board, color).is_empty()
}

/// The side to move is not in check and has no legal move.
pub fn is_stalemate(board: &[Option<XiangqiPiece>; 90], color: XiangqiColor) -> (r: bool)
    requires
        has_general(board@, color),
        !xq_in_check(board@, color) ==> xq_generals_survive(board@, color),
    ensures
        r == (!xq_in_check(board@, color) && xq_legal_moves(board@, color).len() == 0),
{
    !is_in_check(board, color) && generate_legal_moves(board, color).is_empty()
}

} // verus!
