use vstd::prelude::*;
use super::{CastlingRights, ChessPiece, Color, PieceType, other};

verus! {

#[derive(Copy, Clone, Debug)]
pub struct ChessMove {
    pub from: usize,
    pub to: usize,
    pub promotion: Option<PieceType>,
    pub is_castling: bool,
    pub is_en_passant: bool,
}

/// A plain move: no promotion, castling or en passant.
pub open spec fn normal_move(from: int, to: int) -> ChessMove {
    ChessMove { from: from as usize, to: to as usize, promotion: None, is_castling: false, is_en_passant: false }
}

impl ChessMove {
    fn normal(from: usize, to: usize) -> (r: Self)
        ensures
            r == normal_move(from as int, to as int),
    {
        Self { from, to, promotion: None, is_castling: false, is_en_passant: false }
    }
}

// ---------------------------------------------------------------------------
// Board geometry

pub open spec fn on_board(r: int, f: int) -> bool {
    0 <= r < 8 && 0 <= f < 8
}

/// Square index of rank `r`, file `f`.
pub open spec fn sq_of(r: int, f: int) -> int {
    r * 8 + f
}

pub open spec fn rank_of(s: int) -> int {
    s / 8
}

pub open spec fn file_of(s: int) -> int {
    s % 8
}

pub open spec fn is_piece(c: Option<ChessPiece>, color: Color, pt: PieceType) -> bool {
    c == Some(ChessPiece { piece_type: pt, color })
}

/// The square is empty or holds a piece of the other side.
pub open spec fn free_or_enemy(c: Option<ChessPiece>, color: Color) -> bool {
    c is None || c->0.color != color
}

fn in_bounds(r: isize, f: isize) -> (b: bool)
    ensures
        b == on_board(r as int, f as int),
{
    0 <= r && r < 8 && 0 <= f && f < 8
}

fn idx(r: isize, f: isize) -> (i: usize)
    requires
        on_board(r as int, f as int),
    ensures
        i == sq_of(r as int, f as int),
        i < 64,
{
    r as usize * 8 + f as usize
}

fn is_piece_exec(c: Option<ChessPiece>, color: Color, pt: PieceType) -> (b: bool)
    ensures
        b == is_piece(c, color, pt),
{
    match c {
        Some(p) => p.color == color && p.piece_type == pt,
        None => false,
    }
}

fn free_or_enemy_exec(c: Option<ChessPiece>, color: Color) -> (b: bool)
    ensures
        b == free_or_enemy(c, color),
{
    match c {
        Some(p) => p.color != color,
        None => true,
    }
}

// ---------------------------------------------------------------------------
// Kings

pub open spec fn has_king(b: Seq<Option<ChessPiece>>, c: Color) -> bool {
    exists|i: int| 0 <= i < 64 && #[trigger] is_piece(b[i], c, PieceType::King)
}

pub open spec fn king_from(b: Seq<Option<ChessPiece>>, c: Color, i: int) -> int
    decreases 64 - i,
{
    if i < 0 || i >= 64 {
        64
    } else if is_piece(b[i], c, PieceType::King) {
        i
    } else {
        king_from(b, c, i + 1)
    }
}

/// The first square (in index order) holding the king of `c`.
pub open spec fn king_square(b: Seq<Option<ChessPiece>>, c: Color) -> int {
    king_from(b, c, 0)
}

proof fn lemma_king_from(b: Seq<Option<ChessPiece>>, c: Color, i: int)
    requires
        0 <= i <= 64,
    ensures
        (exists|j: int| i <= j < 64 && #[trigger] is_piece(b[j], c, PieceType::King)) ==> {
            let k = king_from(b, c, i);
            &&& i <= k < 64
            &&& is_piece(b[k], c, PieceType::King)
            &&& forall|j: int| i <= j < k ==> !#[trigger] is_piece(b[j], c, PieceType::King)
        },
    decreases 64 - i,
{
    if i < 64 {
        lemma_king_from(b, c, i + 1);
        if !is_piece(b[i], c, PieceType::King) && (exists|j: int| i <= j < 64 && #[trigger] is_piece(b[j], c, PieceType::King)) {
            let j = choose|j: int| i <= j < 64 && #[trigger] is_piece(b[j], c, PieceType::King);
            assert(i + 1 <= j);
        }
    }
}

pub proof fn lemma_king_square(b: Seq<Option<ChessPiece>>, c: Color)
    requires
        has_king(b, c),
    ensures
        0 <= king_square(b, c) < 64,
        is_piece(b[king_square(b, c)], c, PieceType::King),
{
    lemma_king_from(b, c, 0);
}

/// Square of the first king of `color`; the king must be on the board.
pub fn find_king(board: &[Option<ChessPiece>; 64], color: Color) -> (r: usize)
    requires
        has_king(board@, color),
    ensures
        r == king_square(board@, color),
        r < 64,
        is_piece(board@[r as int], color, PieceType::King),
{
    proof {
        lemma_king_from(board@, color, 0);
    }
    let mut i: usize = 0;
    while i < 64
        invariant
            i <= 64,
            has_king(board@, color),
            king_from(board@, color, 0) == king_from(board@, color, i as int),
            forall|j: int| 0 <= j < i ==> !#[trigger] is_piece(board@[j], color, PieceType::King),
        decreases 64 - i,
    {
        if is_piece_exec(board[i], color, PieceType::King) {
            return i;
        }
        i = i + 1;
    }
    proof {
        let j = choose|j: int| 0 <= j < 64 && #[trigger] is_piece(board@[j], color, PieceType::King);
        assert(!is_piece(board@[j], color, PieceType::King));
    }
    64
}

// ---------------------------------------------------------------------------
// Attacks

/// `n` steps in direction `d` (-1, 0 or 1).
pub open spec fn steps(n: int, d: int) -> int {
    if d > 0 { n } else if d < 0 { -n } else { 0 }
}

pub open spec fn ray_on(r: int, f: int, dr: int, df: int, n: int) -> bool {
    on_board(r + steps(n, dr), f + steps(n, df))
}

pub open spec fn ray_sq(r: int, f: int, dr: int, df: int, n: int) -> int {
    sq_of(r + steps(n, dr), f + steps(n, df))
}

/// The squares strictly between (`r`, `f`) and `n` steps along (`dr`, `df`) are empty.
pub open spec fn ray_clear(b: Seq<Option<ChessPiece>>, r: int, f: int, dr: int, df: int, n: int) -> bool {
    forall|k: int| 1 <= k < n ==> (#[trigger] b[ray_sq(r, f, dr, df, k)]) is None
}

/// A piece of `by` of type `pt` or a queen sees (`r`, `f`) along the line (`dr`, `df`).
pub open spec fn ray_hits(b: Seq<Option<ChessPiece>>, r: int, f: int, dr: int, df: int, by: Color, pt: PieceType) -> bool {
    exists|n: int|
        1 <= n && #[trigger] ray_on(r, f, dr, df, n) && ray_clear(b, r, f, dr, df, n) && (is_piece(
            b[ray_sq(r, f, dr, df, n)],
            by,
            pt,
        ) || is_piece(b[ray_sq(r, f, dr, df, n)], by, PieceType::Queen))
}

/// Knight jumps, in the order (-2,-1) (-2,1) (-1,-2) (-1,2) (1,-2) (1,2) (2,-1) (2,1).
pub open spec fn knight_dr(k: int) -> int {
    if k < 2 { -2 } else if k < 4 { -1 } else if k < 6 { 1 } else { 2 }
}

pub open spec fn knight_df(k: int) -> int {
    if k == 0 || k == 6 {
        -1
    } else if k == 1 || k == 7 {
        1
    } else if k == 2 || k == 4 {
        -2
    } else {
        2
    }
}

/// King steps, in the order (-1,-1) (-1,0) (-1,1) (0,-1) (0,1) (1,-1) (1,0) (1,1).
pub open spec fn king_dr(k: int) -> int {
    if k < 3 { -1 } else if k < 5 { 0 } else { 1 }
}

pub open spec fn king_df(k: int) -> int {
    if k == 0 || k == 3 || k == 5 {
        -1
    } else if k == 1 || k == 6 {
        0
    } else {
        1
    }
}

pub open spec fn knight_attack(b: Seq<Option<ChessPiece>>, r: int, f: int, by: Color) -> bool {
    exists|k: int|
        0 <= k < 8 && on_board(r + knight_dr(k), f + knight_df(k)) && #[trigger] is_piece(
            b[sq_of(r + knight_dr(k), f + knight_df(k))],
            by,
            PieceType::Knight,
        )
}

pub open spec fn king_attack(b: Seq<Option<ChessPiece>>, r: int, f: int, by: Color) -> bool {
    exists|k: int|
        0 <= k < 8 && on_board(r + king_dr(k), f + king_df(k)) && #[trigger] is_piece(
            b[sq_of(r + king_dr(k), f + king_df(k))],
            by,
            PieceType::King,
        )
}

/// A pawn of `by` stands diagonally behind (`r`, `f`) from its point of view.
pub open spec fn pawn_attack(b: Seq<Option<ChessPiece>>, r: int, f: int, by: Color) -> bool {
    let pr = r + (if by == Color::White { 1int } else { -1int });
    &&& 0 <= pr < 8
    &&& ((0 <= f - 1 && is_piece(b[sq_of(pr, f - 1)], by, PieceType::Pawn)) || (f + 1 < 8 && is_piece(
        b[sq_of(pr, f + 1)],
        by,
        PieceType::Pawn,
    )))
}

/// Some piece of `by` attacks the square at rank `r`, file `f`.
pub open spec fn attacked_rf(b: Seq<Option<ChessPiece>>, r: int, f: int, by: Color) -> bool {
    ||| knight_attack(b, r, f, by)
    ||| pawn_attack(b, r, f, by)
    ||| king_attack(b, r, f, by)
    ||| ray_hits(b, r, f, -1, 0, by, PieceType::Rook)
    ||| ray_hits(b, r, f, 1, 0, by, PieceType::Rook)
    ||| ray_hits(b, r, f, 0, -1, by, PieceType::Rook)
    ||| ray_hits(b, r, f, 0, 1, by, PieceType::Rook)
    ||| ray_hits(b, r, f, -1, -1, by, PieceType::Bishop)
    ||| ray_hits(b, r, f, -1, 1, by, PieceType::Bishop)
    ||| ray_hits(b, r, f, 1, -1, by, PieceType::Bishop)
    ||| ray_hits(b, r, f, 1, 1, by, PieceType::Bishop)
}

/// Some piece of `by` attacks `square`. Below the board's last rank only a
/// knight can reach the square, and only from the board.
pub open spec fn attacked(b: Seq<Option<ChessPiece>>, square: int, by: Color) -> bool {
    if rank_of(square) >= 9 {
        knight_attack(b, rank_of(square), file_of(square), by)
    } else {
        attacked_rf(b, rank_of(square), file_of(square), by)
    }
}

/// On the board or on the rank just below it.
pub open spec fn near_board(r: int, f: int) -> bool {
    0 <= r <= 8 && 0 <= f < 8
}

/// The king of `c` (the first one, in index order) is attacked.
pub open spec fn in_check(b: Seq<Option<ChessPiece>>, c: Color) -> bool {
    attacked(b, king_square(b, c), other(c))
}

fn knight_offset(k: usize) -> (r: (isize, isize))
    requires
        k < 8,
    ensures
        r.0 == knight_dr(k as int),
        r.1 == knight_df(k as int),
{
    match k {
        0 => (-2, -1),
        1 => (-2, 1),
        2 => (-1, -2),
        3 => (-1, 2),
        4 => (1, -2),
        5 => (1, 2),
        6 => (2, -1),
        _ => (2, 1),
    }
}

fn king_offset(k: usize) -> (r: (isize, isize))
    requires
        k < 8,
    ensures
        r.0 == king_dr(k as int),
        r.1 == king_df(k as int),
{
    match k {
        0 => (-1, -1),
        1 => (-1, 0),
        2 => (-1, 1),
        3 => (0, -1),
        4 => (0, 1),
        5 => (1, -1),
        6 => (1, 0),
        _ => (1, 1),
    }
}

fn knight_attacks(board: &[Option<ChessPiece>; 64], rank: isize, file: isize, by: Color) -> (r: bool)
    requires
        0 <= rank <= 9 && 0 <= file < 8,
    ensures
        r == knight_attack(board@, rank as int, file as int, by),
{
    let mut k: usize = 0;
    while k < 8
        invariant
            k <= 8,
            0 <= rank <= 9 && 0 <= file < 8,
            forall|j: int|
                0 <= j < k ==> !(on_board(rank + knight_dr(j), file + knight_df(j)) && #[trigger] is_piece(
                    board@[sq_of(rank + knight_dr(j), file + knight_df(j))],
                    by,
                    PieceType::Knight,
                )),
        decreases 8 - k,
    {
        let (dr, df) = knight_offset(k);
        let nr = rank + dr;
        let nf = file + df;
        if in_bounds(nr, nf) && is_piece_exec(board[idx(nr, nf)], by, PieceType::Knight) {
            return true;
        }
        k = k + 1;
    }
    false
}

fn king_attacks(board: &[Option<ChessPiece>; 64], rank: isize, file: isize, by: Color) -> (r: bool)
    requires
        near_board(rank as int, file as int),
    ensures
        r == king_attack(board@, rank as int, file as int, by),
{
    let mut k: usize = 0;
    while k < 8
        invariant
            k <= 8,
            near_board(rank as int, file as int),
            forall|j: int|
                0 <= j < k ==> !(on_board(rank + king_dr(j), file + king_df(j)) && #[trigger] is_piece(
                    board@[sq_of(rank + king_dr(j), file + king_df(j))],
                    by,
                    PieceType::King,
                )),
        decreases 8 - k,
    {
        let (dr, df) = king_offset(k);
        let nr = rank + dr;
        let nf = file + df;
        if in_bounds(nr, nf) && is_piece_exec(board[idx(nr, nf)], by, PieceType::King) {
            return true;
        }
        k = k + 1;
    }
    false
}

fn pawn_attacks(board: &[Option<ChessPiece>; 64], rank: isize, file: isize, by: Color) -> (r: bool)
    requires
        near_board(rank as int, file as int),
    ensures
        r == pawn_attack(board@, rank as int, file as int, by),
{
    let pawn_dir: isize = if by == Color::White { 1 } else { -1 };
    let pawn_rank = rank + pawn_dir;
    if 0 <= pawn_rank && pawn_rank < 8 {
        if 0 <= file - 1 && is_piece_exec(board[idx(pawn_rank, file - 1)], by, PieceType::Pawn) {
            return true;
        }
        if file + 1 < 8 && is_piece_exec(board[idx(pawn_rank, file + 1)], by, PieceType::Pawn) {
            return true;
        }
    }
    false
}

/// A ray that has left the board stays off it.
proof fn lemma_ray_off(r: int, f: int, dr: int, df: int, n: int, m: int)
    requires
        near_board(r, f),
        -1 <= dr <= 1,
        -1 <= df <= 1,
        !(dr == 0 && df == 0),
        1 <= n <= m,
        !ray_on(r, f, dr, df, n),
    ensures
        !ray_on(r, f, dr, df, m),
{
}

fn ray_attacks(
    board: &[Option<ChessPiece>; 64],
    rank: isize,
    file: isize,
    dr: isize,
    df: isize,
    by: Color,
    pt: PieceType,
) -> (r: bool)
    requires
        near_board(rank as int, file as int),
        -1 <= dr <= 1,
        -1 <= df <= 1,
        !(dr == 0 && df == 0),
    ensures
        r == ray_hits(board@, rank as int, file as int, dr as int, df as int, by, pt),
{
    let ghost b = board@;
    let ghost r0 = rank as int;
    let ghost f0 = file as int;
    let mut nr = rank + dr;
    let mut nf = file + df;
    let ghost mut n: int = 1;
    while in_bounds(nr, nf)
        invariant
            b == board@,
            near_board(r0, f0),
            r0 == rank,
            f0 == file,
            -1 <= dr <= 1,
            -1 <= df <= 1,
            !(dr == 0 && df == 0),
            1 <= n <= 9,
            nr == r0 + steps(n, dr as int),
            nf == f0 + steps(n, df as int),
            ray_clear(b, r0, f0, dr as int, df as int, n),
        decreases 9 - n,
    {
        let i = idx(nr, nf);
        assert(i == ray_sq(r0, f0, dr as int, df as int, n));
        match board[i] {
            Some(piece) => {
                if piece.color == by && (piece.piece_type == pt || piece.piece_type == PieceType::Queen) {
                    assert(ray_on(r0, f0, dr as int, df as int, n));
                    return true;
                }
                proof {
                    assert forall|m: int|
                        1 <= m && #[trigger] ray_on(r0, f0, dr as int, df as int, m) && ray_clear(
                            b,
                            r0,
                            f0,
                            dr as int,
                            df as int,
                            m,
                        ) implies !(is_piece(b[ray_sq(r0, f0, dr as int, df as int, m)], by, pt) || is_piece(
                        b[ray_sq(r0, f0, dr as int, df as int, m)],
                        by,
                        PieceType::Queen,
                    )) by {
                        if m < n {
                            assert(b[ray_sq(r0, f0, dr as int, df as int, m)] is None);
                        } else if m > n {
                            assert(b[ray_sq(r0, f0, dr as int, df as int, n)] is None);
                        }
                    }
                }
                return false;
            },
            None => {},
        }
        nr = nr + dr;
        nf = nf + df;
        proof {
            n = n + 1;
        }
    }
    proof {
        assert forall|m: int|
            1 <= m && #[trigger] ray_on(r0, f0, dr as int, df as int, m) && ray_clear(b, r0, f0, dr as int, df as int, m)
            implies !(is_piece(b[ray_sq(r0, f0, dr as int, df as int, m)], by, pt) || is_piece(
            b[ray_sq(r0, f0, dr as int, df as int, m)],
            by,
            PieceType::Queen,
        )) by {
            if m < n {
                assert(b[ray_sq(r0, f0, dr as int, df as int, m)] is None);
            } else {
                lemma_ray_off(r0, f0, dr as int, df as int, n, m);
            }
        }
    }
    false
}

/// Whether any piece of `by_color` attacks `square`.
pub fn is_square_attacked(board: &[Option<ChessPiece>; 64], square: usize, by_color: Color) -> (r: bool)
    ensures
        r == attacked(board@, square as int, by_color),
{
    if square / 8 >= 10 {
        return false;
    }
    let rank = (square / 8) as isize;
    let file = (square % 8) as isize;
    if rank == 9 {
        return knight_attacks(board, rank, file, by_color);
    }
    if knight_attacks(board, rank, file, by_color) {
        return true;
    }
    if pawn_attacks(board, rank, file, by_color) {
        return true;
    }
    if king_attacks(board, rank, file, by_color) {
        return true;
    }
    if ray_attacks(board, rank, file, -1, 0, by_color, PieceType::Rook) {
        return true;
    }
    if ray_attacks(board, rank, file, 1, 0, by_color, PieceType::Rook) {
        return true;
    }
    if ray_attacks(board, rank, file, 0, -1, by_color, PieceType::Rook) {
        return true;
    }
    if ray_attacks(board, rank, file, 0, 1, by_color, PieceType::Rook) {
        return true;
    }
    if ray_attacks(board, rank, file, -1, -1, by_color, PieceType::Bishop) {
        return true;
    }
    if ray_attacks(board, rank, file, -1, 1, by_color, PieceType::Bishop) {
        return true;
    }
    if ray_attacks(board, rank, file, 1, -1, by_color, PieceType::Bishop) {
        return true;
    }
    if ray_attacks(board, rank, file, 1, 1, by_color, PieceType::Bishop) {
        return true;
    }
    false
}

/// Whether the king of `color` is attacked; that king must be on the board.
pub fn is_in_check(board: &[Option<ChessPiece>; 64], color: Color) -> (r: bool)
    requires
        has_king(board@, color),
    ensures
        r == in_check(board@, color),
{
    let king_sq = find_king(board, color);
    is_square_attacked(board, king_sq, color.opposite())
}

// ---------------------------------------------------------------------------
// Pseudo-legal moves (the rules of movement, before the check filter)

pub open spec fn pawn_dir(c: Color) -> int {
    if c == Color::White { -1 } else { 1 }
}

pub open spec fn start_rank(c: Color) -> int {
    if c == Color::White { 6 } else { 1 }
}

pub open spec fn promo_rank(c: Color) -> int {
    if c == Color::White { 0 } else { 7 }
}

pub open spec fn queen_if(promote: bool) -> Option<PieceType> {
    if promote { Some(PieceType::Queen) } else { None }
}

/// Single push (promoting to a queen on the last rank) and, from the
/// starting rank, double push of a pawn of `c` on square `sq`.
pub open spec fn pawn_pushes(b: Seq<Option<ChessPiece>>, c: Color, sq: int, r: int, f: int) -> Seq<ChessMove> {
    let fwd = r + pawn_dir(c);
    if 0 <= fwd < 8 && b[sq_of(fwd, f)] is None {
        seq![ChessMove { from: sq as usize, to: sq_of(fwd, f) as usize, promotion: queen_if(fwd == promo_rank(c)), is_castling: false, is_en_passant: false }]
            + (if r == start_rank(c) && b[sq_of(r + 2 * pawn_dir(c), f)] is None {
            seq![normal_move(sq, sq_of(r + 2 * pawn_dir(c), f))]
        } else {
            Seq::empty()
        })
    } else {
        Seq::empty()
    }
}

/// Diagonal capture towards file `f + df`, including en passant onto `ep`.
pub open spec fn pawn_capture(b: Seq<Option<ChessPiece>>, c: Color, ep: Option<usize>, sq: int, r: int, f: int, df: int) -> Seq<ChessMove> {
    let nf = f + df;
    let nr = r + pawn_dir(c);
    if 0 <= nf < 8 && 0 <= nr < 8 {
        let cap = sq_of(nr, nf);
        let is_capture = b[cap] is Some && b[cap]->0.color != c;
        let is_ep = ep == Some(cap as usize);
        if is_capture || is_ep {
            seq![ChessMove { from: sq as usize, to: cap as usize, promotion: queen_if(nr == promo_rank(c)), is_castling: false, is_en_passant: is_ep }]
        } else {
            Seq::empty()
        }
    } else {
        Seq::empty()
    }
}

pub open spec fn pawn_moves(b: Seq<Option<ChessPiece>>, c: Color, ep: Option<usize>, sq: int, r: int, f: int) -> Seq<ChessMove> {
    pawn_pushes(b, c, sq, r, f) + pawn_capture(b, c, ep, sq, r, f, -1) + pawn_capture(b, c, ep, sq, r, f, 1)
}

/// One step of a knight (`knight == true`) or king to offset number `k`.
pub open spec fn leap(b: Seq<Option<ChessPiece>>, c: Color, sq: int, r: int, f: int, knight: bool, k: int) -> Seq<ChessMove> {
    let nr = r + (if knight { knight_dr(k) } else { king_dr(k) });
    let nf = f + (if knight { knight_df(k) } else { king_df(k) });
    if on_board(nr, nf) && free_or_enemy(b[sq_of(nr, nf)], c) {
        seq![normal_move(sq, sq_of(nr, nf))]
    } else {
        Seq::empty()
    }
}

/// Leaps to offsets `k..8`, in order.
pub open spec fn leaps_from(b: Seq<Option<ChessPiece>>, c: Color, sq: int, r: int, f: int, knight: bool, k: int) -> Seq<ChessMove>
    decreases 8 - k,
{
    if k < 0 || k >= 8 {
        Seq::empty()
    } else {
        leap(b, c, sq, r, f, knight, k) + leaps_from(b, c, sq, r, f, knight, k + 1)
    }
}

/// Moves of a sliding piece on `sq` along (`dr`, `df`), from step `n` on:
/// every empty square, up to and including the first enemy piece.
pub open spec fn slide_from(b: Seq<Option<ChessPiece>>, c: Color, sq: int, r: int, f: int, dr: int, df: int, n: int) -> Seq<ChessMove>
    decreases 8 - n,
{
    if n < 1 || n >= 8 || !ray_on(r, f, dr, df, n) {
        Seq::empty()
    } else {
        let t = ray_sq(r, f, dr, df, n);
        match b[t] {
            None => seq![normal_move(sq, t)] + slide_from(b, c, sq, r, f, dr, df, n + 1),
            Some(p) => if p.color != c { seq![normal_move(sq, t)] } else { Seq::empty() },
        }
    }
}

#[verifier::opaque]
pub open spec fn slides(b: Seq<Option<ChessPiece>>, c: Color, sq: int, r: int, f: int, dr: int, df: int) -> Seq<ChessMove> {
    slide_from(b, c, sq, r, f, dr, df, 1)
}

pub open spec fn bishop_moves(b: Seq<Option<ChessPiece>>, c: Color, sq: int, r: int, f: int) -> Seq<ChessMove> {
    slides(b, c, sq, r, f, -1, -1) + slides(b, c, sq, r, f, -1, 1) + slides(b, c, sq, r, f, 1, -1) + slides(b, c, sq, r, f, 1, 1)
}

pub open spec fn rook_moves(b: Seq<Option<ChessPiece>>, c: Color, sq: int, r: int, f: int) -> Seq<ChessMove> {
    slides(b, c, sq, r, f, -1, 0) + slides(b, c, sq, r, f, 1, 0) + slides(b, c, sq, r, f, 0, -1) + slides(b, c, sq, r, f, 0, 1)
}

pub open spec fn queen_moves(b: Seq<Option<ChessPiece>>, c: Color, sq: int, r: int, f: int) -> Seq<ChessMove> {
    slides(b, c, sq, r, f, -1, -1) + slides(b, c, sq, r, f, -1, 0) + slides(b, c, sq, r, f, -1, 1) + slides(b, c, sq, r, f, 0, -1)
        + slides(b, c, sq, r, f, 0, 1) + slides(b, c, sq, r, f, 1, -1) + slides(b, c, sq, r, f, 1, 0) + slides(b, c, sq, r, f, 1, 1)
}

pub open spec fn castle_move(from: int, to: int) -> ChessMove {
    ChessMove { from: from as usize, to: to as usize, promotion: None, is_castling: true, is_en_passant: false }
}

/// Castling: the right is kept, the squares between king and rook are
/// empty, and the king's square and the two it crosses are not attacked.
pub open spec fn castling_moves(b: Seq<Option<ChessPiece>>, c: Color, cr: CastlingRights, sq: int) -> Seq<ChessMove> {
    if c == Color::White && sq == 60 {
        (if cr.white_king_side && b[61] is None && b[62] is None && !attacked(b, 60, Color::Black)
            && !attacked(b, 61, Color::Black) && !attacked(b, 62, Color::Black) {
            seq![castle_move(60, 62)]
        } else {
            Seq::empty()
        }) + (if cr.white_queen_side && b[59] is None && b[58] is None && b[57] is None && !attacked(b, 60, Color::Black)
            && !attacked(b, 59, Color::Black) && !attacked(b, 58, Color::Black) {
            seq![castle_move(60, 58)]
        } else {
            Seq::empty()
        })
    } else if c == Color::Black && sq == 4 {
        (if cr.black_king_side && b[5] is None && b[6] is None && !attacked(b, 4, Color::White)
            && !attacked(b, 5, Color::White) && !attacked(b, 6, Color::White) {
            seq![castle_move(4, 6)]
        } else {
            Seq::empty()
        }) + (if cr.black_queen_side && b[3] is None && b[2] is None && b[1] is None && !attacked(b, 4, Color::White)
            && !attacked(b, 3, Color::White) && !attacked(b, 2, Color::White) {
            seq![castle_move(4, 2)]
        } else {
            Seq::empty()
        })
    } else {
        Seq::empty()
    }
}

/// Pseudo-legal moves of the piece on `sq`, if it belongs to `c`.
pub open spec fn piece_moves(b: Seq<Option<ChessPiece>>, c: Color, cr: CastlingRights, ep: Option<usize>, sq: int) -> Seq<ChessMove> {
    let r = rank_of(sq);
    let f = file_of(sq);
    match b[sq] {
        Some(p) => if p.color != c {
            Seq::empty()
        } else {
            match p.piece_type {
                PieceType::Pawn => pawn_moves(b, c, ep, sq, r, f),
                PieceType::Knight => leaps_from(b, c, sq, r, f, true, 0),
                PieceType::Bishop => bishop_moves(b, c, sq, r, f),
                PieceType::Rook => rook_moves(b, c, sq, r, f),
                PieceType::Queen => queen_moves(b, c, sq, r, f),
                PieceType::King => leaps_from(b, c, sq, r, f, false, 0) + castling_moves(b, c, cr, sq),
            }
        },
        None => Seq::empty(),
    }
}

pub open spec fn pseudo_upto(b: Seq<Option<ChessPiece>>, c: Color, cr: CastlingRights, ep: Option<usize>, n: int) -> Seq<ChessMove>
    decreases n,
{
    if n <= 0 {
        Seq::empty()
    } else {
        pseudo_upto(b, c, cr, ep, n - 1) + piece_moves(b, c, cr, ep, n - 1)
    }
}

/// All pseudo-legal moves of `c`, square by square in index order.
pub open spec fn pseudo_moves(b: Seq<Option<ChessPiece>>, c: Color, cr: CastlingRights, ep: Option<usize>) -> Seq<ChessMove> {
    pseudo_upto(b, c, cr, ep, 64)
}

fn push_pawn_moves(
    board: &[Option<ChessPiece>; 64],
    sq: usize,
    color: Color,
    en_passant: Option<usize>,
    moves: &mut Vec<ChessMove>,
)
    requires
        sq < 64,
    ensures
        final(moves)@ == old(moves)@ + pawn_moves(board@, color, en_passant, sq as int, rank_of(sq as int), file_of(sq as int)),
{
    let rank = sq / 8;
    let file = sq % 8;
    let dir: isize = if color == Color::White { -1 } else { 1 };
    let start: usize = if color == Color::White { 6 } else { 1 };
    let promo: usize = if color == Color::White { 0 } else { 7 };
    let ghost m0 = moves@;
    let ghost b = board@;

    // Single push
    let fwd_i = rank as isize + dir;
    if 0 <= fwd_i && fwd_i < 8 {
        let fwd = fwd_i as usize;
        let fwd_idx = fwd * 8 + file;
        if board[fwd_idx].is_none() {
            if fwd == promo {
                moves.push(ChessMove { from: sq, to: fwd_idx, promotion: Some(PieceType::Queen), is_castling: false, is_en_passant: false });
            } else {
                moves.push(ChessMove::normal(sq, fwd_idx));
            }
            // Double push from starting rank
            if rank == start {
                let dbl = (rank as isize + dir * 2) as usize;
                let dbl_idx = dbl * 8 + file;
                if board[dbl_idx].is_none() {
                    moves.push(ChessMove::normal(sq, dbl_idx));
                }
            }
        }
    }
    assert(moves@ =~= m0 + pawn_pushes(b, color, sq as int, rank as int, file as int));
    let ghost m1 = moves@;

    // Captures (including en passant)
    let mut side: usize = 0;
    while side < 2
        invariant
            side <= 2,
            sq < 64,
            rank == rank_of(sq as int),
            file == file_of(sq as int),
            dir == pawn_dir(color),
            promo == promo_rank(color),
            b == board@,
            moves@ == m1 + (if side >= 1 { pawn_capture(b, color, en_passant, sq as int, rank as int, file as int, -1) } else { Seq::empty() })
                + (if side >= 2 { pawn_capture(b, color, en_passant, sq as int, rank as int, file as int, 1) } else { Seq::empty() }),
        decreases 2 - side,
    {
        let df: isize = if side == 0 { -1 } else { 1 };
        let nf = file as isize + df;
        let nr_i = rank as isize + dir;
        let ghost before = moves@;
        if 0 <= nf && nf < 8 && 0 <= nr_i && nr_i < 8 {
            let nr = nr_i as usize;
            let cap_idx = nr * 8 + nf as usize;
            let is_capture = free_or_enemy_exec(board[cap_idx], color) && board[cap_idx].is_some();
            let is_ep = match en_passant {
                Some(e) => e == cap_idx,
                None => false,
            };
            if is_capture || is_ep {
                if nr == promo {
                    moves.push(ChessMove { from: sq, to: cap_idx, promotion: Some(PieceType::Queen), is_castling: false, is_en_passant: is_ep });
                } else {
                    moves.push(ChessMove { from: sq, to: cap_idx, promotion: None, is_castling: false, is_en_passant: is_ep });
                }
            }
        }
        assert(moves@ =~= before + pawn_capture(b, color, en_passant, sq as int, rank as int, file as int, df as int));
        side = side + 1;
    }
    assert(moves@ =~= m0 + pawn_moves(b, color, en_passant, sq as int, rank as int, file as int));
}

fn push_leaps(board: &[Option<ChessPiece>; 64], sq: usize, color: Color, knight: bool, moves: &mut Vec<ChessMove>)
    requires
        sq < 64,
    ensures
        final(moves)@ == old(moves)@ + leaps_from(board@, color, sq as int, rank_of(sq as int), file_of(sq as int), knight, 0),
{
    let rank = (sq / 8) as isize;
    let file = (sq % 8) as isize;
    let ghost m0 = moves@;
    let ghost b = board@;
    let mut k: usize = 0;
    while k < 8
        invariant
            k <= 8,
            sq < 64,
            rank == rank_of(sq as int),
            file == file_of(sq as int),
            b == board@,
            moves@ + leaps_from(b, color, sq as int, rank as int, file as int, knight, k as int)
                == m0 + leaps_from(b, color, sq as int, rank as int, file as int, knight, 0),
        decreases 8 - k,
    {
        let (dr, df) = if knight { knight_offset(k) } else { king_offset(k) };
        let nr = rank + dr;
        let nf = file + df;
        let ghost before = moves@;
        if in_bounds(nr, nf) {
            let i = idx(nr, nf);
            if free_or_enemy_exec(board[i], color) {
                moves.push(ChessMove::normal(sq, i));
            }
        }
        assert(moves@ =~= before + leap(b, color, sq as int, rank as int, file as int, knight, k as int));
        assert(leaps_from(b, color, sq as int, rank as int, file as int, knight, k as int)
            =~= leap(b, color, sq as int, rank as int, file as int, knight, k as int)
                + leaps_from(b, color, sq as int, rank as int, file as int, knight, k + 1));
        k = k + 1;
    }
    assert(moves@ =~= m0 + leaps_from(b, color, sq as int, rank as int, file as int, knight, 0));
}

fn generate_sliding_moves(
    board: &[Option<ChessPiece>; 64],
    sq: usize,
    dr: isize,
    df: isize,
    color: Color,
    moves: &mut Vec<ChessMove>,
)
    requires
        sq < 64,
        -1 <= dr <= 1,
        -1 <= df <= 1,
        !(dr == 0 && df == 0),
    ensures
        final(moves)@ == old(moves)@ + slides(board@, color, sq as int, rank_of(sq as int), file_of(sq as int), dr as int, df as int),
{
    let rank = (sq / 8) as isize;
    let file = (sq % 8) as isize;
    let ghost m0 = moves@;
    let ghost b = board@;
    proof {
        reveal(slides);
    }
    let ghost r0 = rank as int;
    let ghost f0 = file as int;
    let mut nr = rank + dr;
    let mut nf = file + df;
    let ghost mut n: int = 1;
    while in_bounds(nr, nf)
        invariant
            b == board@,
            m0 == old(moves)@,
            sq < 64,
            r0 == rank_of(sq as int),
            f0 == file_of(sq as int),
            on_board(r0, f0),
            -1 <= dr <= 1,
            -1 <= df <= 1,
            !(dr == 0 && df == 0),
            1 <= n <= 8,
            nr == r0 + steps(n, dr as int),
            nf == f0 + steps(n, df as int),
            moves@ + slide_from(b, color, sq as int, r0, f0, dr as int, df as int, n)
                == m0 + slide_from(b, color, sq as int, r0, f0, dr as int, df as int, 1),
        decreases 8 - n,
    {
        let i = idx(nr, nf);
        assert(i == ray_sq(r0, f0, dr as int, df as int, n));
        assert(n < 8);
        match board[i] {
            None => {
                moves.push(ChessMove::normal(sq, i));
            },
            Some(p) => {
                if p.color != color {
                    moves.push(ChessMove::normal(sq, i));
                }
                assert(moves@ =~= m0 + slide_from(b, color, sq as int, r0, f0, dr as int, df as int, 1));
                proof {
                    reveal(slides);
                }
                return;
            },
        }
        nr = nr + dr;
        nf = nf + df;
        proof {
            n = n + 1;
        }
    }
    assert(slide_from(b, color, sq as int, r0, f0, dr as int, df as int, n) =~= Seq::<ChessMove>::empty());
    assert(moves@ =~= m0 + slide_from(b, color, sq as int, r0, f0, dr as int, df as int, 1));
}

fn push_castling(
    board: &[Option<ChessPiece>; 64],
    sq: usize,
    color: Color,
    castling_rights: &CastlingRights,
    moves: &mut Vec<ChessMove>,
)
    requires
        sq < 64,
    ensures
        final(moves)@ == old(moves)@ + castling_moves(board@, color, *castling_rights, sq as int),
{
    let ghost m0 = moves@;
    if color == Color::White && sq == 60 {
        if castling_rights.white_king_side && board[61].is_none() && board[62].is_none()
            && !is_square_attacked(board, 60, Color::Black) && !is_square_attacked(board, 61, Color::Black)
            && !is_square_attacked(board, 62, Color::Black) {
            moves.push(ChessMove { from: 60, to: 62, promotion: None, is_castling: true, is_en_passant: false });
        }
        if castling_rights.white_queen_side && board[59].is_none() && board[58].is_none() && board[57].is_none()
            && !is_square_attacked(board, 60, Color::Black) && !is_square_attacked(board, 59, Color::Black)
            && !is_square_attacked(board, 58, Color::Black) {
            moves.push(ChessMove { from: 60, to: 58, promotion: None, is_castling: true, is_en_passant: false });
        }
    } else if color == Color::Black && sq == 4 {
        if castling_rights.black_king_side && board[5].is_none() && board[6].is_none()
            && !is_square_attacked(board, 4, Color::White) && !is_square_attacked(board, 5, Color::White)
            && !is_square_attacked(board, 6, Color::White) {
            moves.push(ChessMove { from: 4, to: 6, promotion: None, is_castling: true, is_en_passant: false });
        }
        if castling_rights.black_queen_side && board[3].is_none() && board[2].is_none() && board[1].is_none()
            && !is_square_attacked(board, 4, Color::White) && !is_square_attacked(board, 3, Color::White)
            && !is_square_attacked(board, 2, Color::White) {
            moves.push(ChessMove { from: 4, to: 2, promotion: None, is_castling: true, is_en_passant: false });
        }
    }
    assert(moves@ =~= m0 + castling_moves(board@, color, *castling_rights, sq as int));
}

fn push_bishop(board: &[Option<ChessPiece>; 64], sq: usize, color: Color, moves: &mut Vec<ChessMove>)
    requires
        sq < 64,
    ensures
        final(moves)@ == old(moves)@ + bishop_moves(board@, color, sq as int, rank_of(sq as int), file_of(sq as int)),
{
    let ghost m0 = moves@;
    generate_sliding_moves(board, sq, -1, -1, color, moves);
    generate_sliding_moves(board, sq, -1, 1, color, moves);
    generate_sliding_moves(board, sq, 1, -1, color, moves);
    generate_sliding_moves(board, sq, 1, 1, color, moves);
    assert(moves@ =~= m0 + bishop_moves(board@, color, sq as int, rank_of(sq as int), file_of(sq as int)));
}

fn push_rook(board: &[Option<ChessPiece>; 64], sq: usize, color: Color, moves: &mut Vec<ChessMove>)
    requires
        sq < 64,
    ensures
        final(moves)@ == old(moves)@ + rook_moves(board@, color, sq as int, rank_of(sq as int), file_of(sq as int)),
{
    let ghost m0 = moves@;
    generate_sliding_moves(board, sq, -1, 0, color, moves);
    generate_sliding_moves(board, sq, 1, 0, color, moves);
    generate_sliding_moves(board, sq, 0, -1, color, moves);
    generate_sliding_moves(board, sq, 0, 1, color, moves);
    assert(moves@ =~= m0 + rook_moves(board@, color, sq as int, rank_of(sq as int), file_of(sq as int)));
}

fn push_queen(board: &[Option<ChessPiece>; 64], sq: usize, color: Color, moves: &mut Vec<ChessMove>)
    requires
        sq < 64,
    ensures
        final(moves)@ == old(moves)@ + queen_moves(board@, color, sq as int, rank_of(sq as int), file_of(sq as int)),
{
    let ghost m0 = moves@;
    generate_sliding_moves(board, sq, -1, -1, color, moves);
    generate_sliding_moves(board, sq, -1, 0, color, moves);
    generate_sliding_moves(board, sq, -1, 1, color, moves);
    generate_sliding_moves(board, sq, 0, -1, color, moves);
    generate_sliding_moves(board, sq, 0, 1, color, moves);
    generate_sliding_moves(board, sq, 1, -1, color, moves);
    generate_sliding_moves(board, sq, 1, 0, color, moves);
    generate_sliding_moves(board, sq, 1, 1, color, moves);
    assert(moves@ =~= m0 + queen_moves(board@, color, sq as int, rank_of(sq as int), file_of(sq as int)));
}

fn push_king(board: &[Option<ChessPiece>; 64], sq: usize, color: Color, castling_rights: &CastlingRights, moves: &mut Vec<ChessMove>)
    requires
        sq < 64,
    ensures
        final(moves)@ == old(moves)@ + (leaps_from(board@, color, sq as int, rank_of(sq as int), file_of(sq as int), false, 0)
            + castling_moves(board@, color, *castling_rights, sq as int)),
{
    let ghost m0 = moves@;
    push_leaps(board, sq, color, false, moves);
    push_castling(board, sq, color, castling_rights, moves);
    assert(moves@ =~= m0 + (leaps_from(board@, color, sq as int, rank_of(sq as int), file_of(sq as int), false, 0)
        + castling_moves(board@, color, *castling_rights, sq as int)));
}

fn push_piece_moves(
    board: &[Option<ChessPiece>; 64],
    sq: usize,
    color: Color,
    castling_rights: &CastlingRights,
    en_passant: Option<usize>,
    moves: &mut Vec<ChessMove>,
)
    requires
        sq < 64,
    ensures
        final(moves)@ == old(moves)@ + piece_moves(board@, color, *castling_rights, en_passant, sq as int),
{
    let ghost m0 = moves@;
    let piece = match board[sq] {
        Some(p) => p,
        None => {
            assert(moves@ =~= m0 + piece_moves(board@, color, *castling_rights, en_passant, sq as int));
            return;
        },
    };
    if piece.color != color {
        assert(moves@ =~= m0 + piece_moves(board@, color, *castling_rights, en_passant, sq as int));
        return;
    }
    match piece.piece_type {
        PieceType::Pawn => push_pawn_moves(board, sq, color, en_passant, moves),
        PieceType::Knight => push_leaps(board, sq, color, true, moves),
        PieceType::Bishop => push_bishop(board, sq, color, moves),
        PieceType::Rook => push_rook(board, sq, color, moves),
        PieceType::Queen => push_queen(board, sq, color, moves),
        PieceType::King => push_king(board, sq, color, castling_rights, moves),
    }
}

/// Generate pseudo-legal moves (before filtering for check).
fn generate_pseudo_legal_moves(
    board: &[Option<ChessPiece>; 64],
    color: Color,
    castling_rights: &CastlingRights,
    en_passant: Option<usize>,
) -> (r: Vec<ChessMove>)
    ensures
        r@ == pseudo_moves(board@, color, *castling_rights, en_passant),
{
    let mut moves: Vec<ChessMove> = Vec::new();
    let mut sq: usize = 0;
    while sq < 64
        invariant
            sq <= 64,
            moves@ == pseudo_upto(board@, color, *castling_rights, en_passant, sq as int),
        decreases 64 - sq,
    {
        push_piece_moves(board, sq, color, castling_rights, en_passant, &mut moves);
        sq = sq + 1;
    }
    moves
}

// ---------------------------------------------------------------------------
// Every generated move starts on a square of the mover and ends on the board

pub open spec fn moves_from(s: Seq<ChessMove>, sq: int) -> bool {
    forall|k: int| 0 <= k < s.len() ==> (#[trigger] s[k]).from == sq && s[k].to < 64
}

proof fn lemma_moves_from_add(a: Seq<ChessMove>, b: Seq<ChessMove>, sq: int)
    requires
        moves_from(a, sq),
        moves_from(b, sq),
    ensures
        moves_from(a + b, sq),
{
    assert forall|k: int| 0 <= k < (a + b).len() implies (#[trigger] (a + b)[k]).from == sq && (a + b)[k].to < 64 by {
        if k < a.len() {
            assert((a + b)[k] == a[k]);
        } else {
            assert((a + b)[k] == b[k - a.len()]);
        }
    }
}

proof fn lemma_slide_from_shape(b: Seq<Option<ChessPiece>>, c: Color, sq: int, r: int, f: int, dr: int, df: int, n: int)
    requires
        0 <= sq < 64,
    ensures
        moves_from(slide_from(b, c, sq, r, f, dr, df, n), sq),
    decreases 8 - n,
{
    if !(n < 1 || n >= 8 || !ray_on(r, f, dr, df, n)) {
        lemma_slide_from_shape(b, c, sq, r, f, dr, df, n + 1);
        let t = ray_sq(r, f, dr, df, n);
        lemma_moves_from_add(seq![normal_move(sq, t)], slide_from(b, c, sq, r, f, dr, df, n + 1), sq);
    }
}

proof fn lemma_slides_shape(b: Seq<Option<ChessPiece>>, c: Color, sq: int, r: int, f: int, dr: int, df: int)
    requires
        0 <= sq < 64,
    ensures
        moves_from(slides(b, c, sq, r, f, dr, df), sq),
{
    reveal(slides);
    lemma_slide_from_shape(b, c, sq, r, f, dr, df, 1);
}

proof fn lemma_leaps_shape(b: Seq<Option<ChessPiece>>, c: Color, sq: int, r: int, f: int, knight: bool, k: int)
    requires
        0 <= sq < 64,
    ensures
        moves_from(leaps_from(b, c, sq, r, f, knight, k), sq),
    decreases 8 - k,
{
    if 0 <= k < 8 {
        lemma_leaps_shape(b, c, sq, r, f, knight, k + 1);
        lemma_moves_from_add(leap(b, c, sq, r, f, knight, k), leaps_from(b, c, sq, r, f, knight, k + 1), sq);
    }
}

proof fn lemma_piece_moves_shape(b: Seq<Option<ChessPiece>>, c: Color, cr: CastlingRights, ep: Option<usize>, sq: int)
    requires
        0 <= sq < 64,
    ensures
        moves_from(piece_moves(b, c, cr, ep, sq), sq),
{
    let r = rank_of(sq);
    let f = file_of(sq);
    if b[sq] is Some && b[sq]->0.color == c {
        match b[sq]->0.piece_type {
            PieceType::Pawn => {
                let a = pawn_pushes(b, c, sq, r, f);
                let x = pawn_capture(b, c, ep, sq, r, f, -1);
                let y = pawn_capture(b, c, ep, sq, r, f, 1);
                assert(moves_from(a, sq));
                assert(moves_from(x, sq));
                assert(moves_from(y, sq));
                lemma_moves_from_add(a, x, sq);
                lemma_moves_from_add(a + x, y, sq);
            },
            PieceType::Knight => {
                lemma_leaps_shape(b, c, sq, r, f, true, 0);
            },
            PieceType::Bishop => {
                lemma_slides_shape(b, c, sq, r, f, -1, -1);
                lemma_slides_shape(b, c, sq, r, f, -1, 1);
                lemma_slides_shape(b, c, sq, r, f, 1, -1);
                lemma_slides_shape(b, c, sq, r, f, 1, 1);
                lemma_moves_from_add(slides(b, c, sq, r, f, -1, -1), slides(b, c, sq, r, f, -1, 1), sq);
                lemma_moves_from_add(slides(b, c, sq, r, f, -1, -1) + slides(b, c, sq, r, f, -1, 1), slides(b, c, sq, r, f, 1, -1), sq);
                lemma_moves_from_add(slides(b, c, sq, r, f, -1, -1) + slides(b, c, sq, r, f, -1, 1) + slides(b, c, sq, r, f, 1, -1),
                    slides(b, c, sq, r, f, 1, 1), sq);
            },
            PieceType::Rook => {
                lemma_slides_shape(b, c, sq, r, f, -1, 0);
                lemma_slides_shape(b, c, sq, r, f, 1, 0);
                lemma_slides_shape(b, c, sq, r, f, 0, -1);
                lemma_slides_shape(b, c, sq, r, f, 0, 1);
                lemma_moves_from_add(slides(b, c, sq, r, f, -1, 0), slides(b, c, sq, r, f, 1, 0), sq);
                lemma_moves_from_add(slides(b, c, sq, r, f, -1, 0) + slides(b, c, sq, r, f, 1, 0), slides(b, c, sq, r, f, 0, -1), sq);
                lemma_moves_from_add(slides(b, c, sq, r, f, -1, 0) + slides(b, c, sq, r, f, 1, 0) + slides(b, c, sq, r, f, 0, -1),
                    slides(b, c, sq, r, f, 0, 1), sq);
            },
            PieceType::Queen => {
                let s1 = slides(b, c, sq, r, f, -1, -1);
                let s2 = slides(b, c, sq, r, f, -1, 0);
                let s3 = slides(b, c, sq, r, f, -1, 1);
                let s4 = slides(b, c, sq, r, f, 0, -1);
                let s5 = slides(b, c, sq, r, f, 0, 1);
                let s6 = slides(b, c, sq, r, f, 1, -1);
                let s7 = slides(b, c, sq, r, f, 1, 0);
                let s8 = slides(b, c, sq, r, f, 1, 1);
                lemma_slides_shape(b, c, sq, r, f, -1, -1);
                lemma_slides_shape(b, c, sq, r, f, -1, 0);
                lemma_slides_shape(b, c, sq, r, f, -1, 1);
                lemma_slides_shape(b, c, sq, r, f, 0, -1);
                lemma_slides_shape(b, c, sq, r, f, 0, 1);
                lemma_slides_shape(b, c, sq, r, f, 1, -1);
                lemma_slides_shape(b, c, sq, r, f, 1, 0);
                lemma_slides_shape(b, c, sq, r, f, 1, 1);
                lemma_moves_from_add(s1, s2, sq);
                lemma_moves_from_add(s1 + s2, s3, sq);
                lemma_moves_from_add(s1 + s2 + s3, s4, sq);
                lemma_moves_from_add(s1 + s2 + s3 + s4, s5, sq);
                lemma_moves_from_add(s1 + s2 + s3 + s4 + s5, s6, sq);
                lemma_moves_from_add(s1 + s2 + s3 + s4 + s5 + s6, s7, sq);
                lemma_moves_from_add(s1 + s2 + s3 + s4 + s5 + s6 + s7, s8, sq);
            },
            PieceType::King => {
                lemma_leaps_shape(b, c, sq, r, f, false, 0);
                let cm = castling_moves(b, c, cr, sq);
                assert(moves_from(cm, sq));
                lemma_moves_from_add(leaps_from(b, c, sq, r, f, false, 0), cm, sq);
            },
        }
    }
}

/// The move starts on a square holding a piece of `c`, and both of its
/// squares are on the board.
pub open spec fn move_basic(b: Seq<Option<ChessPiece>>, c: Color, m: ChessMove) -> bool {
    &&& m.from < 64
    &&& m.to < 64
    &&& b[m.from as int] is Some
    &&& b[m.from as int]->0.color == c
}

pub proof fn lemma_pseudo_upto_basic(b: Seq<Option<ChessPiece>>, c: Color, cr: CastlingRights, ep: Option<usize>, n: int)
    requires
        0 <= n <= 64,
    ensures
        forall|k: int| 0 <= k < pseudo_upto(b, c, cr, ep, n).len() ==> move_basic(b, c, #[trigger] pseudo_upto(b, c, cr, ep, n)[k]),
    decreases n,
{
    if n > 0 {
        lemma_pseudo_upto_basic(b, c, cr, ep, n - 1);
        lemma_piece_moves_shape(b, c, cr, ep, n - 1);
        let a = pseudo_upto(b, c, cr, ep, n - 1);
        let p = piece_moves(b, c, cr, ep, n - 1);
        assert forall|k: int| 0 <= k < (a + p).len() implies move_basic(b, c, #[trigger] (a + p)[k]) by {
            if k < a.len() {
                assert((a + p)[k] == a[k]);
            } else {
                assert((a + p)[k] == p[k - a.len()]);
                if !(b[n - 1] is Some && b[n - 1]->0.color == c) {
                    assert(p.len() == 0);
                }
            }
        }
    }
}

/// Every pseudo-legal move of `c` moves a piece of `c` within the board.
pub proof fn lemma_pseudo_basic(b: Seq<Option<ChessPiece>>, c: Color, cr: CastlingRights, ep: Option<usize>)
    ensures
        forall|k: int| 0 <= k < pseudo_moves(b, c, cr, ep).len() ==> move_basic(b, c, #[trigger] pseudo_moves(b, c, cr, ep)[k]),
{
    lemma_pseudo_upto_basic(b, c, cr, ep, 64);
}

// ---------------------------------------------------------------------------
// Making a move

pub open spec fn rook_piece(c: Color) -> Option<ChessPiece> {
    Some(ChessPiece { piece_type: PieceType::Rook, color: c })
}

/// What lands on the target square: the mover, or its promotion.
pub open spec fn placed(piece: ChessPiece, mv: ChessMove) -> Option<ChessPiece> {
    match mv.promotion {
        Some(pt) => Some(ChessPiece { piece_type: pt, color: piece.color }),
        None => Some(piece),
    }
}

/// Board after `mv`: the en passant victim is removed, a castling rook
/// jumps over its king, and the mover (or its promotion) goes to `mv.to`.
pub open spec fn apply_board(b: Seq<Option<ChessPiece>>, mv: ChessMove) -> Seq<Option<ChessPiece>> {
    let piece = b[mv.from as int]->0;
    let b1 = if mv.is_en_passant {
        b.update(rank_of(mv.from as int) * 8 + file_of(mv.to as int), None)
    } else {
        b
    };
    let b2 = if mv.is_castling {
        if mv.to == 62 {
            b1.update(63, None).update(61, rook_piece(Color::White))
        } else if mv.to == 58 {
            b1.update(56, None).update(59, rook_piece(Color::White))
        } else if mv.to == 6 {
            b1.update(7, None).update(5, rook_piece(Color::Black))
        } else if mv.to == 2 {
            b1.update(0, None).update(3, rook_piece(Color::Black))
        } else {
            b1
        }
    } else {
        b1
    };
    b2.update(mv.from as int, None).update(mv.to as int, placed(piece, mv))
}

pub open spec fn rights(wk: bool, wq: bool, bk: bool, bq: bool) -> CastlingRights {
    CastlingRights { white_king_side: wk, white_queen_side: wq, black_king_side: bk, black_queen_side: bq }
}

/// A move from or to a corner square loses the right to castle with that corner's rook.
pub open spec fn clear_corner(cr: CastlingRights, s: int) -> CastlingRights {
    if s == 56 {
        rights(cr.white_king_side, false, cr.black_king_side, cr.black_queen_side)
    } else if s == 63 {
        rights(false, cr.white_queen_side, cr.black_king_side, cr.black_queen_side)
    } else if s == 0 {
        rights(cr.white_king_side, cr.white_queen_side, cr.black_king_side, false)
    } else if s == 7 {
        rights(cr.white_king_side, cr.white_queen_side, false, cr.black_queen_side)
    } else {
        cr
    }
}

/// Castling rights after `mv`: a king move loses both of its side's rights.
pub open spec fn apply_rights(b: Seq<Option<ChessPiece>>, mv: ChessMove, cr: CastlingRights) -> CastlingRights {
    let piece = b[mv.from as int]->0;
    let cr1 = if piece.piece_type == PieceType::King {
        if piece.color == Color::White {
            rights(false, false, cr.black_king_side, cr.black_queen_side)
        } else {
            rights(cr.white_king_side, cr.white_queen_side, false, false)
        }
    } else {
        cr
    };
    clear_corner(clear_corner(cr1, mv.from as int), mv.to as int)
}

/// En passant target after `mv`: the square a pawn skipped with a double step.
pub open spec fn apply_ep(b: Seq<Option<ChessPiece>>, mv: ChessMove) -> Option<usize> {
    let piece = b[mv.from as int]->0;
    let fr = rank_of(mv.from as int);
    let tr = rank_of(mv.to as int);
    if piece.piece_type == PieceType::Pawn && (fr - tr == 2 || tr - fr == 2) {
        Some(((mv.from + mv.to) / 2) as usize)
    } else {
        None
    }
}

/// Apply a move and return (new_board, new_castling_rights, new_en_passant_target).
pub fn apply_move(
    board: &[Option<ChessPiece>; 64],
    mv: &ChessMove,
    castling_rights: &CastlingRights,
    _en_passant: Option<usize>,
) -> (r: ([Option<ChessPiece>; 64], CastlingRights, Option<usize>))
    requires
        mv.from < 64,
        mv.to < 64,
        board@[mv.from as int] is Some,
    ensures
        r.0@ == apply_board(board@, *mv),
        r.1 == apply_rights(board@, *mv, *castling_rights),
        r.2 == apply_ep(board@, *mv),
{
    let mut new_board = *board;
    let mut new_cr = *castling_rights;
    let mut new_ep: Option<usize> = None;
    let ghost b = board@;

    let piece = board[mv.from].unwrap();

    if mv.is_en_passant {
        let captured_rank = mv.from / 8;
        let captured_file = mv.to % 8;
        new_board[captured_rank * 8 + captured_file] = None;
    }
    let ghost b1 = new_board@;

    if mv.is_castling {
        match mv.to {
            62 => {
                new_board[63] = None;
                new_board[61] = Some(ChessPiece::new(PieceType::Rook, Color::White));
            },
            58 => {
                new_board[56] = None;
                new_board[59] = Some(ChessPiece::new(PieceType::Rook, Color::White));
            },
            6 => {
                new_board[7] = None;
                new_board[5] = Some(ChessPiece::new(PieceType::Rook, Color::Black));
            },
            2 => {
                new_board[0] = None;
                new_board[3] = Some(ChessPiece::new(PieceType::Rook, Color::Black));
            },
            _ => {},
        }
    }

    new_board[mv.from] = None;
    if let Some(promo) = mv.promotion {
        new_board[mv.to] = Some(ChessPiece::new(promo, piece.color));
    } else {
        new_board[mv.to] = Some(piece);
    }
    assert(new_board@ =~= apply_board(b, *mv));

    if piece.piece_type == PieceType::Pawn {
        let from_rank = mv.from / 8;
        let to_rank = mv.to / 8;
        let diff = if from_rank >= to_rank { from_rank - to_rank } else { to_rank - from_rank };
        if diff == 2 {
            new_ep = Some((mv.from + mv.to) / 2);
        }
    }

    if piece.piece_type == PieceType::King {
        match piece.color {
            Color::White => {
                new_cr.white_king_side = false;
                new_cr.white_queen_side = false;
            },
            Color::Black => {
                new_cr.black_king_side = false;
                new_cr.black_queen_side = false;
            },
        }
    }
    match mv.from {
        56 => new_cr.white_queen_side = false,
        63 => new_cr.white_king_side = false,
        0 => new_cr.black_queen_side = false,
        7 => new_cr.black_king_side = false,
        _ => {},
    }
    match mv.to {
        56 => new_cr.white_queen_side = false,
        63 => new_cr.white_king_side = false,
        0 => new_cr.black_queen_side = false,
        7 => new_cr.black_king_side = false,
        _ => {},
    }

    (new_board, new_cr, new_ep)
}

// ---------------------------------------------------------------------------
// Legal moves

/// The moves of `s`, in order, after which the king of `c` is not attacked.
pub open spec fn legal_filter(b: Seq<Option<ChessPiece>>, c: Color, s: Seq<ChessMove>) -> Seq<ChessMove>
    decreases s.len(),
{
    if s.len() == 0 {
        Seq::empty()
    } else {
        legal_filter(b, c, s.drop_last()) + (if !in_check(apply_board(b, s.last()), c) {
            seq![s.last()]
        } else {
            Seq::empty()
        })
    }
}

/// Legal moves: the pseudo-legal moves that do not leave the mover's king
/// attacked, in generation order.
pub open spec fn legal_moves(b: Seq<Option<ChessPiece>>, c: Color, cr: CastlingRights, ep: Option<usize>) -> Seq<ChessMove> {
    legal_filter(b, c, pseudo_moves(b, c, cr, ep))
}

/// After every pseudo-legal move of `c`, `c` still has a king (so that the
/// check test has a king to look at).
pub open spec fn king_survives(b: Seq<Option<ChessPiece>>, c: Color, cr: CastlingRights, ep: Option<usize>) -> bool {
    forall|k: int|
        0 <= k < pseudo_moves(b, c, cr, ep).len() ==> has_king(apply_board(b, #[trigger] pseudo_moves(b, c, cr, ep)[k]), c)
}

/// Generate all legal moves (filters out moves that leave own king in check).
pub fn generate_legal_moves(
    board: &[Option<ChessPiece>; 64],
    color: Color,
    castling_rights: &CastlingRights,
    en_passant: Option<usize>,
) -> (r: Vec<ChessMove>)
    requires
        king_survives(board@, color, *castling_rights, en_passant),
    ensures
        r@ == legal_moves(board@, color, *castling_rights, en_passant),
{
    let pseudo = generate_pseudo_legal_moves(board, color, castling_rights, en_passant);
    let ghost ps = pseudo@;
    proof {
        lemma_pseudo_basic(board@, color, *castling_rights, en_passant);
    }
    let mut legal: Vec<ChessMove> = Vec::new();
    let mut i: usize = 0;
    while i < pseudo.len()
        invariant
            ps == pseudo@,
            ps == pseudo_moves(board@, color, *castling_rights, en_passant),
            king_survives(board@, color, *castling_rights, en_passant),
            forall|k: int| 0 <= k < ps.len() ==> move_basic(board@, color, #[trigger] ps[k]),
            i <= ps.len(),
            legal@ == legal_filter(board@, color, ps.take(i as int)),
        decreases ps.len() - i,
    {
        let mv = pseudo[i];
        assert(move_basic(board@, color, ps[i as int]));
        assert(has_king(apply_board(board@, ps[i as int]), color));
        let (new_board, _, _) = apply_move(board, &mv, castling_rights, en_passant);
        if !is_in_check(&new_board, color) {
            legal.push(mv);
        }
        assert(ps.take(i + 1).drop_last() =~= ps.take(i as int));
        i = i + 1;
    }
    assert(ps.take(ps.len() as int) =~= ps);
    legal
}

/// The side to move is in check and has no legal move.
pub fn is_checkmate(board: &[Option<ChessPiece>; 64], color: Color, cr: &CastlingRights, ep: Option<usize>) -> (r: bool)
    requires
        has_king(board@, color),
        in_check(board@, color) ==> king_survives(board@, color, *cr, ep),
    ensures
        r == (in_check(board@, color) && legal_moves(board@, color, *cr, ep).len() == 0),
{
    is_in_check(board, color) && generate_legal_moves(board, color, cr, ep).is_empty()
}

/// The side to move is not in check and has no legal move.
pub fn is_stalemate(board: &[Option<ChessPiece>; 64], color: Color, cr: &CastlingRights, ep: Option<usize>) -> (r: bool)
    requires
        has_king(board@, color),
        !in_check(board@, color) ==> king_survives(board@, color, *cr, ep),
    ensures
        r == (!in_check(board@, color) && legal_moves(board@, color, *cr, ep).len() == 0),
{
    !is_in_check(board, color) && generate_legal_moves(board, color, cr, ep).is_empty()
}

} // verus!
