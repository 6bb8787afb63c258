use vstd::prelude::*;
use super::{CastlingRights, ChessPiece, Color, PieceType, other};
use super::moves::{ChessMove, apply_move, generate_legal_moves, is_checkmate, is_stalemate, apply_board,
    apply_rights, apply_ep, legal_moves, in_check, has_king, king_survives, move_basic, pseudo_moves,
    legal_filter, lemma_pseudo_basic};

verus! {

pub open spec fn piece_value_of(pt: PieceType) -> int {
    match pt {
        PieceType::Pawn => 100,
        PieceType::Knight => 320,
        PieceType::Bishop => 330,
        PieceType::Rook => 500,
        PieceType::Queen => 900,
        PieceType::King => 20000,
    }
}

fn piece_value(pt: PieceType) -> (r: i32)
    ensures
        r == piece_value_of(pt),
        100 <= r <= 20000,
{
    match pt {
        PieceType::Pawn => 100,
        PieceType::Knight => 320,
        PieceType::Bishop => 330,
        PieceType::Rook => 500,
        PieceType::Queen => 900,
        PieceType::King => 20000,
    }
}

/// Piece-square table of the pawn, from White's side (index 0 = a8).
pub open spec fn pawn_table() -> Seq<int> {
    seq![
        0, 0, 0, 0, 0, 0, 0, 0,
        50, 50, 50, 50, 50, 50, 50, 50,
        10, 10, 20, 30, 30, 20, 10, 10,
        5, 5, 10, 25, 25, 10, 5, 5,
        0, 0, 0, 20, 20, 0, 0, 0,
        5, -5, -10, 0, 0, -10, -5, 5,
        5, 10, 10, -20, -20, 10, 10, 5,
        0, 0, 0, 0, 0, 0, 0, 0
    ]
}

fn pawn_pst(sq: usize) -> (r: i32)
    requires
        sq < 64,
    ensures
        r == pawn_table()[sq as int],
        -50 <= r <= 50,
{
    let t: [i32; 64] = [
        0, 0, 0, 0, 0, 0, 0, 0,
        50, 50, 50, 50, 50, 50, 50, 50,
        10, 10, 20, 30, 30, 20, 10, 10,
        5, 5, 10, 25, 25, 10, 5, 5,
        0, 0, 0, 20, 20, 0, 0, 0,
        5, -5, -10, 0, 0, -10, -5, 5,
        5, 10, 10, -20, -20, 10, 10, 5,
        0, 0, 0, 0, 0, 0, 0, 0
    ];
    proof {
        assert(t@ =~= seq![
        0i32, 0i32, 0i32, 0i32, 0i32, 0i32, 0i32, 0i32,
        50i32, 50i32, 50i32, 50i32, 50i32, 50i32, 50i32, 50i32,
        10i32, 10i32, 20i32, 30i32, 30i32, 20i32, 10i32, 10i32,
        5i32, 5i32, 10i32, 25i32, 25i32, 10i32, 5i32, 5i32,
        0i32, 0i32, 0i32, 20i32, 20i32, 0i32, 0i32, 0i32,
        5i32, -5i32, -10i32, 0i32, 0i32, -10i32, -5i32, 5i32,
        5i32, 10i32, 10i32, -20i32, -20i32, 10i32, 10i32, 5i32,
        0i32, 0i32, 0i32, 0i32, 0i32, 0i32, 0i32, 0i32
        ]);
    }
    t[sq]
}

/// Piece-square table of the knight, from White's side (index 0 = a8).
pub open spec fn knight_table() -> Seq<int> {
    seq![
        -50, -40, -30, -30, -30, -30, -40, -50,
        -40, -20, 0, 0, 0, 0, -20, -40,
        -30, 0, 10, 15, 15, 10, 0, -30,
        -30, 5, 15, 20, 20, 15, 5, -30,
        -30, 0, 15, 20, 20, 15, 0, -30,
        -30, 5, 10, 15, 15, 10, 5, -30,
        -40, -20, 0, 5, 5, 0, -20, -40,
        -50, -40, -30, -30, -30, -30, -40, -50
    ]
}

fn knight_pst(sq: usize) -> (r: i32)
    requires
        sq < 64,
    ensures
        r == knight_table()[sq as int],
        -50 <= r <= 50,
{
    let t: [i32; 64] = [
        -50, -40, -30, -30, -30, -30, -40, -50,
        -40, -20, 0, 0, 0, 0, -20, -40,
        -30, 0, 10, 15, 15, 10, 0, -30,
        -30, 5, 15, 20, 20, 15, 5, -30,
        -30, 0, 15, 20, 20, 15, 0, -30,
        -30, 5, 10, 15, 15, 10, 5, -30,
        -40, -20, 0, 5, 5, 0, -20, -40,
        -50, -40, -30, -30, -30, -30, -40, -50
    ];
    proof {
        assert(t@ =~= seq![
        -50i32, -40i32, -30i32, -30i32, -30i32, -30i32, -40i32, -50i32,
        -40i32, -20i32, 0i32, 0i32, 0i32, 0i32, -20i32, -40i32,
        -30i32, 0i32, 10i32, 15i32, 15i32, 10i32, 0i32, -30i32,
        -30i32, 5i32, 15i32, 20i32, 20i32, 15i32, 5i32, -30i32,
        -30i32, 0i32, 15i32, 20i32, 20i32, 15i32, 0i32, -30i32,
        -30i32, 5i32, 10i32, 15i32, 15i32, 10i32, 5i32, -30i32,
        -40i32, -20i32, 0i32, 5i32, 5i32, 0i32, -20i32, -40i32,
        -50i32, -40i32, -30i32, -30i32, -30i32, -30i32, -40i32, -50i32
        ]);
    }
    t[sq]
}

/// Piece-square table of the bishop, from White's side (index 0 = a8).
pub open spec fn bishop_table() -> Seq<int> {
    seq![
        -20, -10, -10, -10, -10, -10, -10, -20,
        -10, 0, 0, 0, 0, 0, 0, -10,
        -10, 0, 10, 10, 10, 10, 0, -10,
        -10, 5, 5, 10, 10, 5, 5, -10,
        -10, 0, 10, 10, 10, 10, 0, -10,
        -10, 10, 10, 10, 10, 10, 10, -10,
        -10, 5, 0, 0, 0, 0, 5, -10,
        -20, -10, -10, -10, -10, -10, -10, -20
    ]
}

fn bishop_pst(sq: usize) -> (r: i32)
    requires
        sq < 64,
    ensures
        r == bishop_table()[sq as int],
        -50 <= r <= 50,
{
    let t: [i32; 64] = [
        -20, -10, -10, -10, -10, -10, -10, -20,
        -10, 0, 0, 0, 0, 0, 0, -10,
        -10, 0, 10, 10, 10, 10, 0, -10,
        -10, 5, 5, 10, 10, 5, 5, -10,
        -10, 0, 10, 10, 10, 10, 0, -10,
        -10, 10, 10, 10, 10, 10, 10, -10,
        -10, 5, 0, 0, 0, 0, 5, -10,
        -20, -10, -10, -10, -10, -10, -10, -20
    ];
    proof {
        assert(t@ =~= seq![
        -20i32, -10i32, -10i32, -10i32, -10i32, -10i32, -10i32, -20i32,
        -10i32, 0i32, 0i32, 0i32, 0i32, 0i32, 0i32, -10i32,
        -10i32, 0i32, 10i32, 10i32, 10i32, 10i32, 0i32, -10i32,
        -10i32, 5i32, 5i32, 10i32, 10i32, 5i32, 5i32, -10i32,
        -10i32, 0i32, 10i32, 10i32, 10i32, 10i32, 0i32, -10i32,
        -10i32, 10i32, 10i32, 10i32, 10i32, 10i32, 10i32, -10i32,
        -10i32, 5i32, 0i32, 0i32, 0i32, 0i32, 5i32, -10i32,
        -20i32, -10i32, -10i32, -10i32, -10i32, -10i32, -10i32, -20i32
        ]);
    }
    t[sq]
}

/// Piece-square table of the rook, from White's side (index 0 = a8).
pub open spec fn rook_table() -> Seq<int> {
    seq![
        0, 0, 0, 0, 0, 0, 0, 0,
        5, 10, 10, 10, 10, 10, 10, 5,
        -5, 0, 0, 0, 0, 0, 0, -5,
        -5, 0, 0, 0, 0, 0, 0, -5,
        -5, 0, 0, 0, 0, 0, 0, -5,
        -5, 0, 0, 0, 0, 0, 0, -5,
        -5, 0, 0, 0, 0, 0, 0, -5,
        0, 0, 0, 5, 5, 0, 0, 0
    ]
}

fn rook_pst(sq: usize) -> (r: i32)
    requires
        sq < 64,
    ensures
        r == rook_table()[sq as int],
        -50 <= r <= 50,
{
    let t: [i32; 64] = [
        0, 0, 0, 0, 0, 0, 0, 0,
        5, 10, 10, 10, 10, 10, 10, 5,
        -5, 0, 0, 0, 0, 0, 0, -5,
        -5, 0, 0, 0, 0, 0, 0, -5,
        -5, 0, 0, 0, 0, 0, 0, -5,
        -5, 0, 0, 0, 0, 0, 0, -5,
        -5, 0, 0, 0, 0, 0, 0, -5,
        0, 0, 0, 5, 5, 0, 0, 0
    ];
    proof {
        assert(t@ =~= seq![
        0i32, 0i32, 0i32, 0i32, 0i32, 0i32, 0i32, 0i32,
        5i32, 10i32, 10i32, 10i32, 10i32, 10i32, 10i32, 5i32,
        -5i32, 0i32, 0i32, 0i32, 0i32, 0i32, 0i32, -5i32,
        -5i32, 0i32, 0i32, 0i32, 0i32, 0i32, 0i32, -5i32,
        -5i32, 0i32, 0i32, 0i32, 0i32, 0i32, 0i32, -5i32,
        -5i32, 0i32, 0i32, 0i32, 0i32, 0i32, 0i32, -5i32,
        -5i32, 0i32, 0i32, 0i32, 0i32, 0i32, 0i32, -5i32,
        0i32, 0i32, 0i32, 5i32, 5i32, 0i32, 0i32, 0i32
        ]);
    }
    t[sq]
}

/// Piece-square table of the queen, from White's side (index 0 = a8).
pub open spec fn queen_table() -> Seq<int> {
    seq![
        -20, -10, -10, -5, -5, -10, -10, -20,
        -10, 0, 0, 0, 0, 0, 0, -10,
        -10, 0, 5, 5, 5, 5, 0, -10,
        -5, 0, 5, 5, 5, 5, 0, -5,
        0, 0, 5, 5, 5, 5, 0, -5,
        -10, 5, 5, 5, 5, 5, 0, -10,
        -10, 0, 5, 0, 0, 0, 0, -10,
        -20, -10, -10, -5, -5, -10, -10, -20
    ]
}

fn queen_pst(sq: usize) -> (r: i32)
    requires
        sq < 64,
    ensures
        r == queen_table()[sq as int],
        -50 <= r <= 50,
{
    let t: [i32; 64] = [
        -20, -10, -10, -5, -5, -10, -10, -20,
        -10, 0, 0, 0, 0, 0, 0, -10,
        -10, 0, 5, 5, 5, 5, 0, -10,
        -5, 0, 5, 5, 5, 5, 0, -5,
        0, 0, 5, 5, 5, 5, 0, -5,
        -10, 5, 5, 5, 5, 5, 0, -10,
        -10, 0, 5, 0, 0, 0, 0, -10,
        -20, -10, -10, -5, -5, -10, -10, -20
    ];
    proof {
        assert(t@ =~= seq![
        -20i32, -10i32, -10i32, -5i32, -5i32, -10i32, -10i32, -20i32,
        -10i32, 0i32, 0i32, 0i32, 0i32, 0i32, 0i32, -10i32,
        -10i32, 0i32, 5i32, 5i32, 5i32, 5i32, 0i32, -10i32,
        -5i32, 0i32, 5i32, 5i32, 5i32, 5i32, 0i32, -5i32,
        0i32, 0i32, 5i32, 5i32, 5i32, 5i32, 0i32, -5i32,
        -10i32, 5i32, 5i32, 5i32, 5i32, 5i32, 0i32, -10i32,
        -10i32, 0i32, 5i32, 0i32, 0i32, 0i32, 0i32, -10i32,
        -20i32, -10i32, -10i32, -5i32, -5i32, -10i32, -10i32, -20i32
        ]);
    }
    t[sq]
}

/// Piece-square table of the king, from White's side (index 0 = a8).
pub open spec fn king_table() -> Seq<int> {
    seq![
        -30, -40, -40, -50, -50, -40, -40, -30,
        -30, -40, -40, -50, -50, -40, -40, -30,
        -30, -40, -40, -50, -50, -40, -40, -30,
        -30, -40, -40, -50, -50, -40, -40, -30,
        -20, -30, -30, -40, -40, -30, -30, -20,
        -10, -20, -20, -20, -20, -20, -20, -10,
        20, 20, 0, 0, 0, 0, 20, 20,
        20, 30, 10, 0, 0, 10, 30, 20
    ]
}

fn king_pst(sq: usize) -> (r: i32)
    requires
        sq < 64,
    ensures
        r == king_table()[sq as int],
        -50 <= r <= 50,
{
    let t: [i32; 64] = [
        -30, -40, -40, -50, -50, -40, -40, -30,
        -30, -40, -40, -50, -50, -40, -40, -30,
        -30, -40, -40, -50, -50, -40, -40, -30,
        -30, -40, -40, -50, -50, -40, -40, -30,
        -20, -30, -30, -40, -40, -30, -30, -20,
        -10, -20, -20, -20, -20, -20, -20, -10,
        20, 20, 0, 0, 0, 0, 20, 20,
        20, 30, 10, 0, 0, 10, 30, 20
    ];
    proof {
        assert(t@ =~= seq![
        -30i32, -40i32, -40i32, -50i32, -50i32, -40i32, -40i32, -30i32,
        -30i32, -40i32, -40i32, -50i32, -50i32, -40i32, -40i32, -30i32,
        -30i32, -40i32, -40i32, -50i32, -50i32, -40i32, -40i32, -30i32,
        -30i32, -40i32, -40i32, -50i32, -50i32, -40i32, -40i32, -30i32,
        -20i32, -30i32, -30i32, -40i32, -40i32, -30i32, -30i32, -20i32,
        -10i32, -20i32, -20i32, -20i32, -20i32, -20i32, -20i32, -10i32,
        20i32, 20i32, 0i32, 0i32, 0i32, 0i32, 20i32, 20i32,
        20i32, 30i32, 10i32, 0i32, 0i32, 10i32, 30i32, 20i32
        ]);
    }
    t[sq]
}

/// Piece-square bonus of a piece of type `pt` on square `sq` (White's view).
pub open spec fn pst_of(pt: PieceType, sq: int) -> int {
    match pt {
        PieceType::Pawn => pawn_table()[sq],
        PieceType::Knight => knight_table()[sq],
        PieceType::Bishop => bishop_table()[sq],
        PieceType::Rook => rook_table()[sq],
        PieceType::Queen => queen_table()[sq],
        PieceType::King => king_table()[sq],
    }
}

fn pst_value(piece_type: PieceType, sq: usize) -> (r: i32)
    requires
        sq < 64,
    ensures
        r == pst_of(piece_type, sq as int),
        -50 <= r <= 50,
{
    match piece_type {
        PieceType::Pawn => pawn_pst(sq),
        PieceType::Knight => knight_pst(sq),
        PieceType::Bishop => bishop_pst(sq),
        PieceType::Rook => rook_pst(sq),
        PieceType::Queen => queen_pst(sq),
        PieceType::King => king_pst(sq),
    }
}

/// Contribution of the content of square `sq`: material plus square bonus,
/// positive for White and negative for Black (Black reads the tables with
/// the ranks mirrored).
pub open spec fn square_score(c: Option<ChessPiece>, sq: int) -> int {
    match c {
        None => 0,
        Some(p) => {
            let pst = if p.color == Color::White {
                pst_of(p.piece_type, sq)
            } else {
                pst_of(p.piece_type, (7 - sq / 8) * 8 + sq % 8)
            };
            if p.color == Color::White {
                piece_value_of(p.piece_type) + pst
            } else {
                -(piece_value_of(p.piece_type) + pst)
            }
        },
    }
}

pub open spec fn eval_upto(b: Seq<Option<ChessPiece>>, n: int) -> int
    decreases n,
{
    if n <= 0 { 0 } else { eval_upto(b, n - 1) + square_score(b[n - 1], n - 1) }
}

/// Static evaluation from White's point of view: the sum of all square scores.
pub open spec fn chess_eval(b: Seq<Option<ChessPiece>>) -> int {
    eval_upto(b, 64)
}

/// Evaluate board from White's perspective. Positive = White winning.
pub fn evaluate(board: &[Option<ChessPiece>; 64]) -> (r: i32)
    ensures
        r == chess_eval(board@),
        -64 * 20050 <= r <= 64 * 20050,
{
    let mut score: i32 = 0;
    let mut sq: usize = 0;
    while sq < 64
        invariant
            sq <= 64,
            score == eval_upto(board@, sq as int),
            -20050 * sq <= score <= 20050 * sq,
        decreases 64 - sq,
    {
        if let Some(piece) = board[sq] {
            let material = piece_value(piece.piece_type);
            let pst = if piece.color == Color::White {
                pst_value(piece.piece_type, sq)
            } else {
                let rank = sq / 8;
                let file = sq % 8;
                let mirrored = (7 - rank) * 8 + file;
                pst_value(piece.piece_type, mirrored)
            };
            match piece.color {
                Color::White => score += material + pst,
                Color::Black => score -= material + pst,
            }
        }
        sq = sq + 1;
    }
    score
}

// ---------------------------------------------------------------------------
// Move ordering: captures by most valuable victim / least valuable attacker,
// promotions, all in a stable descending sort

/// Extra key of every capture, so that captures come before all other moves.
pub open spec fn capture_bonus() -> int {
    20000
}

/// Ordering key of a move: for a capture the bonus plus `10 * victim -
/// attacker` (most valuable victim, least valuable attacker), plus the value
/// of a queen for a promotion.
pub open spec fn order_score(b: Seq<Option<ChessPiece>>, mv: ChessMove) -> int {
    (if b[mv.to as int] is Some {
        capture_bonus() + 10 * piece_value_of(b[mv.to as int]->0.piece_type) - piece_value_of(
            b[mv.from as int]->0.piece_type,
        )
    } else {
        0
    }) + (if mv.promotion is Some { 900int } else { 0 })
}

fn move_order_score(board: &[Option<ChessPiece>; 64], mv: &ChessMove) -> (r: i32)
    requires
        mv.from < 64,
        mv.to < 64,
        board@[mv.to as int] is Some ==> board@[mv.from as int] is Some,
    ensures
        r == order_score(board@, *mv),
{
    let mut score: i32 = 0;
    if let Some(captured) = board[mv.to] {
        let attacker = board[mv.from].unwrap();
        score += 20000 + 10 * piece_value(captured.piece_type) - piece_value(attacker.piece_type);
    }
    if mv.promotion.is_some() {
        score += 900;
    }
    score
}

/// Position at which `m` is inserted into `s` (scanning from `k`): before
/// the first move with a strictly smaller key.
pub open spec fn insert_pos(b: Seq<Option<ChessPiece>>, s: Seq<ChessMove>, m: ChessMove, k: int) -> int
    decreases s.len() - k,
{
    if k < 0 || k >= s.len() {
        s.len() as int
    } else if order_score(b, s[k]) < order_score(b, m) {
        k
    } else {
        insert_pos(b, s, m, k + 1)
    }
}

proof fn lemma_insert_pos_range(b: Seq<Option<ChessPiece>>, s: Seq<ChessMove>, m: ChessMove, k: int)
    requires
        0 <= k <= s.len(),
    ensures
        k <= insert_pos(b, s, m, k) <= s.len(),
    decreases s.len() - k,
{
    if k < s.len() {
        lemma_insert_pos_range(b, s, m, k + 1);
    }
}

/// Moves sorted by decreasing key; moves with equal keys keep their order.
pub open spec fn ordered(b: Seq<Option<ChessPiece>>, s: Seq<ChessMove>) -> Seq<ChessMove>
    decreases s.len(),
{
    if s.len() == 0 {
        s
    } else {
        let t = ordered(b, s.drop_last());
        t.insert(insert_pos(b, t, s.last(), 0), s.last())
    }
}

/// Ordering keeps the moves: same length, and every ordered move is one of the input moves.
pub proof fn lemma_ordered_members(b: Seq<Option<ChessPiece>>, s: Seq<ChessMove>)
    ensures
        ordered(b, s).len() == s.len(),
        forall|k: int| 0 <= k < s.len() ==> s.contains(#[trigger] ordered(b, s)[k]),
    decreases s.len(),
{
    if s.len() > 0 {
        let s0 = s.drop_last();
        lemma_ordered_members(b, s0);
        let t = ordered(b, s0);
        let p = insert_pos(b, t, s.last(), 0);
        lemma_insert_pos_range(b, t, s.last(), 0);
        t.insert_ensures(p, s.last());
        assert forall|k: int| 0 <= k < s.len() implies s.contains(#[trigger] ordered(b, s)[k]) by {
            if k < p {
                assert(s0.contains(t[k]));
                let j = choose|j: int| 0 <= j < s0.len() && s0[j] == t[k];
                assert(s[j] == s0[j]);
            } else if k == p {
                assert(s[s.len() - 1] == s.last());
            } else {
                assert(ordered(b, s)[k] == t[k - 1]);
                assert(s0.contains(t[k - 1]));
                let j = choose|j: int| 0 <= j < s0.len() && s0[j] == t[k - 1];
                assert(s[j] == s0[j]);
            }
        }
    }
}

/// Order moves for better alpha-beta pruning: captures first (MVV-LVA).
fn order_moves(board: &[Option<ChessPiece>; 64], moves: &mut Vec<ChessMove>)
    requires
        forall|k: int| 0 <= k < old(moves)@.len() ==> {
            &&& (#[trigger] old(moves)@[k]).from < 64
            &&& old(moves)@[k].to < 64
            &&& board@[old(moves)@[k].to as int] is Some ==> board@[old(moves)@[k].from as int] is Some
        },
    ensures
        final(moves)@ == ordered(board@, old(moves)@),
        final(moves)@.to_multiset() == old(moves)@.to_multiset(),
        sorted_by_score(board@, final(moves)@),
        captures_first(board@, final(moves)@),
{
    proof {
        lemma_ordered_permutation(board@, moves@);
        lemma_ordered_sorted(board@, moves@);
        lemma_sorted_captures_first(board@, ordered(board@, moves@));
    }
    let ghost m0 = moves@;
    let ghost b = board@;
    let mut sorted: Vec<ChessMove> = Vec::new();
    let mut keys: Vec<i32> = Vec::new();
    let mut i: usize = 0;
    while i < moves.len()
        invariant
            moves@ == m0,
            b == board@,
            forall|k: int| 0 <= k < m0.len() ==> {
                &&& (#[trigger] m0[k]).from < 64
                &&& m0[k].to < 64
                &&& b[m0[k].to as int] is Some ==> b[m0[k].from as int] is Some
            },
            i <= m0.len(),
            sorted@ == ordered(b, m0.take(i as int)),
            keys@.len() == sorted@.len(),
            forall|k: int| 0 <= k < keys@.len() ==> #[trigger] keys@[k] == order_score(b, sorted@[k]),
        decreases m0.len() - i,
    {
        let mv = moves[i];
        let key = move_order_score(board, &mv);
        let mut j: usize = 0;
        while j < sorted.len() && keys[j] >= key
            invariant
                j <= sorted@.len(),
                keys@.len() == sorted@.len(),
                forall|k: int| 0 <= k < keys@.len() ==> #[trigger] keys@[k] == order_score(b, sorted@[k]),
                key == order_score(b, mv),
                insert_pos(b, sorted@, mv, 0) == insert_pos(b, sorted@, mv, j as int),
            decreases sorted@.len() - j,
        {
            j = j + 1;
        }
        let ghost t = sorted@;
        let ghost kt = keys@;
        proof {
            t.insert_ensures(j as int, mv);
            kt.insert_ensures(j as int, key);
        }
        sorted.insert(j, mv);
        keys.insert(j, key);
        proof {
            assert forall|k: int| 0 <= k < keys@.len() implies #[trigger] keys@[k] == order_score(b, sorted@[k]) by {
                if k < j {
                    assert(keys@[k] == kt[k]);
                } else if k > j {
                    assert(keys@[k] == kt[k - 1]);
                    assert(sorted@[k] == t[k - 1]);
                }
            }
            assert(m0.take(i + 1).drop_last() =~= m0.take(i as int));
            assert(m0.take(i + 1).last() == mv);
        }
        i = i + 1;
    }
    proof {
        assert(m0.take(m0.len() as int) =~= m0);
    }
    *moves = sorted;
}

// ---------------------------------------------------------------------------
// Alpha-beta search

/// Value of the alpha-beta search of a chess position: the static
/// evaluation at depth 0; -100000 - depth (maximizing side) or
/// 100000 + depth (minimizing side) when the side to move is mated; 0 on
/// stalemate; otherwise the search over the ordered legal moves.
pub open spec fn chess_search(
    b: Seq<Option<ChessPiece>>,
    c: Color,
    cr: CastlingRights,
    ep: Option<usize>,
    depth: int,
    alpha: int,
    beta: int,
    maximizing: bool,
) -> int
    decreases depth, 1int, 0int,
{
    if depth <= 0 {
        chess_eval(b)
    } else if legal_moves(b, c, cr, ep).len() == 0 {
        if in_check(b, c) {
            if maximizing { -100000 - depth } else { 100000 + depth }
        } else {
            0
        }
    } else {
        chess_search_loop(b, c, cr, ep, depth, ordered(b, legal_moves(b, c, cr, ep)), 0, alpha, beta, maximizing,
            if maximizing { i32::MIN + 1 } else { i32::MAX - 1 })
    }
}

/// The alpha-beta loop over `moves[k..]` with running best `best`; it stops
/// as soon as `beta <= alpha`.
pub open spec fn chess_search_loop(
    b: Seq<Option<ChessPiece>>,
    c: Color,
    cr: CastlingRights,
    ep: Option<usize>,
    depth: int,
    moves: Seq<ChessMove>,
    k: int,
    alpha: int,
    beta: int,
    maximizing: bool,
    best: int,
) -> int
    decreases depth, 0int, moves.len() - k,
{
    if depth <= 0 || k < 0 || k >= moves.len() {
        best
    } else {
        let m = moves[k];
        let e = chess_search(apply_board(b, m), other(c), apply_rights(b, m, cr), apply_ep(b, m), depth - 1, alpha, beta,
            !maximizing);
        if maximizing {
            let nbest = if e > best { e } else { best };
            let nalpha = if e > alpha { e } else { alpha };
            if beta <= nalpha {
                nbest
            } else {
                chess_search_loop(b, c, cr, ep, depth, moves, k + 1, nalpha, beta, maximizing, nbest)
            }
        } else {
            let nbest = if e < best { e } else { best };
            let nbeta = if e < beta { e } else { beta };
            if nbeta <= alpha {
                nbest
            } else {
                chess_search_loop(b, c, cr, ep, depth, moves, k + 1, alpha, nbeta, maximizing, nbest)
            }
        }
    }
}

/// The search to `depth` never reaches a position without a king for the
/// side to move, nor a move that removes the mover's own king.
pub open spec fn search_safe(b: Seq<Option<ChessPiece>>, c: Color, cr: CastlingRights, ep: Option<usize>, depth: int) -> bool
    decreases depth,
{
    depth <= 0 || {
        &&& has_king(b, c)
        &&& king_survives(b, c, cr, ep)
        &&& forall|k: int|
            0 <= k < legal_moves(b, c, cr, ep).len() ==> search_safe(
                apply_board(b, #[trigger] legal_moves(b, c, cr, ep)[k]),
                other(c),
                apply_rights(b, legal_moves(b, c, cr, ep)[k], cr),
                apply_ep(b, legal_moves(b, c, cr, ep)[k]),
                depth - 1,
            )
    }
}

/// Legal moves are pseudo-legal moves.
pub proof fn lemma_legal_filter_members(b: Seq<Option<ChessPiece>>, c: Color, s: Seq<ChessMove>)
    ensures
        forall|k: int| 0 <= k < legal_filter(b, c, s).len() ==> s.contains(#[trigger] legal_filter(b, c, s)[k]),
    decreases s.len(),
{
    if s.len() > 0 {
        let s0 = s.drop_last();
        lemma_legal_filter_members(b, c, s0);
        let a = legal_filter(b, c, s0);
        let l = legal_filter(b, c, s);
        assert forall|k: int| 0 <= k < l.len() implies s.contains(#[trigger] l[k]) by {
            if k < a.len() {
                assert(l[k] == a[k]);
                assert(s0.contains(a[k]));
                let j = choose|j: int| 0 <= j < s0.len() && s0[j] == a[k];
                assert(s[j] == s0[j]);
            } else {
                assert(l[k] == s.last());
                assert(s[s.len() - 1] == s.last());
            }
        }
    }
}

/// Every legal move of `c` moves a piece of `c` within the board.
pub proof fn lemma_legal_basic(b: Seq<Option<ChessPiece>>, c: Color, cr: CastlingRights, ep: Option<usize>)
    ensures
        forall|k: int| 0 <= k < legal_moves(b, c, cr, ep).len() ==> move_basic(b, c, #[trigger] legal_moves(b, c, cr, ep)[k]),
{
    lemma_pseudo_basic(b, c, cr, ep);
    lemma_legal_filter_members(b, c, pseudo_moves(b, c, cr, ep));
    assert forall|k: int| 0 <= k < legal_moves(b, c, cr, ep).len() implies move_basic(b, c, #[trigger] legal_moves(b, c, cr, ep)[k]) by {
        let ps = pseudo_moves(b, c, cr, ep);
        assert(ps.contains(legal_moves(b, c, cr, ep)[k]));
        let j = choose|j: int| 0 <= j < ps.len() && ps[j] == legal_moves(b, c, cr, ep)[k];
        assert(move_basic(b, c, ps[j]));
    }
}

#[verifier::rlimit(50)]
fn alpha_beta(
    board: &[Option<ChessPiece>; 64],
    color: Color,
    cr: &CastlingRights,
    ep: Option<usize>,
    depth: i32,
    alpha: i32,
    beta: i32,
    maximizing: bool,
) -> (r: i32)
    requires
        0 <= depth <= i32::MAX - 100000,
        search_safe(board@, color, *cr, ep, depth as int),
    ensures
        r == chess_search(board@, color, *cr, ep, depth as int, alpha as int, beta as int, maximizing),
    decreases depth,
{
    if depth == 0 {
        return evaluate(board);
    }

    // Terminal node checks
    if is_checkmate(board, color, cr, ep) {
        // The side to move is in checkmate: they lose
        return if maximizing {
            -100000 - depth
        } else {
            100000 + depth
        };
    }
    if is_stalemate(board, color, cr, ep) {
        return 0;
    }

    let mut moves = generate_legal_moves(board, color, cr, ep);
    let ghost legal = moves@;
    proof {
        lemma_legal_basic(board@, color, *cr, ep);
    }
    order_moves(board, &mut moves);
    proof {
        lemma_ordered_members(board@, legal);
    }
    let ghost alpha0 = alpha as int;
    let ghost beta0 = beta as int;
    let mut lo = alpha;
    let mut hi = beta;
    let mut best: i32 = if maximizing { i32::MIN + 1 } else { i32::MAX - 1 };
    let mut k: usize = 0;
    while k < moves.len()
        invariant
            0 < depth <= i32::MAX - 100000,
            search_safe(board@, color, *cr, ep, depth as int),
            legal == legal_moves(board@, color, *cr, ep),
            legal.len() > 0,
            forall|j: int| 0 <= j < legal.len() ==> move_basic(board@, color, #[trigger] legal[j]),
            moves@ == ordered(board@, legal),
            moves@.len() == legal.len(),
            forall|j: int| 0 <= j < legal.len() ==> legal.contains(#[trigger] moves@[j]),
            k <= moves.len(),
            alpha0 == alpha as int,
            beta0 == beta as int,
            chess_search(board@, color, *cr, ep, depth as int, alpha0, beta0, maximizing)
                == chess_search_loop(board@, color, *cr, ep, depth as int, moves@, k as int, lo as int, hi as int, maximizing, best as int),
        decreases moves.len() - k,
    {
        let mv = moves[k];
        proof {
            assert(legal.contains(moves@[k as int]));
            let j = choose|j: int| 0 <= j < legal.len() && legal[j] == mv;
            assert(move_basic(board@, color, legal[j]));
            assert(search_safe(apply_board(board@, legal[j]), other(color), apply_rights(board@, legal[j], *cr),
                apply_ep(board@, legal[j]), depth - 1));
        }
        let (new_board, new_cr, new_ep) = apply_move(board, &mv, cr, ep);
        let eval = alpha_beta(&new_board, color.opposite(), &new_cr, new_ep, depth - 1, lo, hi, !maximizing);
        if maximizing {
            if eval > best {
                best = eval;
            }
            if eval > lo {
                lo = eval;
            }
        } else {
            if eval < best {
                best = eval;
            }
            if eval < hi {
                hi = eval;
            }
        }
        if hi <= lo {
            return best;
        }
        k = k + 1;
    }
    best
}

/// Scan of the root moves: the first move with the strictly best search value
/// (highest for White, lowest for Black).
pub open spec fn chess_best_scan(
    b: Seq<Option<ChessPiece>>,
    turn: Color,
    cr: CastlingRights,
    ep: Option<usize>,
    moves: Seq<ChessMove>,
    k: int,
    best_score: int,
    best_move: Option<ChessMove>,
) -> Option<ChessMove>
    decreases moves.len() - k,
{
    if k < 0 || k >= moves.len() {
        best_move
    } else {
        let m = moves[k];
        let maximizing = turn == Color::White;
        let score = chess_search(apply_board(b, m), other(turn), apply_rights(b, m, cr), apply_ep(b, m), 2,
            i32::MIN + 1, i32::MAX - 1, !maximizing);
        let is_better = if maximizing { score > best_score } else { score < best_score };
        if is_better {
            chess_best_scan(b, turn, cr, ep, moves, k + 1, score, Some(m))
        } else {
            chess_best_scan(b, turn, cr, ep, moves, k + 1, best_score, best_move)
        }
    }
}

/// The move chosen by the computer: `None` without legal moves, otherwise the
/// best root move of a three-ply alpha-beta search over the ordered legal moves.
pub open spec fn best_chess_move(b: Seq<Option<ChessPiece>>, turn: Color, cr: CastlingRights, ep: Option<usize>) -> Option<ChessMove> {
    let legal = legal_moves(b, turn, cr, ep);
    if legal.len() == 0 {
        None
    } else {
        chess_best_scan(b, turn, cr, ep, ordered(b, legal), 0,
            if turn == Color::White { i32::MIN + 1 } else { i32::MAX - 1 }, None)
    }
}

/// The root search of `turn` is safe: after each legal move the rest of the
/// search is safe.
pub open spec fn root_safe(b: Seq<Option<ChessPiece>>, turn: Color, cr: CastlingRights, ep: Option<usize>) -> bool {
    &&& king_survives(b, turn, cr, ep)
    &&& forall|k: int|
        0 <= k < legal_moves(b, turn, cr, ep).len() ==> search_safe(
            apply_board(b, #[trigger] legal_moves(b, turn, cr, ep)[k]),
            other(turn),
            apply_rights(b, legal_moves(b, turn, cr, ep)[k], cr),
            apply_ep(b, legal_moves(b, turn, cr, ep)[k]),
            2,
        )
}

/// Find the best move for the given side using alpha-beta search at depth 3.
pub fn get_best_chess_move(
    board: &[Option<ChessPiece>; 64],
    turn: Color,
    cr: &CastlingRights,
    ep: Option<usize>,
) -> (r: Option<ChessMove>)
    requires
        root_safe(board@, turn, *cr, ep),
    ensures
        r == best_chess_move(board@, turn, *cr, ep),
{
    let mut moves = generate_legal_moves(board, turn, cr, ep);
    if moves.is_empty() {
        return None;
    }
    let ghost legal = moves@;
    proof {
        lemma_legal_basic(board@, turn, *cr, ep);
    }
    order_moves(board, &mut moves);
    proof {
        lemma_ordered_members(board@, legal);
    }

    let maximizing = turn == Color::White;
    let mut best_score = if maximizing { i32::MIN + 1 } else { i32::MAX - 1 };
    let mut best_move: Option<ChessMove> = None;
    let mut k: usize = 0;
    while k < moves.len()
        invariant
            root_safe(board@, turn, *cr, ep),
            legal == legal_moves(board@, turn, *cr, ep),
            legal.len() > 0,
            forall|j: int| 0 <= j < legal.len() ==> move_basic(board@, turn, #[trigger] legal[j]),
            moves@ == ordered(board@, legal),
            moves@.len() == legal.len(),
            forall|j: int| 0 <= j < legal.len() ==> legal.contains(#[trigger] moves@[j]),
            maximizing == (turn == Color::White),
            k <= moves.len(),
            best_chess_move(board@, turn, *cr, ep)
                == chess_best_scan(board@, turn, *cr, ep, moves@, k as int, best_score as int, best_move),
        decreases moves.len() - k,
    {
        let mv = moves[k];
        proof {
            assert(legal.contains(moves@[k as int]));
            let j = choose|j: int| 0 <= j < legal.len() && legal[j] == mv;
            assert(move_basic(board@, turn, legal[j]));
            assert(search_safe(apply_board(board@, legal[j]), other(turn), apply_rights(board@, legal[j], *cr),
                apply_ep(board@, legal[j]), 2));
        }
        let (new_board, new_cr, new_ep) = apply_move(board, &mv, cr, ep);
        let score = alpha_beta(&new_board, turn.opposite(), &new_cr, new_ep, 2, i32::MIN + 1, i32::MAX - 1, !maximizing);
        let is_better = if maximizing { score > best_score } else { score < best_score };
        if is_better {
            best_score = score;
            best_move = Some(mv);
        }
        k = k + 1;
    }
    best_move
}

proof fn lemma_chess_best_scan_member(
    b: Seq<Option<ChessPiece>>,
    turn: Color,
    cr: CastlingRights,
    ep: Option<usize>,
    moves: Seq<ChessMove>,
    k: int,
    best_score: int,
    best_move: Option<ChessMove>,
)
    requires
        0 <= k,
        best_move matches Some(m) ==> moves.contains(m),
    ensures
        chess_best_scan(b, turn, cr, ep, moves, k, best_score, best_move) matches Some(m) ==> moves.contains(m),
    decreases moves.len() - k,
{
    if k < moves.len() {
        let m = moves[k];
        assert(moves.contains(m));
        let maximizing = turn == Color::White;
        let score = chess_search(apply_board(b, m), other(turn), apply_rights(b, m, cr), apply_ep(b, m), 2,
            i32::MIN + 1, i32::MAX - 1, !maximizing);
        let is_better = if maximizing { score > best_score } else { score < best_score };
        if is_better {
            lemma_chess_best_scan_member(b, turn, cr, ep, moves, k + 1, score, Some(m));
        } else {
            lemma_chess_best_scan_member(b, turn, cr, ep, moves, k + 1, best_score, best_move);
        }
    }
}

/// The computer only chooses legal moves.
pub proof fn lemma_best_chess_move_legal(b: Seq<Option<ChessPiece>>, turn: Color, cr: CastlingRights, ep: Option<usize>)
    ensures
        best_chess_move(b, turn, cr, ep) matches Some(m) ==> legal_moves(b, turn, cr, ep).contains(m),
{
    let legal = legal_moves(b, turn, cr, ep);
    if legal.len() > 0 {
        let o = ordered(b, legal);
        lemma_ordered_members(b, legal);
        lemma_chess_best_scan_member(b, turn, cr, ep, o, 0,
            if turn == Color::White { i32::MIN + 1 } else { i32::MAX - 1 }, None);
        if best_chess_move(b, turn, cr, ep) is Some {
            let m = best_chess_move(b, turn, cr, ep)->0;
            let j = choose|j: int| 0 <= j < o.len() && o[j] == m;
            assert(legal.contains(o[j]));
        }
    }
}

// ---------------------------------------------------------------------------
// The computer always answers when it can move

proof fn lemma_pst_bounds(pt: PieceType, sq: int)
    requires
        0 <= sq < 64,
    ensures
        -50 <= pst_of(pt, sq) <= 50,
{
    match pt {
        PieceType::Pawn => assert(-50 <= pawn_table()[sq] <= 50),
        PieceType::Knight => assert(-50 <= knight_table()[sq] <= 50),
        PieceType::Bishop => assert(-50 <= bishop_table()[sq] <= 50),
        PieceType::Rook => assert(-50 <= rook_table()[sq] <= 50),
        PieceType::Queen => assert(-50 <= queen_table()[sq] <= 50),
        PieceType::King => assert(-50 <= king_table()[sq] <= 50),
    }
}

proof fn lemma_eval_upto_bounds(b: Seq<Option<ChessPiece>>, n: int)
    requires
        0 <= n <= 64,
    ensures
        -20050 * n <= eval_upto(b, n) <= 20050 * n,
    decreases n,
{
    if n > 0 {
        lemma_eval_upto_bounds(b, n - 1);
        let sq = n - 1;
        if b[sq] is Some {
            let p = b[sq]->0;
            lemma_pst_bounds(p.piece_type, sq);
            lemma_pst_bounds(p.piece_type, (7 - sq / 8) * 8 + sq % 8);
        }
    }
}

/// Bound on every value of the search to depth at most 10.
pub open spec fn search_bound() -> int {
    64 * 20050int
}

proof fn lemma_chess_search_bounds(
    b: Seq<Option<ChessPiece>>,
    c: Color,
    cr: CastlingRights,
    ep: Option<usize>,
    depth: int,
    alpha: int,
    beta: int,
    maximizing: bool,
)
    requires
        depth <= 10,
    ensures
        -search_bound() <= chess_search(b, c, cr, ep, depth, alpha, beta, maximizing) <= search_bound(),
    decreases depth, 1int, 0int,
{
    if depth <= 0 {
        lemma_eval_upto_bounds(b, 64);
    } else if legal_moves(b, c, cr, ep).len() != 0 {
        lemma_chess_loop_bounds(b, c, cr, ep, depth, ordered(b, legal_moves(b, c, cr, ep)), 0, alpha, beta,
            maximizing, if maximizing { i32::MIN + 1 } else { i32::MAX - 1 });
        lemma_ordered_members(b, legal_moves(b, c, cr, ep));
    }
}

proof fn lemma_chess_loop_bounds(
    b: Seq<Option<ChessPiece>>,
    c: Color,
    cr: CastlingRights,
    ep: Option<usize>,
    depth: int,
    moves: Seq<ChessMove>,
    k: int,
    alpha: int,
    beta: int,
    maximizing: bool,
    best: int,
)
    requires
        1 <= depth <= 10,
        0 <= k,
        (-search_bound() <= best <= search_bound()) || best == (if maximizing { i32::MIN + 1 } else { i32::MAX - 1 }),
    ensures
        (k < moves.len() || -search_bound() <= best <= search_bound()) ==> -search_bound()
            <= chess_search_loop(b, c, cr, ep, depth, moves, k, alpha, beta, maximizing, best) <= search_bound(),
    decreases depth, 0int, moves.len() - k,
{
    if k < moves.len() {
        let m = moves[k];
        lemma_chess_search_bounds(apply_board(b, m), other(c), apply_rights(b, m, cr), apply_ep(b, m), depth - 1,
            alpha, beta, !maximizing);
        let e = chess_search(apply_board(b, m), other(c), apply_rights(b, m, cr), apply_ep(b, m), depth - 1, alpha,
            beta, !maximizing);
        if maximizing {
            let nbest = if e > best { e } else { best };
            let nalpha = if e > alpha { e } else { alpha };
            lemma_chess_loop_bounds(b, c, cr, ep, depth, moves, k + 1, nalpha, beta, maximizing, nbest);
        } else {
            let nbest = if e < best { e } else { best };
            let nbeta = if e < beta { e } else { beta };
            lemma_chess_loop_bounds(b, c, cr, ep, depth, moves, k + 1, alpha, nbeta, maximizing, nbest);
        }
    }
}

proof fn lemma_chess_best_scan_some(
    b: Seq<Option<ChessPiece>>,
    turn: Color,
    cr: CastlingRights,
    ep: Option<usize>,
    moves: Seq<ChessMove>,
    k: int,
    best_score: int,
    best_move: Option<ChessMove>,
)
    requires
        0 <= k,
        best_move is Some || (k < moves.len() && best_score == (if turn == Color::White { i32::MIN + 1 } else { i32::MAX - 1 })),
    ensures
        chess_best_scan(b, turn, cr, ep, moves, k, best_score, best_move) is Some,
    decreases moves.len() - k,
{
    if k < moves.len() {
        let m = moves[k];
        let maximizing = turn == Color::White;
        lemma_chess_search_bounds(apply_board(b, m), other(turn), apply_rights(b, m, cr), apply_ep(b, m), 2,
            i32::MIN + 1, i32::MAX - 1, !maximizing);
        let score = chess_search(apply_board(b, m), other(turn), apply_rights(b, m, cr), apply_ep(b, m), 2,
            i32::MIN + 1, i32::MAX - 1, !maximizing);
        let is_better = if maximizing { score > best_score } else { score < best_score };
        if is_better {
            lemma_chess_best_scan_some(b, turn, cr, ep, moves, k + 1, score, Some(m));
        } else {
            lemma_chess_best_scan_some(b, turn, cr, ep, moves, k + 1, best_score, best_move);
        }
    }
}

/// The computer chooses a move exactly when the side to move has a legal move.
pub proof fn lemma_best_chess_move_some(b: Seq<Option<ChessPiece>>, turn: Color, cr: CastlingRights, ep: Option<usize>)
    ensures
        best_chess_move(b, turn, cr, ep) is Some <==> legal_moves(b, turn, cr, ep).len() > 0,
{
    let legal = legal_moves(b, turn, cr, ep);
    if legal.len() > 0 {
        lemma_ordered_members(b, legal);
        lemma_chess_best_scan_some(b, turn, cr, ep, ordered(b, legal), 0,
            if turn == Color::White { i32::MIN + 1 } else { i32::MAX - 1 }, None);
    }
}

// ---------------------------------------------------------------------------
// Move ordering sorts

proof fn lemma_insert_pos_props(b: Seq<Option<ChessPiece>>, s: Seq<ChessMove>, m: ChessMove, k: int)
    requires
        0 <= k <= s.len(),
    ensures
        forall|j: int| k <= j < insert_pos(b, s, m, k) ==> order_score(b, #[trigger] s[j]) >= order_score(b, m),
        insert_pos(b, s, m, k) < s.len() ==> order_score(b, s[insert_pos(b, s, m, k)]) < order_score(b, m),
    decreases s.len() - k,
{
    if k < s.len() {
        lemma_insert_pos_props(b, s, m, k + 1);
    }
}

/// The moves of `s` come in order of non-increasing key.
pub open spec fn sorted_by_score(b: Seq<Option<ChessPiece>>, s: Seq<ChessMove>) -> bool {
    forall|i: int, j: int| 0 <= i < j < s.len() ==> order_score(b, #[trigger] s[i]) >= order_score(b, #[trigger] s[j])
}

/// Move ordering puts the moves in order of non-increasing key: the most
/// valuable captures by the cheapest pieces come first.
pub proof fn lemma_ordered_sorted(b: Seq<Option<ChessPiece>>, s: Seq<ChessMove>)
    ensures
        sorted_by_score(b, ordered(b, s)),
    decreases s.len(),
{
    if s.len() > 0 {
        let s0 = s.drop_last();
        let m = s.last();
        lemma_ordered_sorted(b, s0);
        let t = ordered(b, s0);
        let p = insert_pos(b, t, m, 0);
        lemma_insert_pos_range(b, t, m, 0);
        lemma_insert_pos_props(b, t, m, 0);
        t.insert_ensures(p, m);
        let u = ordered(b, s);
        assert(u == t.insert(p, m));
        assert forall|i: int, j: int| 0 <= i < j < u.len() implies order_score(b, #[trigger] u[i]) >= order_score(
            b,
            #[trigger] u[j],
        ) by {
            if j < p {
                assert(u[i] == t[i] && u[j] == t[j]);
            } else if j == p {
                assert(u[i] == t[i]);
            } else if i < p {
                assert(u[i] == t[i] && u[j] == t[j - 1]);
            } else if i == p {
                assert(u[j] == t[j - 1]);
                assert(order_score(b, t[p]) < order_score(b, m));
                if j - 1 > p {
                    assert(order_score(b, t[p]) >= order_score(b, t[j - 1]));
                }
            } else {
                assert(u[i] == t[i - 1] && u[j] == t[j - 1]);
            }
        }
    }
}

// ---------------------------------------------------------------------------
// The evaluation takes White's side

/// The board seen from the other side: ranks mirrored and colours swapped.
pub open spec fn flipped(b: Seq<Option<ChessPiece>>) -> Seq<Option<ChessPiece>> {
    Seq::new(
        64,
        |i: int|
            match b[(7 - i / 8) * 8 + i % 8] {
                Some(p) => Some(ChessPiece { piece_type: p.piece_type, color: other(p.color) }),
                None => None,
            },
    )
}

/// Sum of the square scores of the first `c` squares of rank `r`.
pub open spec fn cols_upto(b: Seq<Option<ChessPiece>>, r: int, c: int) -> int
    decreases c,
{
    if c <= 0 { 0 } else { cols_upto(b, r, c - 1) + square_score(b[8 * r + c - 1], 8 * r + c - 1) }
}

/// Sum of the square scores of the first `r` ranks.
pub open spec fn rows_upto(b: Seq<Option<ChessPiece>>, r: int) -> int
    decreases r,
{
    if r <= 0 { 0 } else { rows_upto(b, r - 1) + cols_upto(b, r - 1, 8) }
}

proof fn lemma_eval_by_rows(b: Seq<Option<ChessPiece>>, r: int, c: int)
    requires
        0 <= r,
        0 <= c <= 8,
    ensures
        eval_upto(b, 8 * r + c) == rows_upto(b, r) + cols_upto(b, r, c),
    decreases r, c,
{
    if c == 0 {
        if r > 0 {
            lemma_eval_by_rows(b, r - 1, 8);
        }
    } else {
        lemma_eval_by_rows(b, r, c - 1);
    }
}

proof fn lemma_flipped_cols(b: Seq<Option<ChessPiece>>, r: int, c: int)
    requires
        0 <= r < 8,
        0 <= c <= 8,
    ensures
        cols_upto(flipped(b), r, c) == -cols_upto(b, 7 - r, c),
    decreases c,
{
    if c > 0 {
        lemma_flipped_cols(b, r, c - 1);
        let i = 8 * r + c - 1;
        let j = 8 * (7 - r) + c - 1;
        assert(i / 8 == r && i % 8 == c - 1);
        assert(j / 8 == 7 - r && j % 8 == c - 1);
        assert((7 - i / 8) * 8 + i % 8 == j);
        assert((7 - j / 8) * 8 + j % 8 == i);
        assert(flipped(b)[i] == (match b[j] {
            Some(p) => Some(ChessPiece { piece_type: p.piece_type, color: other(p.color) }),
            None => None,
        }));
    }
}

/// Evaluation is from White's side: seen from the other side, the board
/// evaluates to the opposite value.
pub proof fn lemma_eval_flipped(b: Seq<Option<ChessPiece>>)
    ensures
        chess_eval(flipped(b)) == -chess_eval(b),
{
    let f = flipped(b);
    lemma_eval_by_rows(b, 8, 0);
    lemma_eval_by_rows(f, 8, 0);
    lemma_flipped_cols(b, 0, 8);
    lemma_flipped_cols(b, 1, 8);
    lemma_flipped_cols(b, 2, 8);
    lemma_flipped_cols(b, 3, 8);
    lemma_flipped_cols(b, 4, 8);
    lemma_flipped_cols(b, 5, 8);
    lemma_flipped_cols(b, 6, 8);
    lemma_flipped_cols(b, 7, 8);
    reveal_with_fuel(rows_upto, 9);
}

/// Ordering is a permutation: the same moves, each as often.
pub proof fn lemma_ordered_permutation(b: Seq<Option<ChessPiece>>, s: Seq<ChessMove>)
    ensures
        ordered(b, s).to_multiset() == s.to_multiset(),
    decreases s.len(),
{
    if s.len() > 0 {
        let s0 = s.drop_last();
        let m = s.last();
        lemma_ordered_permutation(b, s0);
        let t = ordered(b, s0);
        lemma_ordered_members(b, s0);
        let p = insert_pos(b, t, m, 0);
        lemma_insert_pos_range(b, t, m, 0);
        vstd::seq_lib::to_multiset_insert(t, p, m);
        vstd::seq_lib::to_multiset_build(s0, m);
        assert(s0.push(m) =~= s);
    }
}

/// The move takes a piece.
pub open spec fn is_capture(b: Seq<Option<ChessPiece>>, m: ChessMove) -> bool {
    b[m.to as int] is Some
}

/// Every capture comes before every move that takes nothing.
pub open spec fn captures_first(b: Seq<Option<ChessPiece>>, s: Seq<ChessMove>) -> bool {
    forall|i: int, j: int| 0 <= i < j < s.len() && is_capture(b, #[trigger] s[j]) ==> is_capture(b, #[trigger] s[i])
}

/// A capture's key exceeds the key of any move that takes nothing.
proof fn lemma_capture_key(b: Seq<Option<ChessPiece>>, m: ChessMove)
    ensures
        is_capture(b, m) ==> order_score(b, m) >= 1000,
        !is_capture(b, m) ==> order_score(b, m) <= 900,
{
}

/// Sorted by key, captures come first: any capture outranks every move that
/// takes nothing, whatever the pieces involved (a king taking a pawn too).
pub proof fn lemma_sorted_captures_first(b: Seq<Option<ChessPiece>>, s: Seq<ChessMove>)
    requires
        sorted_by_score(b, s),
    ensures
        captures_first(b, s),
{
    assert forall|i: int, j: int| 0 <= i < j < s.len() && is_capture(b, #[trigger] s[j]) implies is_capture(
        b,
        #[trigger] s[i],
    ) by {
        lemma_capture_key(b, s[i]);
        lemma_capture_key(b, s[j]);
    }
}

// ---------------------------------------------------------------------------
// The computer's choice is best by its search

/// Value by the depth-3 search of playing `m`: the search of the position
/// after `m`, two plies deep, with the other side to move.
pub open spec fn chess_move_value(b: Seq<Option<ChessPiece>>, turn: Color, cr: CastlingRights, ep: Option<usize>, m: ChessMove) -> int {
    chess_search(apply_board(b, m), other(turn), apply_rights(b, m, cr), apply_ep(b, m), 2, i32::MIN + 1,
        i32::MAX - 1, !(turn == Color::White))
}

/// `x` is no better than `y` for `turn`: not higher when `turn` maximises,
/// not lower when it minimises.
pub open spec fn no_better(turn: Color, x: int, y: int) -> bool {
    if turn == Color::White { x <= y } else { x >= y }
}

/// `x` is worse than `y` for `turn`.
pub open spec fn worse(turn: Color, x: int, y: int) -> bool {
    if turn == Color::White { x < y } else { x > y }
}

proof fn lemma_chess_best_scan_best(
    b: Seq<Option<ChessPiece>>, turn: Color, cr: CastlingRights, ep: Option<usize>,
    moves: Seq<ChessMove>,
    k: int,
    best_score: int,
    best_move: Option<ChessMove>,
)
    requires
        0 <= k <= moves.len(),
        forall|j: int| 0 <= j < k ==> no_better(turn, #[trigger] chess_move_value(b, turn, cr, ep, moves[j]), best_score),
        best_move matches Some(m) ==> exists|p: int| {
            &&& 0 <= p < k && #[trigger] moves[p] == m
            &&& chess_move_value(b, turn, cr, ep, m) == best_score
            &&& forall|j: int| 0 <= j < p ==> worse(turn, #[trigger] chess_move_value(b, turn, cr, ep, moves[j]), best_score)
        },
    ensures
        chess_best_scan(b, turn, cr, ep, moves, k, best_score, best_move) matches Some(m) ==> exists|p: int| {
            &&& 0 <= p < moves.len() && #[trigger] moves[p] == m
            &&& forall|j: int| 0 <= j < moves.len() ==> no_better(turn, #[trigger] chess_move_value(b, turn, cr, ep, moves[j]), chess_move_value(b, turn, cr, ep, m))
            &&& forall|j: int| 0 <= j < p ==> worse(turn, #[trigger] chess_move_value(b, turn, cr, ep, moves[j]), chess_move_value(b, turn, cr, ep, m))
        },
    decreases moves.len() - k,
{
    if k < moves.len() {
        let m = moves[k];
        let score = chess_move_value(b, turn, cr, ep, m);
        let is_better = if turn == Color::White { score > best_score } else { score < best_score };
        if is_better {
            assert(moves[k] == m);
            lemma_chess_best_scan_best(b, turn, cr, ep, moves, k + 1, score, Some(m));
        } else {
            lemma_chess_best_scan_best(b, turn, cr, ep, moves, k + 1, best_score, best_move);
        }
    }
}

/// The computer's move has the best depth-3 search value among all legal
/// moves (highest for the maximising side, lowest for the other), and among
/// equally good moves it is the first in move-ordering order.
pub proof fn lemma_best_chess_move_is_best(b: Seq<Option<ChessPiece>>, turn: Color, cr: CastlingRights, ep: Option<usize>)
    ensures
        best_chess_move(b, turn, cr, ep) matches Some(m) ==> {
            &&& legal_moves(b, turn, cr, ep).contains(m)
            &&& forall|m2: ChessMove| legal_moves(b, turn, cr, ep).contains(m2) ==> no_better(turn, #[trigger] chess_move_value(b, turn, cr, ep, m2), chess_move_value(b, turn, cr, ep, m))
            &&& exists|p: int| {
                &&& 0 <= p < ordered(b, legal_moves(b, turn, cr, ep)).len() && #[trigger] ordered(b, legal_moves(b, turn, cr, ep))[p] == m
                &&& forall|j: int| 0 <= j < p ==> worse(turn, #[trigger] chess_move_value(b, turn, cr, ep, ordered(b, legal_moves(b, turn, cr, ep))[j]), chess_move_value(b, turn, cr, ep, m))
            }
        },
{
    let legal = legal_moves(b, turn, cr, ep);
    if legal.len() > 0 {
        let o = ordered(b, legal);
        lemma_chess_best_scan_best(b, turn, cr, ep, o, 0, if turn == Color::White { i32::MIN + 1 } else { i32::MAX - 1 }, None);
        lemma_ordered_permutation(b, legal);
        if best_chess_move(b, turn, cr, ep) is Some {
            let m = best_chess_move(b, turn, cr, ep)->0;
            let p = choose|p: int| {
                &&& 0 <= p < o.len() && #[trigger] o[p] == m
                &&& forall|j: int| 0 <= j < o.len() ==> no_better(turn, #[trigger] chess_move_value(b, turn, cr, ep, o[j]), chess_move_value(b, turn, cr, ep, m))
                &&& forall|j: int| 0 <= j < p ==> worse(turn, #[trigger] chess_move_value(b, turn, cr, ep, o[j]), chess_move_value(b, turn, cr, ep, m))
            };
            assert(o.contains(m)) by { assert(o[p] == m); }
            assert forall|m2: ChessMove| legal.contains(m2) implies no_better(turn, #[trigger] chess_move_value(b, turn, cr, ep, m2), chess_move_value(b, turn, cr, ep, m)) by {
                vstd::seq_lib::to_multiset_contains(legal, m2);
                vstd::seq_lib::to_multiset_contains(o, m2);
                let q = choose|q: int| 0 <= q < o.len() && o[q] == m2;
                assert(no_better(turn, chess_move_value(b, turn, cr, ep, o[q]), chess_move_value(b, turn, cr, ep, m)));
            }
            vstd::seq_lib::to_multiset_contains(legal, m);
            vstd::seq_lib::to_multiset_contains(o, m);
        }
    }
}

// ---------------------------------------------------------------------------
// Alpha-beta gives the minimax value

/// Plain minimax value of a chess position to `depth`, without cut-offs:
/// the static evaluation at depth 0, the mate or stalemate value without
/// legal moves, otherwise the best child value over all legal moves
/// (highest when maximising, lowest otherwise).
pub open spec fn chess_minimax(
    b: Seq<Option<ChessPiece>>,
    c: Color,
    cr: CastlingRights,
    ep: Option<usize>,
    depth: int,
    maximizing: bool,
) -> int
    decreases depth, 1int, 0int,
{
    if depth <= 0 {
        chess_eval(b)
    } else if legal_moves(b, c, cr, ep).len() == 0 {
        if in_check(b, c) {
            if maximizing { -100000 - depth } else { 100000 + depth }
        } else {
            0
        }
    } else {
        chess_minimax_fold(b, c, cr, ep, depth, legal_moves(b, c, cr, ep), 0, maximizing,
            if maximizing { i32::MIN + 1 } else { i32::MAX - 1 })
    }
}

/// Best of `w` and the child values of `moves[k..]`.
pub open spec fn chess_minimax_fold(
    b: Seq<Option<ChessPiece>>,
    c: Color,
    cr: CastlingRights,
    ep: Option<usize>,
    depth: int,
    moves: Seq<ChessMove>,
    k: int,
    maximizing: bool,
    w: int,
) -> int
    decreases depth, 0int, moves.len() - k,
{
    if depth <= 0 || k < 0 || k >= moves.len() {
        w
    } else {
        let m = moves[k];
        let e = chess_minimax(apply_board(b, m), other(c), apply_rights(b, m, cr), apply_ep(b, m), depth - 1, !maximizing);
        chess_minimax_fold(b, c, cr, ep, depth, moves, k + 1, maximizing,
            if maximizing { if e > w { e } else { w } } else { if e < w { e } else { w } })
    }
}

/// The child value of move `m` in the minimax recursion.
pub open spec fn chess_child_minimax(
    b: Seq<Option<ChessPiece>>,
    c: Color,
    cr: CastlingRights,
    ep: Option<usize>,
    depth: int,
    maximizing: bool,
    m: ChessMove,
) -> int {
    chess_minimax(apply_board(b, m), other(c), apply_rights(b, m, cr), apply_ep(b, m), depth - 1, !maximizing)
}

/// `s` is what a fail-soft alpha-beta search may return for minimax value
/// `v` in the window (`alpha`, `beta`): `v` itself inside the window, a
/// value between `v` and the bound outside it.
pub open spec fn window_ok(s: int, v: int, alpha: int, beta: int) -> bool {
    &&& alpha < v < beta ==> s == v
    &&& v <= alpha ==> v <= s <= alpha
    &&& v >= beta ==> beta <= s <= v
}

/// The fold is the best of `w` and the listed child values, and it is one of them.
proof fn lemma_fold_extreme(
    b: Seq<Option<ChessPiece>>,
    c: Color,
    cr: CastlingRights,
    ep: Option<usize>,
    depth: int,
    moves: Seq<ChessMove>,
    k: int,
    maximizing: bool,
    w: int,
)
    requires
        depth >= 1,
        0 <= k <= moves.len(),
    ensures
        ({
            let f = chess_minimax_fold(b, c, cr, ep, depth, moves, k, maximizing, w);
            &&& maximizing ==> f >= w
            &&& !maximizing ==> f <= w
            &&& forall|j: int| k <= j < moves.len() ==> (if maximizing {
                f >= #[trigger] chess_child_minimax(b, c, cr, ep, depth, maximizing, moves[j])
            } else {
                f <= chess_child_minimax(b, c, cr, ep, depth, maximizing, moves[j])
            })
            &&& f == w || exists|j: int| k <= j < moves.len() && f == #[trigger] chess_child_minimax(b, c, cr, ep, depth, maximizing, moves[j])
        }),
    decreases moves.len() - k,
{
    if k < moves.len() {
        let e = chess_child_minimax(b, c, cr, ep, depth, maximizing, moves[k]);
        let w2 = if maximizing { if e > w { e } else { w } } else { if e < w { e } else { w } };
        lemma_fold_extreme(b, c, cr, ep, depth, moves, k + 1, maximizing, w2);
        let f = chess_minimax_fold(b, c, cr, ep, depth, moves, k, maximizing, w);
        if f != w && f != e {
            let j = choose|j: int| k + 1 <= j < moves.len() && f == #[trigger] chess_child_minimax(b, c, cr, ep, depth, maximizing, moves[j]);
            assert(k <= j < moves.len());
        }
        if f == e {
            assert(f == chess_child_minimax(b, c, cr, ep, depth, maximizing, moves[k]));
        }
    }
}

/// Folding over two lists of the same moves gives the same value.
proof fn lemma_fold_same_moves(
    b: Seq<Option<ChessPiece>>,
    c: Color,
    cr: CastlingRights,
    ep: Option<usize>,
    depth: int,
    s: Seq<ChessMove>,
    t: Seq<ChessMove>,
    maximizing: bool,
    w: int,
)
    requires
        depth >= 1,
        forall|m: ChessMove| s.contains(m) <==> t.contains(m),
    ensures
        chess_minimax_fold(b, c, cr, ep, depth, s, 0, maximizing, w) == chess_minimax_fold(b, c, cr, ep, depth, t, 0,
            maximizing, w),
{
    lemma_fold_extreme(b, c, cr, ep, depth, s, 0, maximizing, w);
    lemma_fold_extreme(b, c, cr, ep, depth, t, 0, maximizing, w);
    let fs = chess_minimax_fold(b, c, cr, ep, depth, s, 0, maximizing, w);
    let ft = chess_minimax_fold(b, c, cr, ep, depth, t, 0, maximizing, w);
    if fs != w {
        let j = choose|j: int| 0 <= j < s.len() && fs == #[trigger] chess_child_minimax(b, c, cr, ep, depth, maximizing, s[j]);
        assert(s.contains(s[j]));
        let q = choose|q: int| 0 <= q < t.len() && t[q] == s[j];
        assert(if maximizing { ft >= chess_child_minimax(b, c, cr, ep, depth, maximizing, t[q]) } else { ft <= chess_child_minimax(b, c, cr, ep, depth, maximizing, t[q]) });
    }
    if ft != w {
        let j = choose|j: int| 0 <= j < t.len() && ft == #[trigger] chess_child_minimax(b, c, cr, ep, depth, maximizing, t[j]);
        assert(t.contains(t[j]));
        let q = choose|q: int| 0 <= q < s.len() && s[q] == t[j];
        assert(if maximizing { fs >= chess_child_minimax(b, c, cr, ep, depth, maximizing, s[q]) } else { fs <= chess_child_minimax(b, c, cr, ep, depth, maximizing, s[q]) });
    }
}

/// Alpha-beta with window (`alpha`, `beta`) returns the minimax value when
/// it lies inside the window, and a bound on it otherwise.
pub proof fn lemma_chess_search_window(
    b: Seq<Option<ChessPiece>>,
    c: Color,
    cr: CastlingRights,
    ep: Option<usize>,
    depth: int,
    alpha: int,
    beta: int,
    maximizing: bool,
)
    requires
        i32::MIN + 1 <= alpha < beta <= i32::MAX - 1,
    ensures
        window_ok(chess_search(b, c, cr, ep, depth, alpha, beta, maximizing), chess_minimax(b, c, cr, ep, depth, maximizing),
            alpha, beta),
    decreases depth, 1int, 0int,
{
    if depth > 0 && legal_moves(b, c, cr, ep).len() != 0 {
        let legal = legal_moves(b, c, cr, ep);
        let o = ordered(b, legal);
        let init = if maximizing { i32::MIN + 1 } else { i32::MAX - 1 };
        lemma_chess_loop_window(b, c, cr, ep, depth, o, 0, alpha, beta, maximizing, init, alpha, beta, init);
        lemma_ordered_permutation(b, legal);
        assert forall|m: ChessMove| o.contains(m) <==> legal.contains(m) by {
            vstd::seq_lib::to_multiset_contains(o, m);
            vstd::seq_lib::to_multiset_contains(legal, m);
        }
        lemma_fold_same_moves(b, c, cr, ep, depth, o, legal, maximizing, init);
    }
}

proof fn lemma_chess_loop_window(
    b: Seq<Option<ChessPiece>>,
    c: Color,
    cr: CastlingRights,
    ep: Option<usize>,
    depth: int,
    moves: Seq<ChessMove>,
    k: int,
    alpha: int,
    beta: int,
    maximizing: bool,
    best: int,
    alpha0: int,
    beta0: int,
    w: int,
)
    requires
        depth >= 1,
        0 <= k <= moves.len(),
        i32::MIN + 1 <= alpha0 < beta0 <= i32::MAX - 1,
        maximizing ==> {
            &&& beta == beta0
            &&& w < beta0
            &&& w > alpha0 ==> best == w && alpha == w
            &&& w <= alpha0 ==> w <= best <= alpha0 && alpha == alpha0
        },
        !maximizing ==> {
            &&& alpha == alpha0
            &&& w > alpha0
            &&& w < beta0 ==> best == w && beta == w
            &&& w >= beta0 ==> beta0 <= best <= w && beta == beta0
        },
    ensures
        window_ok(chess_search_loop(b, c, cr, ep, depth, moves, k, alpha, beta, maximizing, best),
            chess_minimax_fold(b, c, cr, ep, depth, moves, k, maximizing, w), alpha0, beta0),
    decreases depth, 0int, moves.len() - k,
{
    if k < moves.len() {
        let m = moves[k];
        let cb = apply_board(b, m);
        let ccr = apply_rights(b, m, cr);
        let cep = apply_ep(b, m);
        lemma_chess_search_window(cb, other(c), ccr, cep, depth - 1, alpha, beta, !maximizing);
        let e = chess_search(cb, other(c), ccr, cep, depth - 1, alpha, beta, !maximizing);
        let v = chess_minimax(cb, other(c), ccr, cep, depth - 1, !maximizing);
        assert(v == chess_child_minimax(b, c, cr, ep, depth, maximizing, m));
        if maximizing {
            let nbest = if e > best { e } else { best };
            let nalpha = if e > alpha { e } else { alpha };
            let w2 = if v > w { v } else { w };
            lemma_fold_extreme(b, c, cr, ep, depth, moves, k + 1, maximizing, w2);
            if beta <= nalpha {
            } else {
                lemma_chess_loop_window(b, c, cr, ep, depth, moves, k + 1, nalpha, beta, maximizing, nbest, alpha0,
                    beta0, w2);
            }
        } else {
            let nbest = if e < best { e } else { best };
            let nbeta = if e < beta { e } else { beta };
            let w2 = if v < w { v } else { w };
            lemma_fold_extreme(b, c, cr, ep, depth, moves, k + 1, maximizing, w2);
            if nbeta <= alpha {
            } else {
                lemma_chess_loop_window(b, c, cr, ep, depth, moves, k + 1, alpha, nbeta, maximizing, nbest, alpha0,
                    beta0, w2);
            }
        }
    }
}

/// With the full window, alpha-beta gives exactly the minimax value.
pub proof fn lemma_chess_search_is_minimax(
    b: Seq<Option<ChessPiece>>,
    c: Color,
    cr: CastlingRights,
    ep: Option<usize>,
    depth: int,
    maximizing: bool,
)
    requires
        depth <= 10,
    ensures
        chess_search(b, c, cr, ep, depth, i32::MIN + 1, i32::MAX - 1, maximizing) == chess_minimax(b, c, cr, ep, depth,
            maximizing),
{
    lemma_chess_search_window(b, c, cr, ep, depth, i32::MIN + 1, i32::MAX - 1, maximizing);
    lemma_chess_search_bounds(b, c, cr, ep, depth, i32::MIN + 1, i32::MAX - 1, maximizing);
}

/// The value by which the computer ranks a chess move is the plain minimax
/// value of the position after it, two plies deep.
pub proof fn lemma_chess_move_value_is_minimax(b: Seq<Option<ChessPiece>>, turn: Color, cr: CastlingRights, ep: Option<usize>, m: ChessMove)
    ensures
        chess_move_value(b, turn, cr, ep, m) == chess_minimax(apply_board(b, m), other(turn), apply_rights(b, m, cr),
            apply_ep(b, m), 2, !(turn == Color::White)),
{
    lemma_chess_search_is_minimax(apply_board(b, m), other(turn), apply_rights(b, m, cr), apply_ep(b, m), 2,
        !(turn == Color::White));
}

} // verus!
