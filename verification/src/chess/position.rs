use vstd::prelude::*;
use super::{CastlingRights, ChessPiece, Color, PieceType, other, initial_cell};
use super::moves::{ChessMove, normal_move, castle_move, on_board, sq_of, rank_of, file_of, is_piece, free_or_enemy,
    steps, ray_on, ray_sq, ray_clear, ray_hits, knight_dr, knight_df, king_dr, king_df, knight_attack,
    king_attack, pawn_attack, attacked_rf, attacked, pawn_dir, start_rank, promo_rank, queen_if, pawn_pushes,
    pawn_capture, pawn_moves, leap, leaps_from, slide_from, slides, bishop_moves, rook_moves, queen_moves,
    castling_moves, piece_moves, pseudo_upto, pseudo_moves, has_king, king_square, lemma_king_square, in_check,
    apply_board, apply_rights, apply_ep, placed, rook_piece, legal_filter, legal_moves, king_survives, king_from};
use super::ai::{search_safe, root_safe, lemma_legal_filter_members};

verus! {

// ---------------------------------------------------------------------------
// Square arithmetic

pub proof fn lemma_sq_of(r: int, f: int)
    requires
        on_board(r, f),
    ensures
        0 <= sq_of(r, f) < 64,
        rank_of(sq_of(r, f)) == r,
        file_of(sq_of(r, f)) == f,
{
}

pub proof fn lemma_rank_file(s: int)
    requires
        0 <= s < 64,
    ensures
        on_board(rank_of(s), file_of(s)),
        sq_of(rank_of(s), file_of(s)) == s,
{
}

// ---------------------------------------------------------------------------
// What every pseudo-legal move satisfies

/// The castling conditions: the right is kept, the squares between king and
/// rook are empty, and neither the king's square nor the two it crosses is
/// attacked; only the four castling moves qualify.
pub open spec fn castle_ok(b: Seq<Option<ChessPiece>>, c: Color, cr: CastlingRights, m: ChessMove) -> bool {
    ||| c == Color::White && m.from == 60 && m.to == 62 && cr.white_king_side && b[61] is None && b[62] is None
        && !attacked(b, 60, Color::Black) && !attacked(b, 61, Color::Black) && !attacked(b, 62, Color::Black)
    ||| c == Color::White && m.from == 60 && m.to == 58 && cr.white_queen_side && b[59] is None && b[58] is None
        && b[57] is None && !attacked(b, 60, Color::Black) && !attacked(b, 59, Color::Black) && !attacked(b, 58, Color::Black)
    ||| c == Color::Black && m.from == 4 && m.to == 6 && cr.black_king_side && b[5] is None && b[6] is None
        && !attacked(b, 4, Color::White) && !attacked(b, 5, Color::White) && !attacked(b, 6, Color::White)
    ||| c == Color::Black && m.from == 4 && m.to == 2 && cr.black_queen_side && b[3] is None && b[2] is None
        && b[1] is None && !attacked(b, 4, Color::White) && !attacked(b, 3, Color::White) && !attacked(b, 2, Color::White)
}

/// A pawn's two-square advance from its starting rank over an empty square onto an empty square.
pub open spec fn double_push_ok(b: Seq<Option<ChessPiece>>, c: Color, m: ChessMove) -> bool {
    &&& !m.is_en_passant
    &&& !m.is_castling
    &&& m.promotion is None
    &&& rank_of(m.from as int) == start_rank(c)
    &&& m.to == m.from + 16 * pawn_dir(c)
    &&& b[m.from + 8 * pawn_dir(c)] is None
    &&& b[m.to as int] is None
}

pub open spec fn rank_jump(m: ChessMove) -> bool {
    rank_of(m.from as int) - rank_of(m.to as int) == 2 || rank_of(m.to as int) - rank_of(m.from as int) == 2
}

/// Facts about a pseudo-legal move of `c` that the rules of movement guarantee.
pub open spec fn move_facts(b: Seq<Option<ChessPiece>>, c: Color, cr: CastlingRights, ep: Option<usize>, m: ChessMove) -> bool {
    let p = b[m.from as int]->0;
    &&& m.from < 64
    &&& m.to < 64
    &&& b[m.from as int] is Some
    &&& p.color == c
    &&& m.promotion is Some ==> p.piece_type == PieceType::Pawn
    &&& m.is_castling ==> p.piece_type == PieceType::King && castle_ok(b, c, cr, m) && !m.is_en_passant
    &&& m.is_en_passant ==> p.piece_type == PieceType::Pawn && ep == Some(m.to) && rank_of(m.from as int) == rank_of(m.to as int) - pawn_dir(c)
    &&& !m.is_en_passant ==> free_or_enemy(b[m.to as int], c)
    &&& (b[m.to as int] is Some && b[m.to as int]->0.color != c) ==> attacked(b, m.to as int, c)
    &&& (p.piece_type == PieceType::Pawn && rank_jump(m)) ==> double_push_ok(b, c, m)
}

pub open spec fn all_facts(b: Seq<Option<ChessPiece>>, c: Color, cr: CastlingRights, ep: Option<usize>, s: Seq<ChessMove>) -> bool {
    forall|k: int| 0 <= k < s.len() ==> move_facts(b, c, cr, ep, #[trigger] s[k])
}

proof fn lemma_all_facts_add(b: Seq<Option<ChessPiece>>, c: Color, cr: CastlingRights, ep: Option<usize>, x: Seq<ChessMove>, y: Seq<ChessMove>)
    requires
        all_facts(b, c, cr, ep, x),
        all_facts(b, c, cr, ep, y),
    ensures
        all_facts(b, c, cr, ep, x + y),
{
    assert forall|k: int| 0 <= k < (x + y).len() implies move_facts(b, c, cr, ep, #[trigger] (x + y)[k]) by {
        if k < x.len() {
            assert((x + y)[k] == x[k]);
        } else {
            assert((x + y)[k] == y[k - x.len()]);
        }
    }
}

proof fn lemma_pawn_facts(b: Seq<Option<ChessPiece>>, c: Color, cr: CastlingRights, ep: Option<usize>, sq: int)
    requires
        0 <= sq < 64,
        b[sq] == Some(ChessPiece { piece_type: PieceType::Pawn, color: c }),
    ensures
        all_facts(b, c, cr, ep, pawn_moves(b, c, ep, sq, rank_of(sq), file_of(sq))),
{
    let r = rank_of(sq);
    let f = file_of(sq);
    lemma_rank_file(sq);
    let dir = pawn_dir(c);
    let fwd = r + dir;
    let pushes = pawn_pushes(b, c, sq, r, f);
    if 0 <= fwd < 8 && b[sq_of(fwd, f)] is None {
        lemma_sq_of(fwd, f);
        let m1 = ChessMove { from: sq as usize, to: sq_of(fwd, f) as usize, promotion: queen_if(fwd == promo_rank(c)), is_castling: false, is_en_passant: false };
        assert(move_facts(b, c, cr, ep, m1));
        if r == start_rank(c) && b[sq_of(r + 2 * dir, f)] is None {
            lemma_sq_of(r + 2 * dir, f);
            let m2 = normal_move(sq, sq_of(r + 2 * dir, f));
            assert(move_facts(b, c, cr, ep, m2));
            assert(all_facts(b, c, cr, ep, seq![m2]));
            lemma_all_facts_add(b, c, cr, ep, seq![m1], seq![m2]);
        } else {
            lemma_all_facts_add(b, c, cr, ep, seq![m1], Seq::empty());
        }
    }
    assert(all_facts(b, c, cr, ep, pushes));
    let caps_l = pawn_capture(b, c, ep, sq, r, f, -1);
    let caps_r = pawn_capture(b, c, ep, sq, r, f, 1);
    if 0 <= f - 1 < 8 && 0 <= fwd < 8 {
        lemma_sq_of(fwd, f - 1);
        assert(pawn_attack(b, fwd, f - 1, c));
    }
    if 0 <= f + 1 < 8 && 0 <= fwd < 8 {
        lemma_sq_of(fwd, f + 1);
        assert(pawn_attack(b, fwd, f + 1, c));
    }
    assert(all_facts(b, c, cr, ep, caps_l));
    assert(all_facts(b, c, cr, ep, caps_r));
    lemma_all_facts_add(b, c, cr, ep, pushes, caps_l);
    lemma_all_facts_add(b, c, cr, ep, pushes + caps_l, caps_r);
}

proof fn lemma_leap_facts(b: Seq<Option<ChessPiece>>, c: Color, cr: CastlingRights, ep: Option<usize>, sq: int, knight: bool, k: int)
    requires
        0 <= sq < 64,
        0 <= k < 8,
        b[sq] == Some(ChessPiece { piece_type: if knight { PieceType::Knight } else { PieceType::King }, color: c }),
    ensures
        all_facts(b, c, cr, ep, leap(b, c, sq, rank_of(sq), file_of(sq), knight, k)),
{
    let r = rank_of(sq);
    let f = file_of(sq);
    lemma_rank_file(sq);
    let nr = r + (if knight { knight_dr(k) } else { king_dr(k) });
    let nf = f + (if knight { knight_df(k) } else { king_df(k) });
    if on_board(nr, nf) && free_or_enemy(b[sq_of(nr, nf)], c) {
        lemma_sq_of(nr, nf);
        let m = normal_move(sq, sq_of(nr, nf));
        let j = 7 - k;
        if knight {
            assert(nr + knight_dr(j) == r && nf + knight_df(j) == f);
            assert(is_piece(b[sq_of(nr + knight_dr(j), nf + knight_df(j))], c, PieceType::Knight));
            assert(knight_attack(b, nr, nf, c));
        } else {
            assert(nr + king_dr(j) == r && nf + king_df(j) == f);
            assert(is_piece(b[sq_of(nr + king_dr(j), nf + king_df(j))], c, PieceType::King));
            assert(king_attack(b, nr, nf, c));
        }
        assert(move_facts(b, c, cr, ep, m));
        assert(all_facts(b, c, cr, ep, seq![m]));
    }
}

proof fn lemma_leaps_facts(b: Seq<Option<ChessPiece>>, c: Color, cr: CastlingRights, ep: Option<usize>, sq: int, knight: bool, k: int)
    requires
        0 <= sq < 64,
        0 <= k,
        b[sq] == Some(ChessPiece { piece_type: if knight { PieceType::Knight } else { PieceType::King }, color: c }),
    ensures
        all_facts(b, c, cr, ep, leaps_from(b, c, sq, rank_of(sq), file_of(sq), knight, k)),
    decreases 8 - k,
{
    if k < 8 {
        lemma_leap_facts(b, c, cr, ep, sq, knight, k);
        lemma_leaps_facts(b, c, cr, ep, sq, knight, k + 1);
        lemma_all_facts_add(b, c, cr, ep, leap(b, c, sq, rank_of(sq), file_of(sq), knight, k),
            leaps_from(b, c, sq, rank_of(sq), file_of(sq), knight, k + 1));
    }
}

/// Directions along which a piece of type `pt` (rook or bishop) slides.
pub open spec fn line_dir(pt: PieceType, dr: int, df: int) -> bool {
    ||| pt == PieceType::Rook && ((dr == -1 && df == 0) || (dr == 1 && df == 0) || (dr == 0 && df == -1) || (dr == 0 && df == 1))
    ||| pt == PieceType::Bishop && ((dr == -1 && df == -1) || (dr == -1 && df == 1) || (dr == 1 && df == -1) || (dr == 1 && df == 1))
}

proof fn lemma_ray_hits_attacked(b: Seq<Option<ChessPiece>>, r: int, f: int, dr: int, df: int, c: Color, pt: PieceType)
    requires
        ray_hits(b, r, f, dr, df, c, pt),
        line_dir(pt, dr, df),
    ensures
        attacked_rf(b, r, f, c),
{
}

/// The squares met by a slide are seen back along the line by the sliding piece.
proof fn lemma_slide_target_attacked(b: Seq<Option<ChessPiece>>, c: Color, sq: int, dr: int, df: int, n: int, pt: PieceType)
    requires
        0 <= sq < 64,
        1 <= n,
        line_dir(pt, dr, df),
        b[sq] is Some,
        b[sq]->0.color == c,
        b[sq]->0.piece_type == pt || b[sq]->0.piece_type == PieceType::Queen,
        ray_on(rank_of(sq), file_of(sq), dr, df, n),
        ray_clear(b, rank_of(sq), file_of(sq), dr, df, n),
    ensures
        attacked(b, ray_sq(rank_of(sq), file_of(sq), dr, df, n), c),
{
    let r = rank_of(sq);
    let f = file_of(sq);
    lemma_rank_file(sq);
    let tr = r + steps(n, dr);
    let tf = f + steps(n, df);
    lemma_sq_of(tr, tf);
    assert(ray_on(tr, tf, -dr, -df, n));
    assert(ray_sq(tr, tf, -dr, -df, n) == sq);
    assert forall|k: int| 1 <= k < n implies (#[trigger] b[ray_sq(tr, tf, -dr, -df, k)]) is None by {
        assert(ray_sq(tr, tf, -dr, -df, k) == ray_sq(r, f, dr, df, n - k));
        assert(b[ray_sq(r, f, dr, df, n - k)] is None);
    }
    assert(ray_clear(b, tr, tf, -dr, -df, n));
    assert(ray_hits(b, tr, tf, -dr, -df, c, pt));
    lemma_ray_hits_attacked(b, tr, tf, -dr, -df, c, pt);
}

proof fn lemma_slide_facts(b: Seq<Option<ChessPiece>>, c: Color, cr: CastlingRights, ep: Option<usize>, sq: int, dr: int, df: int, n: int, pt: PieceType)
    requires
        0 <= sq < 64,
        1 <= n,
        line_dir(pt, dr, df),
        b[sq] is Some,
        b[sq]->0.color == c,
        b[sq]->0.piece_type == pt || b[sq]->0.piece_type == PieceType::Queen,
        ray_clear(b, rank_of(sq), file_of(sq), dr, df, n),
    ensures
        all_facts(b, c, cr, ep, slide_from(b, c, sq, rank_of(sq), file_of(sq), dr, df, n)),
    decreases 8 - n,
{
    let r = rank_of(sq);
    let f = file_of(sq);
    if !(n < 1 || n >= 8 || !ray_on(r, f, dr, df, n)) {
        let t = ray_sq(r, f, dr, df, n);
        lemma_sq_of(r + steps(n, dr), f + steps(n, df));
        lemma_slide_target_attacked(b, c, sq, dr, df, n, pt);
        let m = normal_move(sq, t);
        if b[t] is None {
            assert(move_facts(b, c, cr, ep, m));
            assert(all_facts(b, c, cr, ep, seq![m]));
            assert forall|k: int| 1 <= k < n + 1 implies (#[trigger] b[ray_sq(r, f, dr, df, k)]) is None by {
                if k < n {
                    assert(b[ray_sq(r, f, dr, df, k)] is None);
                }
            }
            lemma_slide_facts(b, c, cr, ep, sq, dr, df, n + 1, pt);
            lemma_all_facts_add(b, c, cr, ep, seq![m], slide_from(b, c, sq, r, f, dr, df, n + 1));
        } else if b[t]->0.color != c {
            assert(move_facts(b, c, cr, ep, m));
            assert(all_facts(b, c, cr, ep, seq![m]));
        }
    }
}

proof fn lemma_slides_facts(b: Seq<Option<ChessPiece>>, c: Color, cr: CastlingRights, ep: Option<usize>, sq: int, dr: int, df: int, pt: PieceType)
    requires
        0 <= sq < 64,
        line_dir(pt, dr, df),
        b[sq] is Some,
        b[sq]->0.color == c,
        b[sq]->0.piece_type == pt || b[sq]->0.piece_type == PieceType::Queen,
    ensures
        all_facts(b, c, cr, ep, slides(b, c, sq, rank_of(sq), file_of(sq), dr, df)),
{
    reveal(slides);
    lemma_slide_facts(b, c, cr, ep, sq, dr, df, 1, pt);
}

proof fn lemma_castling_facts(b: Seq<Option<ChessPiece>>, c: Color, cr: CastlingRights, ep: Option<usize>, sq: int)
    requires
        0 <= sq < 64,
        b[sq] == Some(ChessPiece { piece_type: PieceType::King, color: c }),
    ensures
        all_facts(b, c, cr, ep, castling_moves(b, c, cr, sq)),
{
    let x = castling_moves(b, c, cr, sq);
    assert forall|k: int| 0 <= k < x.len() implies move_facts(b, c, cr, ep, #[trigger] x[k]) by {
        let a = if c == Color::White { Color::Black } else { Color::White };
        if c == Color::White && sq == 60 {
            let first = if cr.white_king_side && b[61] is None && b[62] is None && !attacked(b, 60, a)
                && !attacked(b, 61, a) && !attacked(b, 62, a) { seq![castle_move(60, 62)] } else { Seq::empty() };
            if k < first.len() {
                assert(x[k] == castle_move(60, 62));
            } else {
                assert(x[k] == castle_move(60, 58));
            }
        } else if c == Color::Black && sq == 4 {
            let first = if cr.black_king_side && b[5] is None && b[6] is None && !attacked(b, 4, a)
                && !attacked(b, 5, a) && !attacked(b, 6, a) { seq![castle_move(4, 6)] } else { Seq::empty() };
            if k < first.len() {
                assert(x[k] == castle_move(4, 6));
            } else {
                assert(x[k] == castle_move(4, 2));
            }
        }
    }
}

proof fn lemma_piece_facts(b: Seq<Option<ChessPiece>>, c: Color, cr: CastlingRights, ep: Option<usize>, sq: int)
    requires
        0 <= sq < 64,
    ensures
        all_facts(b, c, cr, ep, piece_moves(b, c, cr, ep, sq)),
{
    let r = rank_of(sq);
    let f = file_of(sq);
    if b[sq] is Some && b[sq]->0.color == c {
        match b[sq]->0.piece_type {
            PieceType::Pawn => lemma_pawn_facts(b, c, cr, ep, sq),
            PieceType::Knight => lemma_leaps_facts(b, c, cr, ep, sq, true, 0),
            PieceType::Bishop => {
                let pt = PieceType::Bishop;
                lemma_slides_facts(b, c, cr, ep, sq, -1, -1, pt);
                lemma_slides_facts(b, c, cr, ep, sq, -1, 1, pt);
                lemma_slides_facts(b, c, cr, ep, sq, 1, -1, pt);
                lemma_slides_facts(b, c, cr, ep, sq, 1, 1, pt);
                let s1 = slides(b, c, sq, r, f, -1, -1);
                let s2 = slides(b, c, sq, r, f, -1, 1);
                let s3 = slides(b, c, sq, r, f, 1, -1);
                let s4 = slides(b, c, sq, r, f, 1, 1);
                lemma_all_facts_add(b, c, cr, ep, s1, s2);
                lemma_all_facts_add(b, c, cr, ep, s1 + s2, s3);
                lemma_all_facts_add(b, c, cr, ep, s1 + s2 + s3, s4);
            },
            PieceType::Rook => {
                let pt = PieceType::Rook;
                lemma_slides_facts(b, c, cr, ep, sq, -1, 0, pt);
                lemma_slides_facts(b, c, cr, ep, sq, 1, 0, pt);
                lemma_slides_facts(b, c, cr, ep, sq, 0, -1, pt);
                lemma_slides_facts(b, c, cr, ep, sq, 0, 1, pt);
                let s1 = slides(b, c, sq, r, f, -1, 0);
                let s2 = slides(b, c, sq, r, f, 1, 0);
                let s3 = slides(b, c, sq, r, f, 0, -1);
                let s4 = slides(b, c, sq, r, f, 0, 1);
                lemma_all_facts_add(b, c, cr, ep, s1, s2);
                lemma_all_facts_add(b, c, cr, ep, s1 + s2, s3);
                lemma_all_facts_add(b, c, cr, ep, s1 + s2 + s3, s4);
            },
            PieceType::Queen => {
                lemma_slides_facts(b, c, cr, ep, sq, -1, -1, PieceType::Bishop);
                lemma_slides_facts(b, c, cr, ep, sq, -1, 0, PieceType::Rook);
                lemma_slides_facts(b, c, cr, ep, sq, -1, 1, PieceType::Bishop);
                lemma_slides_facts(b, c, cr, ep, sq, 0, -1, PieceType::Rook);
                lemma_slides_facts(b, c, cr, ep, sq, 0, 1, PieceType::Rook);
                lemma_slides_facts(b, c, cr, ep, sq, 1, -1, PieceType::Bishop);
                lemma_slides_facts(b, c, cr, ep, sq, 1, 0, PieceType::Rook);
                lemma_slides_facts(b, c, cr, ep, sq, 1, 1, PieceType::Bishop);
                let s1 = slides(b, c, sq, r, f, -1, -1);
                let s2 = slides(b, c, sq, r, f, -1, 0);
                let s3 = slides(b, c, sq, r, f, -1, 1);
                let s4 = slides(b, c, sq, r, f, 0, -1);
                let s5 = slides(b, c, sq, r, f, 0, 1);
                let s6 = slides(b, c, sq, r, f, 1, -1);
                let s7 = slides(b, c, sq, r, f, 1, 0);
                let s8 = slides(b, c, sq, r, f, 1, 1);
                lemma_all_facts_add(b, c, cr, ep, s1, s2);
                lemma_all_facts_add(b, c, cr, ep, s1 + s2, s3);
                lemma_all_facts_add(b, c, cr, ep, s1 + s2 + s3, s4);
                lemma_all_facts_add(b, c, cr, ep, s1 + s2 + s3 + s4, s5);
                lemma_all_facts_add(b, c, cr, ep, s1 + s2 + s3 + s4 + s5, s6);
                lemma_all_facts_add(b, c, cr, ep, s1 + s2 + s3 + s4 + s5 + s6, s7);
                lemma_all_facts_add(b, c, cr, ep, s1 + s2 + s3 + s4 + s5 + s6 + s7, s8);
            },
            PieceType::King => {
                lemma_leaps_facts(b, c, cr, ep, sq, false, 0);
                lemma_castling_facts(b, c, cr, ep, sq);
                lemma_all_facts_add(b, c, cr, ep, leaps_from(b, c, sq, r, f, false, 0), castling_moves(b, c, cr, sq));
            },
        }
    }
}

/// Every pseudo-legal move satisfies `move_facts`.
pub proof fn lemma_pseudo_facts(b: Seq<Option<ChessPiece>>, c: Color, cr: CastlingRights, ep: Option<usize>)
    ensures
        all_facts(b, c, cr, ep, pseudo_moves(b, c, cr, ep)),
{
    lemma_pseudo_upto_facts(b, c, cr, ep, 64);
}

proof fn lemma_pseudo_upto_facts(b: Seq<Option<ChessPiece>>, c: Color, cr: CastlingRights, ep: Option<usize>, n: int)
    requires
        0 <= n <= 64,
    ensures
        all_facts(b, c, cr, ep, pseudo_upto(b, c, cr, ep, n)),
    decreases n,
{
    if n > 0 {
        lemma_pseudo_upto_facts(b, c, cr, ep, n - 1);
        lemma_piece_facts(b, c, cr, ep, n - 1);
        lemma_all_facts_add(b, c, cr, ep, pseudo_upto(b, c, cr, ep, n - 1), piece_moves(b, c, cr, ep, n - 1));
    }
}

// ---------------------------------------------------------------------------
// Positions that arise in play

/// Each castling right still held has its rook on the corner square.
pub open spec fn rights_ok(b: Seq<Option<ChessPiece>>, cr: CastlingRights) -> bool {
    &&& cr.white_king_side ==> is_piece(b[63], Color::White, PieceType::Rook)
    &&& cr.white_queen_side ==> is_piece(b[56], Color::White, PieceType::Rook)
    &&& cr.black_king_side ==> is_piece(b[7], Color::Black, PieceType::Rook)
    &&& cr.black_queen_side ==> is_piece(b[0], Color::Black, PieceType::Rook)
}

/// An en passant target, if any, is the empty square just behind a pawn of
/// the other side that has just advanced two squares.
pub open spec fn ep_ok(b: Seq<Option<ChessPiece>>, c: Color, ep: Option<usize>) -> bool {
    match ep {
        None => true,
        Some(e) => if c == Color::White {
            16 <= e < 24 && b[e as int] is None && is_piece(b[e + 8], Color::Black, PieceType::Pawn)
        } else {
            40 <= e < 48 && b[e as int] is None && is_piece(b[e - 8], Color::White, PieceType::Pawn)
        },
    }
}

/// A position with `c` to move that can arise in a game: both kings are on
/// the board, the side that just moved is not in check, castling rights
/// match rooks on their corners, and the en passant target is genuine.
pub open spec fn position_ok(b: Seq<Option<ChessPiece>>, c: Color, cr: CastlingRights, ep: Option<usize>) -> bool {
    &&& b.len() == 64
    &&& has_king(b, c)
    &&& has_king(b, other(c))
    &&& !attacked(b, king_square(b, other(c)), c)
    &&& rights_ok(b, cr)
    &&& ep_ok(b, c, ep)
}

/// Square of the pawn taken by an en passant capture.
pub open spec fn ep_victim(m: ChessMove) -> int {
    rank_of(m.from as int) * 8 + file_of(m.to as int)
}

/// Squares that a move leaves untouched keep their content.
proof fn lemma_apply_untouched(b: Seq<Option<ChessPiece>>, m: ChessMove, x: int)
    requires
        b.len() == 64,
        0 <= x < 64,
        m.from < 64,
        m.to < 64,
        x != m.from,
        x != m.to,
        m.is_en_passant ==> x != ep_victim(m),
        m.is_castling ==> {
            ||| m.to == 62 && x != 63 && x != 61
            ||| m.to == 58 && x != 56 && x != 59
            ||| m.to == 6 && x != 7 && x != 5
            ||| m.to == 2 && x != 0 && x != 3
        },
    ensures
        apply_board(b, m)[x] == b[x],
{
}

proof fn lemma_ep_victim(b: Seq<Option<ChessPiece>>, c: Color, cr: CastlingRights, ep: Option<usize>, m: ChessMove)
    requires
        position_ok(b, c, cr, ep),
        move_facts(b, c, cr, ep, m),
        m.is_en_passant,
    ensures
        0 <= ep_victim(m) < 64,
        is_piece(b[ep_victim(m)], other(c), PieceType::Pawn),
        ep_victim(m) != m.to,
        ep_victim(m) != m.from,
{
    lemma_rank_file(m.from as int);
    lemma_rank_file(m.to as int);
}

/// After a pseudo-legal move from a game position both kings are still on the board.
pub proof fn lemma_child_kings(b: Seq<Option<ChessPiece>>, c: Color, cr: CastlingRights, ep: Option<usize>, m: ChessMove)
    requires
        position_ok(b, c, cr, ep),
        move_facts(b, c, cr, ep, m),
    ensures
        has_king(apply_board(b, m), c),
        has_king(apply_board(b, m), other(c)),
{
    let child = apply_board(b, m);
    let p = b[m.from as int]->0;
    lemma_king_square(b, c);
    lemma_king_square(b, other(c));
    let k = king_square(b, c);
    let q = king_square(b, other(c));
    if m.is_en_passant {
        lemma_ep_victim(b, c, cr, ep, m);
    }
    // the mover's king
    if p.piece_type == PieceType::King {
        assert(child[m.to as int] == placed(p, m));
        assert(is_piece(child[m.to as int], c, PieceType::King));
    } else {
        assert(k != m.to) by {
            if m.is_en_passant {
                assert(b[m.to as int] is None);
            }
        }
        lemma_apply_untouched(b, m, k);
        assert(is_piece(child[k], c, PieceType::King));
    }
    // the other king
    assert(q != m.to) by {
        if q == m.to {
            assert(attacked(b, m.to as int, c));
        }
    }
    if m.is_castling {
        assert(castle_ok(b, c, cr, m));
        if m.to == 62 {
            assert(is_piece(b[63], Color::White, PieceType::Rook));
        } else if m.to == 58 {
            assert(is_piece(b[56], Color::White, PieceType::Rook));
        } else if m.to == 6 {
            assert(is_piece(b[7], Color::Black, PieceType::Rook));
        } else {
            assert(is_piece(b[0], Color::Black, PieceType::Rook));
        }
    }
    lemma_apply_untouched(b, m, q);
    assert(is_piece(child[q], other(c), PieceType::King));
}

/// In a game position the mover keeps a king after each of its pseudo-legal moves.
pub proof fn lemma_position_king_survives(b: Seq<Option<ChessPiece>>, c: Color, cr: CastlingRights, ep: Option<usize>)
    requires
        position_ok(b, c, cr, ep),
    ensures
        king_survives(b, c, cr, ep),
{
    lemma_pseudo_facts(b, c, cr, ep);
    assert forall|k: int| 0 <= k < pseudo_moves(b, c, cr, ep).len() implies has_king(
        apply_board(b, #[trigger] pseudo_moves(b, c, cr, ep)[k]),
        c,
    ) by {
        lemma_child_kings(b, c, cr, ep, pseudo_moves(b, c, cr, ep)[k]);
    }
}

proof fn lemma_legal_filter_safe(b: Seq<Option<ChessPiece>>, c: Color, s: Seq<ChessMove>)
    ensures
        forall|k: int| 0 <= k < legal_filter(b, c, s).len() ==> !in_check(apply_board(b, #[trigger] legal_filter(b, c, s)[k]), c),
    decreases s.len(),
{
    if s.len() > 0 {
        lemma_legal_filter_safe(b, c, s.drop_last());
        let a = legal_filter(b, c, s.drop_last());
        let l = legal_filter(b, c, s);
        assert forall|k: int| 0 <= k < l.len() implies !in_check(apply_board(b, #[trigger] l[k]), c) by {
            if k < a.len() {
                assert(l[k] == a[k]);
            }
        }
    }
}

/// A legal move is a pseudo-legal move that does not leave the mover in check.
pub proof fn lemma_legal_move(b: Seq<Option<ChessPiece>>, c: Color, cr: CastlingRights, ep: Option<usize>, k: int)
    requires
        0 <= k < legal_moves(b, c, cr, ep).len(),
    ensures
        move_facts(b, c, cr, ep, legal_moves(b, c, cr, ep)[k]),
        !in_check(apply_board(b, legal_moves(b, c, cr, ep)[k]), c),
{
    let ps = pseudo_moves(b, c, cr, ep);
    lemma_pseudo_facts(b, c, cr, ep);
    lemma_legal_filter_members(b, c, ps);
    lemma_legal_filter_safe(b, c, ps);
    let m = legal_moves(b, c, cr, ep)[k];
    assert(ps.contains(m));
    let j = choose|j: int| 0 <= j < ps.len() && ps[j] == m;
    assert(move_facts(b, c, cr, ep, ps[j]));
}

/// Playing a legal move from a game position gives a game position with the
/// other side to move: kings stay on the board, the mover is not left in
/// check, castling rights keep their rooks, and a new en passant target is genuine.
pub proof fn lemma_legal_move_keeps_position(b: Seq<Option<ChessPiece>>, c: Color, cr: CastlingRights, ep: Option<usize>, k: int)
    requires
        position_ok(b, c, cr, ep),
        0 <= k < legal_moves(b, c, cr, ep).len(),
    ensures
        position_ok(
            apply_board(b, legal_moves(b, c, cr, ep)[k]),
            other(c),
            apply_rights(b, legal_moves(b, c, cr, ep)[k], cr),
            apply_ep(b, legal_moves(b, c, cr, ep)[k]),
        ),
{
    let m = legal_moves(b, c, cr, ep)[k];
    lemma_legal_move(b, c, cr, ep, k);
    lemma_child_kings(b, c, cr, ep, m);
    let child = apply_board(b, m);
    let cr2 = apply_rights(b, m, cr);
    let ep2 = apply_ep(b, m);
    let p = b[m.from as int]->0;
    assert(other(other(c)) == c);
    if m.is_en_passant {
        lemma_ep_victim(b, c, cr, ep, m);
    }
    lemma_rank_file(m.from as int);
    lemma_rank_file(m.to as int);
    // castling rights
    if cr2.white_king_side {
        lemma_apply_untouched(b, m, 63);
    }
    if cr2.white_queen_side {
        lemma_apply_untouched(b, m, 56);
    }
    if cr2.black_king_side {
        lemma_apply_untouched(b, m, 7);
    }
    if cr2.black_queen_side {
        lemma_apply_untouched(b, m, 0);
    }
    assert(rights_ok(child, cr2));
    // en passant target
    if ep2 is Some {
        assert(double_push_ok(b, c, m));
        let e = ep2->0 as int;
        assert(e == m.from + 8 * pawn_dir(c));
        lemma_apply_untouched(b, m, e);
        assert(child[m.to as int] == Some(p));
    }
    assert(ep_ok(child, other(c), ep2));
    assert(child.len() == 64);
}

/// From a game position, the search to any depth stays safe.
pub proof fn lemma_position_search_safe(b: Seq<Option<ChessPiece>>, c: Color, cr: CastlingRights, ep: Option<usize>, depth: int)
    requires
        position_ok(b, c, cr, ep),
    ensures
        search_safe(b, c, cr, ep, depth),
    decreases depth,
{
    if depth > 0 {
        lemma_position_king_survives(b, c, cr, ep);
        assert forall|k: int| 0 <= k < legal_moves(b, c, cr, ep).len() implies search_safe(
            apply_board(b, #[trigger] legal_moves(b, c, cr, ep)[k]),
            other(c),
            apply_rights(b, legal_moves(b, c, cr, ep)[k], cr),
            apply_ep(b, legal_moves(b, c, cr, ep)[k]),
            depth - 1,
        ) by {
            lemma_legal_move_keeps_position(b, c, cr, ep, k);
            lemma_position_search_safe(
                apply_board(b, legal_moves(b, c, cr, ep)[k]),
                other(c),
                apply_rights(b, legal_moves(b, c, cr, ep)[k], cr),
                apply_ep(b, legal_moves(b, c, cr, ep)[k]),
                depth - 1,
            );
        }
    }
}

/// From a game position the computer's root search is safe.
pub proof fn lemma_position_root_safe(b: Seq<Option<ChessPiece>>, c: Color, cr: CastlingRights, ep: Option<usize>)
    requires
        position_ok(b, c, cr, ep),
    ensures
        root_safe(b, c, cr, ep),
{
    lemma_position_search_safe(b, c, cr, ep, 3);
}

proof fn lemma_no_ray_hit(b: Seq<Option<ChessPiece>>, r: int, f: int, dr: int, df: int, by: Color, pt: PieceType)
    requires
        !ray_on(r, f, dr, df, 1) || (b[ray_sq(r, f, dr, df, 1)] is Some && b[ray_sq(r, f, dr, df, 1)]->0.color != by),
        on_board(r, f),
        -1 <= dr <= 1,
        -1 <= df <= 1,
        !(dr == 0 && df == 0),
    ensures
        !ray_hits(b, r, f, dr, df, by, pt),
{
    assert forall|n: int|
        1 <= n && #[trigger] ray_on(r, f, dr, df, n) && ray_clear(b, r, f, dr, df, n) implies !(is_piece(
        b[ray_sq(r, f, dr, df, n)],
        by,
        pt,
    ) || is_piece(b[ray_sq(r, f, dr, df, n)], by, PieceType::Queen)) by {
        if n > 1 {
            assert(b[ray_sq(r, f, dr, df, 1)] is None);
        }
    }
}

/// The standard starting position, White to move with all castling rights,
/// is a game position.
pub proof fn lemma_initial_position_ok(b: Seq<Option<ChessPiece>>, cr: CastlingRights)
    requires
        b.len() == 64,
        forall|i: int| 0 <= i < 64 ==> #[trigger] b[i] == initial_cell(i),
        cr.white_king_side && cr.white_queen_side && cr.black_king_side && cr.black_queen_side,
    ensures
        position_ok(b, Color::White, cr, None),
{
    assert(is_piece(b[60], Color::White, PieceType::King));
    assert(is_piece(b[4], Color::Black, PieceType::King));
    assert(king_from(b, Color::Black, 4) == 4);
    assert(king_from(b, Color::Black, 3) == 4);
    assert(king_from(b, Color::Black, 2) == 4);
    assert(king_from(b, Color::Black, 1) == 4);
    assert(king_from(b, Color::Black, 0) == 4);
    assert(king_square(b, Color::Black) == 4);
    assert(!knight_attack(b, 0, 4, Color::White)) by {
        assert forall|k: int| 0 <= k < 8 && on_board(0 + knight_dr(k), 4 + knight_df(k)) implies !#[trigger] is_piece(
            b[sq_of(0 + knight_dr(k), 4 + knight_df(k))],
            Color::White,
            PieceType::Knight,
        ) by {
            let i = sq_of(0 + knight_dr(k), 4 + knight_df(k));
            assert(b[i] == initial_cell(i));
        }
    }
    assert(!king_attack(b, 0, 4, Color::White)) by {
        assert forall|k: int| 0 <= k < 8 && on_board(0 + king_dr(k), 4 + king_df(k)) implies !#[trigger] is_piece(
            b[sq_of(0 + king_dr(k), 4 + king_df(k))],
            Color::White,
            PieceType::King,
        ) by {
            let i = sq_of(0 + king_dr(k), 4 + king_df(k));
            assert(b[i] == initial_cell(i));
        }
    }
    assert(b[3] == initial_cell(3));
    assert(b[5] == initial_cell(5));
    assert(b[11] == initial_cell(11));
    assert(b[12] == initial_cell(12));
    assert(b[13] == initial_cell(13));
    lemma_no_ray_hit(b, 0, 4, -1, 0, Color::White, PieceType::Rook);
    lemma_no_ray_hit(b, 0, 4, 1, 0, Color::White, PieceType::Rook);
    lemma_no_ray_hit(b, 0, 4, 0, -1, Color::White, PieceType::Rook);
    lemma_no_ray_hit(b, 0, 4, 0, 1, Color::White, PieceType::Rook);
    lemma_no_ray_hit(b, 0, 4, -1, -1, Color::White, PieceType::Bishop);
    lemma_no_ray_hit(b, 0, 4, -1, 1, Color::White, PieceType::Bishop);
    lemma_no_ray_hit(b, 0, 4, 1, -1, Color::White, PieceType::Bishop);
    lemma_no_ray_hit(b, 0, 4, 1, 1, Color::White, PieceType::Bishop);
    assert(!attacked(b, 4, Color::White));
    assert(b[63] == initial_cell(63));
    assert(b[56] == initial_cell(56));
    assert(b[7] == initial_cell(7));
    assert(b[0] == initial_cell(0));
}

// ---------------------------------------------------------------------------
// Castling is generated exactly when allowed

proof fn lemma_pseudo_upto_has(b: Seq<Option<ChessPiece>>, c: Color, cr: CastlingRights, ep: Option<usize>, n: int, sq: int, i: int)
    requires
        0 <= sq < n,
        0 <= i < piece_moves(b, c, cr, ep, sq).len(),
    ensures
        pseudo_upto(b, c, cr, ep, n).contains(piece_moves(b, c, cr, ep, sq)[i]),
    decreases n,
{
    let a = pseudo_upto(b, c, cr, ep, n - 1);
    let p = piece_moves(b, c, cr, ep, n - 1);
    let u = pseudo_upto(b, c, cr, ep, n);
    assert(u == a + p);
    if sq == n - 1 {
        assert(u[a.len() + i] == p[i]);
    } else {
        lemma_pseudo_upto_has(b, c, cr, ep, n - 1, sq, i);
        let j = choose|j: int| 0 <= j < a.len() && a[j] == piece_moves(b, c, cr, ep, sq)[i];
        assert(u[j] == a[j]);
    }
}

/// Every castling move the generator produces is one of the four castling
/// moves, made by the king standing on its square, with the castling
/// conditions met; and each of the four is produced whenever the king stands
/// on its square and the conditions are met.
pub proof fn lemma_castling_generated(b: Seq<Option<ChessPiece>>, c: Color, cr: CastlingRights, ep: Option<usize>, from: usize, to: usize)
    ensures
        forall|k: int| 0 <= k < pseudo_moves(b, c, cr, ep).len() && (#[trigger] pseudo_moves(b, c, cr, ep)[k]).is_castling ==> {
            let m = pseudo_moves(b, c, cr, ep)[k];
            &&& m == castle_move(m.from as int, m.to as int)
            &&& b[m.from as int] == Some(ChessPiece { piece_type: PieceType::King, color: c })
            &&& castle_ok(b, c, cr, m)
        },
        pseudo_moves(b, c, cr, ep).contains(castle_move(from as int, to as int)) <==> {
            &&& from < 64 && to < 64
            &&& b[from as int] == Some(ChessPiece { piece_type: PieceType::King, color: c })
            &&& castle_ok(b, c, cr, castle_move(from as int, to as int))
        },
{
    let ps = pseudo_moves(b, c, cr, ep);
    lemma_pseudo_facts(b, c, cr, ep);
    assert forall|k: int| 0 <= k < ps.len() && (#[trigger] ps[k]).is_castling implies {
        let m = ps[k];
        &&& m == castle_move(m.from as int, m.to as int)
        &&& b[m.from as int] == Some(ChessPiece { piece_type: PieceType::King, color: c })
        &&& castle_ok(b, c, cr, m)
    } by {
        assert(move_facts(b, c, cr, ep, ps[k]));
    }
    let cm = castle_move(from as int, to as int);
    if ps.contains(cm) {
        let k = choose|k: int| 0 <= k < ps.len() && ps[k] == cm;
        assert(move_facts(b, c, cr, ep, ps[k]));
    }
    if from < 64 && to < 64 && b[from as int] == Some(ChessPiece { piece_type: PieceType::King, color: c })
        && castle_ok(b, c, cr, cm) {
        let r = rank_of(from as int);
        let f = file_of(from as int);
        let leaps = leaps_from(b, c, from as int, r, f, false, 0);
        let cast = castling_moves(b, c, cr, from as int);
        let pm = piece_moves(b, c, cr, ep, from as int);
        assert(pm == leaps + cast);
        let a = if c == Color::White { Color::Black } else { Color::White };
        let first = if c == Color::White {
            if cr.white_king_side && b[61] is None && b[62] is None && !attacked(b, 60, a) && !attacked(b, 61, a)
                && !attacked(b, 62, a) { seq![castle_move(60, 62)] } else { Seq::<ChessMove>::empty() }
        } else {
            if cr.black_king_side && b[5] is None && b[6] is None && !attacked(b, 4, a) && !attacked(b, 5, a)
                && !attacked(b, 6, a) { seq![castle_move(4, 6)] } else { Seq::<ChessMove>::empty() }
        };
        let i = if to == 62 || to == 6 { 0int } else { first.len() as int };
        assert(cast[i] == cm);
        assert(pm[leaps.len() + i] == cm);
        lemma_pseudo_upto_has(b, c, cr, ep, 64, from as int, leaps.len() + i);
    }
}

// ---------------------------------------------------------------------------
// Pawn captures and castling rooks

/// Every move of a list that does not leave the mover in check survives the
/// legality filter.
proof fn lemma_legal_filter_keeps(b: Seq<Option<ChessPiece>>, c: Color, s: Seq<ChessMove>, j: int)
    requires
        0 <= j < s.len(),
        !in_check(apply_board(b, s[j]), c),
    ensures
        legal_filter(b, c, s).contains(s[j]),
    decreases s.len(),
{
    let s0 = s.drop_last();
    let a = legal_filter(b, c, s0);
    let l = legal_filter(b, c, s);
    if j == s.len() - 1 {
        assert(s[j] == s.last());
        assert(l[a.len() as int] == s[j]);
    } else {
        assert(s0[j] == s[j]);
        lemma_legal_filter_keeps(b, c, s0, j);
        let q = choose|q: int| 0 <= q < a.len() && a[q] == s[j];
        assert(l[q] == a[q]);
    }
}

/// A pawn captures on both forward diagonals: whenever the square one rank
/// ahead and one file to either side is on the board and holds a piece of
/// the other side, or is the en passant target, a move of the pawn to that
/// square is generated; and it is a legal move unless it leaves the mover
/// in check.
pub proof fn lemma_pawn_captures_generated(
    b: Seq<Option<ChessPiece>>,
    c: Color,
    cr: CastlingRights,
    ep: Option<usize>,
    sq: int,
    df: int,
)
    requires
        0 <= sq < 64,
        b[sq] == Some(ChessPiece { piece_type: PieceType::Pawn, color: c }),
        df == -1 || df == 1,
        0 <= sq / 8 + pawn_dir(c) < 8,
        0 <= sq % 8 + df < 8,
        ({
            let t = (sq / 8 + pawn_dir(c)) * 8 + sq % 8 + df;
            (b[t] is Some && b[t]->0.color != c) || ep == Some(t as usize)
        }),
    ensures
        exists|k: int|
            0 <= k < pseudo_moves(b, c, cr, ep).len() && #[trigger] pseudo_moves(b, c, cr, ep)[k].from == sq
                && pseudo_moves(b, c, cr, ep)[k].to == (sq / 8 + pawn_dir(c)) * 8 + sq % 8 + df
                && (!in_check(apply_board(b, pseudo_moves(b, c, cr, ep)[k]), c) ==> legal_moves(b, c, cr, ep).contains(
                pseudo_moves(b, c, cr, ep)[k],
            )),
{
    let r = rank_of(sq);
    let f = file_of(sq);
    let pushes = pawn_pushes(b, c, sq, r, f);
    let left = pawn_capture(b, c, ep, sq, r, f, -1);
    let right = pawn_capture(b, c, ep, sq, r, f, 1);
    let pm = piece_moves(b, c, cr, ep, sq);
    assert(pm == pushes + left + right);
    let i = if df == -1 { pushes.len() as int } else { (pushes.len() + left.len()) as int };
    assert(sq_of(r + pawn_dir(c), f + df) == (sq / 8 + pawn_dir(c)) * 8 + sq % 8 + df);
    assert(pm[i].from == sq && pm[i].to == (sq / 8 + pawn_dir(c)) * 8 + sq % 8 + df);
    lemma_pseudo_upto_has(b, c, cr, ep, 64, sq, i);
    let ps = pseudo_moves(b, c, cr, ep);
    let k = choose|k: int| 0 <= k < ps.len() && ps[k] == pm[i];
    if !in_check(apply_board(b, ps[k]), c) {
        lemma_legal_filter_keeps(b, c, ps, k);
    }
    assert(ps[k].from == sq);
}

/// Castling moves the rook over the king: after castling to `to`, the king
/// (the piece that stood on `from`) is on `to`, `from` is empty, the rook of
/// that side stands on the square the king crossed, and the rook's corner
/// square is empty.
pub proof fn lemma_castling_moves_rook(b: Seq<Option<ChessPiece>>, m: ChessMove)
    requires
        b.len() == 64,
        m.is_castling,
        !m.is_en_passant,
        m.promotion is None,
        (m.from == 60 && (m.to == 62 || m.to == 58)) || (m.from == 4 && (m.to == 6 || m.to == 2)),
        b[m.from as int] is Some,
    ensures
        ({
            let after = apply_board(b, m);
            let side = if m.from == 60 { Color::White } else { Color::Black };
            let crossed = (m.from + m.to) / 2;
            let corner = if m.to > m.from { m.from + 3 } else { m.from - 4 };
            &&& after[m.to as int] == b[m.from as int]
            &&& after[m.from as int] is None
            &&& after[crossed] == Some(ChessPiece { piece_type: PieceType::Rook, color: side })
            &&& after[corner] is None
        }),
{
}

} // verus!
