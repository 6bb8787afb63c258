use boardgames::chess::ai::{evaluate, get_best_chess_move};
use boardgames::chess::moves::{
    apply_move, find_king, generate_legal_moves, is_checkmate, is_in_check, is_square_attacked,
    is_stalemate, ChessMove,
};
use boardgames::chess::{initial_board, piece_to_unicode, CastlingRights, ChessPiece, Color, PieceType};

fn no_rights() -> CastlingRights {
    CastlingRights {
        white_king_side: false,
        white_queen_side: false,
        black_king_side: false,
        black_queen_side: false,
    }
}

fn put(b: &mut [Option<ChessPiece>; 64], sq: usize, pt: PieceType, c: Color) {
    b[sq] = Some(ChessPiece::new(pt, c));
}

fn play(
    b: &mut [Option<ChessPiece>; 64],
    cr: &mut CastlingRights,
    ep: &mut Option<usize>,
    turn: Color,
    from: usize,
    to: usize,
) {
    let legal = generate_legal_moves(b, turn, cr, *ep);
    let mv = *legal.iter().find(|m| m.from == from && m.to == to).expect("legal move");
    let (nb, ncr, nep) = apply_move(b, &mv, cr, *ep);
    *b = nb;
    *cr = ncr;
    *ep = nep;
}

#[test]
fn chess_initial_board_layout() {
    let b = initial_board();
    assert_eq!(b[60], Some(ChessPiece::new(PieceType::King, Color::White)));
    assert_eq!(b[4], Some(ChessPiece::new(PieceType::King, Color::Black)));
    assert_eq!(b[59], Some(ChessPiece::new(PieceType::Queen, Color::White)));
    assert_eq!(b[0], Some(ChessPiece::new(PieceType::Rook, Color::Black)));
    assert_eq!(b[52], Some(ChessPiece::new(PieceType::Pawn, Color::White)));
    assert_eq!(b[12], Some(ChessPiece::new(PieceType::Pawn, Color::Black)));
    for sq in 16..48 {
        assert!(b[sq].is_none());
    }
    assert_eq!(find_king(&b, Color::White), 60);
    assert_eq!(find_king(&b, Color::Black), 4);
}

#[test]
fn chess_piece_symbols() {
    assert_eq!(piece_to_unicode(&ChessPiece::new(PieceType::King, Color::White)), "♔");
    assert_eq!(piece_to_unicode(&ChessPiece::new(PieceType::Pawn, Color::Black)), "♟");
    assert_eq!(piece_to_unicode(&ChessPiece::new(PieceType::Knight, Color::White)), "♘");
    assert_eq!(piece_to_unicode(&ChessPiece::new(PieceType::Queen, Color::Black)), "♛");
}

#[test]
fn chess_opposite_colors() {
    assert_eq!(Color::White.opposite(), Color::Black);
    assert_eq!(Color::Black.opposite(), Color::White);
}

#[test]
fn chess_initial_evaluation_is_even() {
    assert_eq!(evaluate(&initial_board()), 0);
}

#[test]
fn chess_evaluation_counts_material() {
    let mut b = [None; 64];
    put(&mut b, 60, PieceType::King, Color::White);
    put(&mut b, 4, PieceType::King, Color::Black);
    let base = evaluate(&b);
    put(&mut b, 35, PieceType::Queen, Color::White);
    // queen value 900, square bonus 5 on d4 for White
    assert_eq!(evaluate(&b) - base, 905);
}

#[test]
fn chess_twenty_opening_moves_each() {
    let b = initial_board();
    let cr = CastlingRights::default();
    assert_eq!(generate_legal_moves(&b, Color::White, &cr, None).len(), 20);
    assert_eq!(generate_legal_moves(&b, Color::Black, &cr, None).len(), 20);
    assert!(!is_in_check(&b, Color::White));
    assert!(!is_checkmate(&b, Color::White, &cr, None));
    assert!(!is_stalemate(&b, Color::White, &cr, None));
}

#[test]
fn chess_square_attacks_in_the_opening() {
    let b = initial_board();
    assert!(is_square_attacked(&b, 44, Color::White));
    assert!(is_square_attacked(&b, 45, Color::White));
    assert!(!is_square_attacked(&b, 36, Color::White));
    assert!(is_square_attacked(&b, 20, Color::Black));
}

#[test]
fn chess_fools_mate() {
    let mut b = initial_board();
    let mut cr = CastlingRights::default();
    let mut ep = None;
    play(&mut b, &mut cr, &mut ep, Color::White, 53, 45);
    play(&mut b, &mut cr, &mut ep, Color::Black, 12, 28);
    play(&mut b, &mut cr, &mut ep, Color::White, 54, 38);
    play(&mut b, &mut cr, &mut ep, Color::Black, 3, 39);
    assert!(is_in_check(&b, Color::White));
    assert!(is_checkmate(&b, Color::White, &cr, ep));
    assert!(!is_stalemate(&b, Color::White, &cr, ep));
    assert_eq!(generate_legal_moves(&b, Color::White, &cr, ep).len(), 0);
}

#[test]
fn chess_stalemate() {
    let mut b = [None; 64];
    put(&mut b, 0, PieceType::King, Color::Black);
    put(&mut b, 10, PieceType::Queen, Color::White);
    put(&mut b, 63, PieceType::King, Color::White);
    let cr = no_rights();
    assert!(!is_in_check(&b, Color::Black));
    assert!(is_stalemate(&b, Color::Black, &cr, None));
    assert!(!is_checkmate(&b, Color::Black, &cr, None));
}

#[test]
fn chess_king_side_castling() {
    let mut b = [None; 64];
    put(&mut b, 60, PieceType::King, Color::White);
    put(&mut b, 63, PieceType::Rook, Color::White);
    put(&mut b, 4, PieceType::King, Color::Black);
    let cr = CastlingRights::default();
    let legal = generate_legal_moves(&b, Color::White, &cr, None);
    let castle = *legal.iter().find(|m| m.from == 60 && m.to == 62).expect("castling");
    assert!(castle.is_castling);
    let (nb, ncr, nep) = apply_move(&b, &castle, &cr, None);
    assert_eq!(nb[62], Some(ChessPiece::new(PieceType::King, Color::White)));
    assert_eq!(nb[61], Some(ChessPiece::new(PieceType::Rook, Color::White)));
    assert!(nb[60].is_none() && nb[63].is_none());
    assert!(!ncr.white_king_side && !ncr.white_queen_side);
    assert!(ncr.black_king_side && ncr.black_queen_side);
    assert_eq!(nep, None);
}

#[test]
fn chess_no_castling_through_check() {
    let mut b = [None; 64];
    put(&mut b, 60, PieceType::King, Color::White);
    put(&mut b, 63, PieceType::Rook, Color::White);
    put(&mut b, 4, PieceType::King, Color::Black);
    put(&mut b, 5, PieceType::Rook, Color::Black);
    let cr = CastlingRights::default();
    let legal = generate_legal_moves(&b, Color::White, &cr, None);
    assert!(!legal.iter().any(|m| m.is_castling && m.to == 62));
    assert!(!legal.iter().any(|m| m.from == 60 && m.to == 61));
}

#[test]
fn chess_en_passant() {
    let mut b = [None; 64];
    put(&mut b, 60, PieceType::King, Color::White);
    put(&mut b, 4, PieceType::King, Color::Black);
    put(&mut b, 28, PieceType::Pawn, Color::White);
    put(&mut b, 11, PieceType::Pawn, Color::Black);
    let mut cr = no_rights();
    let mut ep = None;
    play(&mut b, &mut cr, &mut ep, Color::Black, 11, 27);
    assert_eq!(ep, Some(19));
    let legal = generate_legal_moves(&b, Color::White, &cr, ep);
    let mv = *legal.iter().find(|m| m.from == 28 && m.to == 19).expect("en passant");
    assert!(mv.is_en_passant);
    let (nb, _, nep) = apply_move(&b, &mv, &cr, ep);
    assert!(nb[27].is_none());
    assert_eq!(nb[19], Some(ChessPiece::new(PieceType::Pawn, Color::White)));
    assert_eq!(nep, None);
}

#[test]
fn chess_promotion_to_queen() {
    let mut b = [None; 64];
    put(&mut b, 60, PieceType::King, Color::White);
    put(&mut b, 7, PieceType::King, Color::Black);
    put(&mut b, 8, PieceType::Pawn, Color::White);
    let cr = no_rights();
    let legal = generate_legal_moves(&b, Color::White, &cr, None);
    let mv: ChessMove = *legal.iter().find(|m| m.from == 8 && m.to == 0).expect("promotion");
    assert_eq!(mv.promotion, Some(PieceType::Queen));
    let (nb, _, _) = apply_move(&b, &mv, &cr, None);
    assert_eq!(nb[0], Some(ChessPiece::new(PieceType::Queen, Color::White)));
}

#[test]
fn chess_pinned_piece_cannot_move() {
    let mut b = [None; 64];
    put(&mut b, 60, PieceType::King, Color::White);
    put(&mut b, 52, PieceType::Knight, Color::White);
    put(&mut b, 4, PieceType::Rook, Color::Black);
    put(&mut b, 0, PieceType::King, Color::Black);
    let legal = generate_legal_moves(&b, Color::White, &no_rights(), None);
    assert!(!legal.iter().any(|m| m.from == 52));
}

#[test]
fn chess_computer_finds_mate_in_one() {
    let mut b = [None; 64];
    put(&mut b, 7, PieceType::King, Color::Black);
    put(&mut b, 14, PieceType::Pawn, Color::Black);
    put(&mut b, 15, PieceType::Pawn, Color::Black);
    put(&mut b, 56, PieceType::Rook, Color::White);
    put(&mut b, 62, PieceType::King, Color::White);
    let mv = get_best_chess_move(&b, Color::White, &no_rights(), None).expect("a move");
    assert_eq!((mv.from, mv.to), (56, 0));
}

#[test]
fn chess_computer_has_no_move_when_mated() {
    let mut b = initial_board();
    let mut cr = CastlingRights::default();
    let mut ep = None;
    play(&mut b, &mut cr, &mut ep, Color::White, 53, 45);
    play(&mut b, &mut cr, &mut ep, Color::Black, 12, 28);
    play(&mut b, &mut cr, &mut ep, Color::White, 54, 38);
    play(&mut b, &mut cr, &mut ep, Color::Black, 3, 39);
    assert!(get_best_chess_move(&b, Color::White, &cr, ep).is_none());
}

#[test]
fn chess_square_just_below_the_board() {
    let mut b = [None; 64];
    put(&mut b, 57, PieceType::Pawn, Color::Black);
    assert!(is_square_attacked(&b, 64, Color::Black));
    assert!(!is_square_attacked(&b, 64, Color::White));
    let mut c = [None; 64];
    put(&mut c, 57, PieceType::Knight, Color::White);
    assert!(is_square_attacked(&c, 72, Color::White));
    assert!(!is_square_attacked(&c, 73, Color::White));
    assert!(!is_square_attacked(&c, 200, Color::White));
}

fn flip(b: &[Option<ChessPiece>; 64]) -> [Option<ChessPiece>; 64] {
    let mut f = [None; 64];
    for i in 0..64 {
        let j = (7 - i / 8) * 8 + i % 8;
        f[i] = b[j].map(|p| ChessPiece::new(p.piece_type, p.color.opposite()));
    }
    f
}

#[test]
fn chess_evaluation_is_from_whites_side() {
    let mut b = initial_board();
    let mut cr = CastlingRights::default();
    let mut ep = None;
    play(&mut b, &mut cr, &mut ep, Color::White, 52, 36);
    play(&mut b, &mut cr, &mut ep, Color::Black, 1, 18);
    play(&mut b, &mut cr, &mut ep, Color::White, 59, 31);
    let e = evaluate(&b);
    assert!(e != 0);
    assert_eq!(evaluate(&flip(&b)), -e);
}
