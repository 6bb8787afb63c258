use boardgames::xiangqi::ai::{evaluate, get_best_xiangqi_move};
use boardgames::xiangqi::moves::{apply_move, generate_legal_moves, is_checkmate, is_in_check, is_stalemate, XiangqiMove};
use boardgames::xiangqi::{initial_board, piece_to_text, PieceType, XiangqiColor, XiangqiPiece};

fn put(b: &mut [Option<XiangqiPiece>; 90], sq: usize, pt: PieceType, c: XiangqiColor) {
    b[sq] = Some(XiangqiPiece::new(pt, c));
}

#[test]
fn xiangqi_initial_board_layout() {
    let b = initial_board();
    assert_eq!(b[4], Some(XiangqiPiece::new(PieceType::General, XiangqiColor::Black)));
    assert_eq!(b[85], Some(XiangqiPiece::new(PieceType::General, XiangqiColor::Red)));
    assert_eq!(b[19], Some(XiangqiPiece::new(PieceType::Cannon, XiangqiColor::Black)));
    assert_eq!(b[70], Some(XiangqiPiece::new(PieceType::Cannon, XiangqiColor::Red)));
    assert_eq!(b[27], Some(XiangqiPiece::new(PieceType::Soldier, XiangqiColor::Black)));
    assert_eq!(b[62], Some(XiangqiPiece::new(PieceType::Soldier, XiangqiColor::Red)));
    assert_eq!(b[81], Some(XiangqiPiece::new(PieceType::Chariot, XiangqiColor::Red)));
    assert!(b[40].is_none());
    assert_eq!(b.iter().filter(|c| c.is_some()).count(), 32);
}

#[test]
fn xiangqi_piece_characters() {
    assert_eq!(piece_to_text(&XiangqiPiece::new(PieceType::General, XiangqiColor::Red)), "帥");
    assert_eq!(piece_to_text(&XiangqiPiece::new(PieceType::General, XiangqiColor::Black)), "將");
    assert_eq!(piece_to_text(&XiangqiPiece::new(PieceType::Soldier, XiangqiColor::Black)), "卒");
    assert_eq!(piece_to_text(&XiangqiPiece::new(PieceType::Cannon, XiangqiColor::Red)), "炮");
}

#[test]
fn xiangqi_opposite_colors() {
    assert_eq!(XiangqiColor::Red.opposite(), XiangqiColor::Black);
    assert_eq!(XiangqiColor::Black.opposite(), XiangqiColor::Red);
}

#[test]
fn xiangqi_initial_evaluation_is_even() {
    assert_eq!(evaluate(&initial_board()), 0);
}

#[test]
fn xiangqi_forty_four_opening_moves_each() {
    let b = initial_board();
    assert_eq!(generate_legal_moves(&b, XiangqiColor::Red).len(), 44);
    assert_eq!(generate_legal_moves(&b, XiangqiColor::Black).len(), 44);
    assert!(!is_in_check(&b, XiangqiColor::Red));
    assert!(!is_checkmate(&b, XiangqiColor::Red));
    assert!(!is_stalemate(&b, XiangqiColor::Red));
}

#[test]
fn xiangqi_cannon_jumps_to_capture() {
    let b = initial_board();
    let legal = generate_legal_moves(&b, XiangqiColor::Red);
    // the cannon on (7,1) takes the horse on (0,1) over the cannon on (2,1)
    assert!(legal.iter().any(|m| m.from == 64 && m.to == 1));
    assert!(!legal.iter().any(|m| m.from == 64 && m.to == 19));
    let nb = apply_move(&b, &XiangqiMove { from: 64, to: 1 });
    assert_eq!(nb[1], Some(XiangqiPiece::new(PieceType::Cannon, XiangqiColor::Red)));
    assert!(nb[64].is_none());
}

#[test]
fn xiangqi_generals_may_not_face() {
    let mut b = [None; 90];
    put(&mut b, 4, PieceType::General, XiangqiColor::Black);
    put(&mut b, 84, PieceType::General, XiangqiColor::Red);
    let legal = generate_legal_moves(&b, XiangqiColor::Red);
    // moving to the general's column with nothing between is refused
    assert!(!legal.iter().any(|m| m.to == 85));
    assert!(legal.iter().any(|m| m.to == 75));
}

#[test]
fn xiangqi_double_chariot_mate() {
    let mut b = [None; 90];
    put(&mut b, 4, PieceType::General, XiangqiColor::Black);
    put(&mut b, 0, PieceType::Chariot, XiangqiColor::Red);
    put(&mut b, 9, PieceType::Chariot, XiangqiColor::Red);
    put(&mut b, 84, PieceType::General, XiangqiColor::Red);
    assert!(is_in_check(&b, XiangqiColor::Black));
    assert!(is_checkmate(&b, XiangqiColor::Black));
    assert!(!is_stalemate(&b, XiangqiColor::Black));
}

#[test]
fn xiangqi_computer_finds_mate_in_one() {
    let mut b = [None; 90];
    put(&mut b, 4, PieceType::General, XiangqiColor::Black);
    put(&mut b, 9, PieceType::Chariot, XiangqiColor::Red);
    put(&mut b, 26, PieceType::Chariot, XiangqiColor::Red);
    put(&mut b, 84, PieceType::General, XiangqiColor::Red);
    let mv = get_best_xiangqi_move(&b, XiangqiColor::Red).expect("a move");
    // the chosen move leaves Black without a legal move
    let nb = apply_move(&b, &mv);
    assert!(generate_legal_moves(&nb, XiangqiColor::Black).is_empty());
    assert!(generate_legal_moves(&b, XiangqiColor::Red).iter().any(|m| m.from == mv.from && m.to == mv.to));
}

fn flip(b: &[Option<XiangqiPiece>; 90]) -> [Option<XiangqiPiece>; 90] {
    let mut f = [None; 90];
    for i in 0..90 {
        let j = (9 - i / 9) * 9 + i % 9;
        f[i] = b[j].map(|p| XiangqiPiece::new(p.piece_type, p.color.opposite()));
    }
    f
}

#[test]
fn xiangqi_evaluation_is_from_reds_side() {
    let b = initial_board();
    let nb = apply_move(&b, &XiangqiMove { from: 64, to: 1 });
    let e = evaluate(&nb);
    assert!(e > 0);
    assert_eq!(evaluate(&flip(&nb)), -e);
}
