use vstd::prelude::*;
use super::{PieceType, XiangqiColor, XiangqiPiece, other_side};
use super::moves::{XiangqiMove, apply_move, generate_legal_moves, xq_apply, xq_legal_moves, xq_generals_survive,
    xq_move_basic, xq_pseudo_moves, xq_legal_filter, lemma_xq_pseudo_basic};

verus! {

pub open spec fn piece_value_of(pt: PieceType) -> int {
    match pt {
        PieceType::Soldier => 100,
        PieceType::Advisor => 200,
        PieceType::Elephant => 200,
        PieceType::Horse => 400,
        PieceType::Cannon => 450,
        PieceType::Chariot => 900,
        PieceType::General => 20000,
    }
}

fn piece_value(pt: PieceType) -> (r: i32)
    ensures
        r == piece_value_of(pt),
        100 <= r <= 20000,
{
    match pt {
        PieceType::Soldier => 100,
        PieceType::Advisor => 200,
        PieceType::Elephant => 200,
        PieceType::Horse => 400,
        PieceType::Cannon => 450,
        PieceType::Chariot => 900,
        PieceType::General => 20000,
    }
}

/// Piece-square table of the soldier, from Red's side (index 0 = top left).
pub open spec fn soldier_table() -> Seq<int> {
    seq![
        0, 0, 0, 0, 0, 0, 0, 0, 0,
        0, 0, 0, 0, 0, 0, 0, 0, 0,
        0, 0, 0, 0, 0, 0, 0, 0, 0,
        10, 10, 20, 30, 40, 30, 20, 10, 10,
        20, 20, 30, 40, 50, 40, 30, 20, 20,
        10, 10, 20, 30, 30, 30, 20, 10, 10,
        0, 0, 0, 0, 0, 0, 0, 0, 0,
        0, 0, 0, 0, 0, 0, 0, 0, 0,
        0, 0, 0, 0, 0, 0, 0, 0, 0,
        0, 0, 0, 0, 0, 0, 0, 0, 0
    ]
}

fn soldier_pst(sq: usize) -> (r: i32)
    requires
        sq < 90,
    ensures
        r == soldier_table()[sq as int],
        -50 <= r <= 50,
{
    let t: [i32; 90] = [
        0, 0, 0, 0, 0, 0, 0, 0, 0,
        0, 0, 0, 0, 0, 0, 0, 0, 0,
        0, 0, 0, 0, 0, 0, 0, 0, 0,
        10, 10, 20, 30, 40, 30, 20, 10, 10,
        20, 20, 30, 40, 50, 40, 30, 20, 20,
        10, 10, 20, 30, 30, 30, 20, 10, 10,
        0, 0, 0, 0, 0, 0, 0, 0, 0,
        0, 0, 0, 0, 0, 0, 0, 0, 0,
        0, 0, 0, 0, 0, 0, 0, 0, 0,
        0, 0, 0, 0, 0, 0, 0, 0, 0
    ];
    proof {
        assert(t@ =~= seq![
        0i32, 0i32, 0i32, 0i32, 0i32, 0i32, 0i32, 0i32, 0i32,
        0i32, 0i32, 0i32, 0i32, 0i32, 0i32, 0i32, 0i32, 0i32,
        0i32, 0i32, 0i32, 0i32, 0i32, 0i32, 0i32, 0i32, 0i32,
        10i32, 10i32, 20i32, 30i32, 40i32, 30i32, 20i32, 10i32, 10i32,
        20i32, 20i32, 30i32, 40i32, 50i32, 40i32, 30i32, 20i32, 20i32,
        10i32, 10i32, 20i32, 30i32, 30i32, 30i32, 20i32, 10i32, 10i32,
        0i32, 0i32, 0i32, 0i32, 0i32, 0i32, 0i32, 0i32, 0i32,
        0i32, 0i32, 0i32, 0i32, 0i32, 0i32, 0i32, 0i32, 0i32,
        0i32, 0i32, 0i32, 0i32, 0i32, 0i32, 0i32, 0i32, 0i32,
        0i32, 0i32, 0i32, 0i32, 0i32, 0i32, 0i32, 0i32, 0i32
        ]);
    }
    t[sq]
}

/// Piece-square table of the horse, from Red's side (index 0 = top left).
pub open spec fn horse_table() -> Seq<int> {
    seq![
        -10, 0, 0, 0, 0, 0, 0, 0, -10,
        0, 0, 10, 0, 0, 0, 10, 0, 0,
        0, 10, 20, 20, 10, 20, 20, 10, 0,
        0, 10, 20, 30, 30, 30, 20, 10, 0,
        0, 10, 20, 30, 30, 30, 20, 10, 0,
        0, 10, 20, 30, 30, 30, 20, 10, 0,
        0, 10, 20, 20, 10, 20, 20, 10, 0,
        0, 0, 10, 0, 0, 0, 10, 0, 0,
        -10, 0, 0, 0, 0, 0, 0, 0, -10,
        -20, -10, 0, 0, 0, 0, 0, -10, -20
    ]
}

fn horse_pst(sq: usize) -> (r: i32)
    requires
        sq < 90,
    ensures
        r == horse_table()[sq as int],
        -50 <= r <= 50,
{
    let t: [i32; 90] = [
        -10, 0, 0, 0, 0, 0, 0, 0, -10,
        0, 0, 10, 0, 0, 0, 10, 0, 0,
        0, 10, 20, 20, 10, 20, 20, 10, 0,
        0, 10, 20, 30, 30, 30, 20, 10, 0,
        0, 10, 20, 30, 30, 30, 20, 10, 0,
        0, 10, 20, 30, 30, 30, 20, 10, 0,
        0, 10, 20, 20, 10, 20, 20, 10, 0,
        0, 0, 10, 0, 0, 0, 10, 0, 0,
        -10, 0, 0, 0, 0, 0, 0, 0, -10,
        -20, -10, 0, 0, 0, 0, 0, -10, -20
    ];
    proof {
        assert(t@ =~= seq![
        -10i32, 0i32, 0i32, 0i32, 0i32, 0i32, 0i32, 0i32, -10i32,
        0i32, 0i32, 10i32, 0i32, 0i32, 0i32, 10i32, 0i32, 0i32,
        0i32, 10i32, 20i32, 20i32, 10i32, 20i32, 20i32, 10i32, 0i32,
        0i32, 10i32, 20i32, 30i32, 30i32, 30i32, 20i32, 10i32, 0i32,
        0i32, 10i32, 20i32, 30i32, 30i32, 30i32, 20i32, 10i32, 0i32,
        0i32, 10i32, 20i32, 30i32, 30i32, 30i32, 20i32, 10i32, 0i32,
        0i32, 10i32, 20i32, 20i32, 10i32, 20i32, 20i32, 10i32, 0i32,
        0i32, 0i32, 10i32, 0i32, 0i32, 0i32, 10i32, 0i32, 0i32,
        -10i32, 0i32, 0i32, 0i32, 0i32, 0i32, 0i32, 0i32, -10i32,
        -20i32, -10i32, 0i32, 0i32, 0i32, 0i32, 0i32, -10i32, -20i32
        ]);
    }
    t[sq]
}

/// Piece-square table of the cannon, from Red's side (index 0 = top left).
pub open spec fn cannon_table() -> Seq<int> {
    seq![
        0, 10, 0, 10, 0, 10, 0, 10, 0,
        0, 0, 0, 0, 20, 0, 0, 0, 0,
        0, 0, 0, 0, 0, 0, 0, 0, 0,
        0, 0, 0, 0, 0, 0, 0, 0, 0,
        0, 0, 0, 0, 0, 0, 0, 0, 0,
        0, 0, 0, 0, 0, 0, 0, 0, 0,
        0, 0, 0, 0, 0, 0, 0, 0, 0,
        0, 0, 0, 0, 20, 0, 0, 0, 0,
        0, 10, 0, 10, 0, 10, 0, 10, 0,
        10, 10, 0, 20, 0, 20, 0, 10, 10
    ]
}

fn cannon_pst(sq: usize) -> (r: i32)
    requires
        sq < 90,
    ensures
        r == cannon_table()[sq as int],
        -50 <= r <= 50,
{
    let t: [i32; 90] = [
        0, 10, 0, 10, 0, 10, 0, 10, 0,
        0, 0, 0, 0, 20, 0, 0, 0, 0,
        0, 0, 0, 0, 0, 0, 0, 0, 0,
        0, 0, 0, 0, 0, 0, 0, 0, 0,
        0, 0, 0, 0, 0, 0, 0, 0, 0,
        0, 0, 0, 0, 0, 0, 0, 0, 0,
        0, 0, 0, 0, 0, 0, 0, 0, 0,
        0, 0, 0, 0, 20, 0, 0, 0, 0,
        0, 10, 0, 10, 0, 10, 0, 10, 0,
        10, 10, 0, 20, 0, 20, 0, 10, 10
    ];
    proof {
        assert(t@ =~= seq![
        0i32, 10i32, 0i32, 10i32, 0i32, 10i32, 0i32, 10i32, 0i32,
        0i32, 0i32, 0i32, 0i32, 20i32, 0i32, 0i32, 0i32, 0i32,
        0i32, 0i32, 0i32, 0i32, 0i32, 0i32, 0i32, 0i32, 0i32,
        0i32, 0i32, 0i32, 0i32, 0i32, 0i32, 0i32, 0i32, 0i32,
        0i32, 0i32, 0i32, 0i32, 0i32, 0i32, 0i32, 0i32, 0i32,
        0i32, 0i32, 0i32, 0i32, 0i32, 0i32, 0i32, 0i32, 0i32,
        0i32, 0i32, 0i32, 0i32, 0i32, 0i32, 0i32, 0i32, 0i32,
        0i32, 0i32, 0i32, 0i32, 20i32, 0i32, 0i32, 0i32, 0i32,
        0i32, 10i32, 0i32, 10i32, 0i32, 10i32, 0i32, 10i32, 0i32,
        10i32, 10i32, 0i32, 20i32, 0i32, 20i32, 0i32, 10i32, 10i32
        ]);
    }
    t[sq]
}

/// Piece-square table of the chariot, from Red's side (index 0 = top left).
pub open spec fn chariot_table() -> Seq<int> {
    seq![
        10, 10, 10, 20, 20, 20, 10, 10, 10,
        20, 20, 30, 30, 30, 30, 30, 20, 20,
        10, 10, 20, 20, 20, 20, 20, 10, 10,
        0, 0, 10, 10, 10, 10, 10, 0, 0,
        0, 0, 10, 10, 10, 10, 10, 0, 0,
        0, 0, 10, 10, 10, 10, 10, 0, 0,
        0, 0, 10, 10, 10, 10, 10, 0, 0,
        10, 10, 20, 20, 20, 20, 20, 10, 10,
        10, 10, 10, 10, 10, 10, 10, 10, 10,
        0, 0, 0, 10, 10, 10, 0, 0, 0
    ]
}

fn chariot_pst(sq: usize) -> (r: i32)
    requires
        sq < 90,
    ensures
        r == chariot_table()[sq as int],
        -50 <= r <= 50,
{
    let t: [i32; 90] = [
        10, 10, 10, 20, 20, 20, 10, 10, 10,
        20, 20, 30, 30, 30, 30, 30, 20, 20,
        10, 10, 20, 20, 20, 20, 20, 10, 10,
        0, 0, 10, 10, 10, 10, 10, 0, 0,
        0, 0, 10, 10, 10, 10, 10, 0, 0,
        0, 0, 10, 10, 10, 10, 10, 0, 0,
        0, 0, 10, 10, 10, 10, 10, 0, 0,
        10, 10, 20, 20, 20, 20, 20, 10, 10,
        10, 10, 10, 10, 10, 10, 10, 10, 10,
        0, 0, 0, 10, 10, 10, 0, 0, 0
    ];
    proof {
        assert(t@ =~= seq![
        10i32, 10i32, 10i32, 20i32, 20i32, 20i32, 10i32, 10i32, 10i32,
        20i32, 20i32, 30i32, 30i32, 30i32, 30i32, 30i32, 20i32, 20i32,
        10i32, 10i32, 20i32, 20i32, 20i32, 20i32, 20i32, 10i32, 10i32,
        0i32, 0i32, 10i32, 10i32, 10i32, 10i32, 10i32, 0i32, 0i32,
        0i32, 0i32, 10i32, 10i32, 10i32, 10i32, 10i32, 0i32, 0i32,
        0i32, 0i32, 10i32, 10i32, 10i32, 10i32, 10i32, 0i32, 0i32,
        0i32, 0i32, 10i32, 10i32, 10i32, 10i32, 10i32, 0i32, 0i32,
        10i32, 10i32, 20i32, 20i32, 20i32, 20i32, 20i32, 10i32, 10i32,
        10i32, 10i32, 10i32, 10i32, 10i32, 10i32, 10i32, 10i32, 10i32,
        0i32, 0i32, 0i32, 10i32, 10i32, 10i32, 0i32, 0i32, 0i32
        ]);
    }
    t[sq]
}

/// Piece-square table of the general, from Red's side (index 0 = top left).
pub open spec fn general_table() -> Seq<int> {
    seq![
        0, 0, 0, 0, 0, 0, 0, 0, 0,
        0, 0, 0, 0, 0, 0, 0, 0, 0,
        0, 0, 0, 0, 0, 0, 0, 0, 0,
        0, 0, 0, 0, 0, 0, 0, 0, 0,
        0, 0, 0, 0, 0, 0, 0, 0, 0,
        0, 0, 0, 0, 0, 0, 0, 0, 0,
        0, 0, 0, 0, 0, 0, 0, 0, 0,
        0, 0, 0, 5, 5, 5, 0, 0, 0,
        0, 0, 0, 10, 10, 10, 0, 0, 0,
        0, 0, 0, 10, 15, 10, 0, 0, 0
    ]
}

fn general_pst(sq: usize) -> (r: i32)
    requires
        sq < 90,
    ensures
        r == general_table()[sq as int],
        -50 <= r <= 50,
{
    let t: [i32; 90] = [
        0, 0, 0, 0, 0, 0, 0, 0, 0,
        0, 0, 0, 0, 0, 0, 0, 0, 0,
        0, 0, 0, 0, 0, 0, 0, 0, 0,
        0, 0, 0, 0, 0, 0, 0, 0, 0,
        0, 0, 0, 0, 0, 0, 0, 0, 0,
        0, 0, 0, 0, 0, 0, 0, 0, 0,
        0, 0, 0, 0, 0, 0, 0, 0, 0,
        0, 0, 0, 5, 5, 5, 0, 0, 0,
        0, 0, 0, 10, 10, 10, 0, 0, 0,
        0, 0, 0, 10, 15, 10, 0, 0, 0
    ];
    proof {
        assert(t@ =~= seq![
        0i32, 0i32, 0i32, 0i32, 0i32, 0i32, 0i32, 0i32, 0i32,
        0i32, 0i32, 0i32, 0i32, 0i32, 0i32, 0i32, 0i32, 0i32,
        0i32, 0i32, 0i32, 0i32, 0i32, 0i32, 0i32, 0i32, 0i32,
        0i32, 0i32, 0i32, 0i32, 0i32, 0i32, 0i32, 0i32, 0i32,
        0i32, 0i32, 0i32, 0i32, 0i32, 0i32, 0i32, 0i32, 0i32,
        0i32, 0i32, 0i32, 0i32, 0i32, 0i32, 0i32, 0i32, 0i32,
        0i32, 0i32, 0i32, 0i32, 0i32, 0i32, 0i32, 0i32, 0i32,
        0i32, 0i32, 0i32, 5i32, 5i32, 5i32, 0i32, 0i32, 0i32,
        0i32, 0i32, 0i32, 10i32, 10i32, 10i32, 0i32, 0i32, 0i32,
        0i32, 0i32, 0i32, 10i32, 15i32, 10i32, 0i32, 0i32, 0i32
        ]);
    }
    t[sq]
}

/// Piece-square table of the advisor, from Red's side (index 0 = top left).
pub open spec fn advisor_table() -> Seq<int> {
    seq![
        0, 0, 0, 0, 0, 0, 0, 0, 0,
        0, 0, 0, 0, 0, 0, 0, 0, 0,
        0, 0, 0, 0, 0, 0, 0, 0, 0,
        0, 0, 0, 0, 0, 0, 0, 0, 0,
        0, 0, 0, 0, 0, 0, 0, 0, 0,
        0, 0, 0, 0, 0, 0, 0, 0, 0,
        0, 0, 0, 0, 0, 0, 0, 0, 0,
        0, 0, 0, 10, 0, 10, 0, 0, 0,
        0, 0, 0, 0, 15, 0, 0, 0, 0,
        0, 0, 0, 10, 0, 10, 0, 0, 0
    ]
}

fn advisor_pst(sq: usize) -> (r: i32)
    requires
        sq < 90,
    ensures
        r == advisor_table()[sq as int],
        -50 <= r <= 50,
{
    let t: [i32; 90] = [
        0, 0, 0, 0, 0, 0, 0, 0, 0,
        0, 0, 0, 0, 0, 0, 0, 0, 0,
        0, 0, 0, 0, 0, 0, 0, 0, 0,
        0, 0, 0, 0, 0, 0, 0, 0, 0,
        0, 0, 0, 0, 0, 0, 0, 0, 0,
        0, 0, 0, 0, 0, 0, 0, 0, 0,
        0, 0, 0, 0, 0, 0, 0, 0, 0,
        0, 0, 0, 10, 0, 10, 0, 0, 0,
        0, 0, 0, 0, 15, 0, 0, 0, 0,
        0, 0, 0, 10, 0, 10, 0, 0, 0
    ];
    proof {
        assert(t@ =~= seq![
        0i32, 0i32, 0i32, 0i32, 0i32, 0i32, 0i32, 0i32, 0i32,
        0i32, 0i32, 0i32, 0i32, 0i32, 0i32, 0i32, 0i32, 0i32,
        0i32, 0i32, 0i32, 0i32, 0i32, 0i32, 0i32, 0i32, 0i32,
        0i32, 0i32, 0i32, 0i32, 0i32, 0i32, 0i32, 0i32, 0i32,
        0i32, 0i32, 0i32, 0i32, 0i32, 0i32, 0i32, 0i32, 0i32,
        0i32, 0i32, 0i32, 0i32, 0i32, 0i32, 0i32, 0i32, 0i32,
        0i32, 0i32, 0i32, 0i32, 0i32, 0i32, 0i32, 0i32, 0i32,
        0i32, 0i32, 0i32, 10i32, 0i32, 10i32, 0i32, 0i32, 0i32,
        0i32, 0i32, 0i32, 0i32, 15i32, 0i32, 0i32, 0i32, 0i32,
        0i32, 0i32, 0i32, 10i32, 0i32, 10i32, 0i32, 0i32, 0i32
        ]);
    }
    t[sq]
}

/// Piece-square table of the elephant, from Red's side (index 0 = top left).
pub open spec fn elephant_table() -> Seq<int> {
    seq![
        0, 0, 0, 0, 0, 0, 0, 0, 0,
        0, 0, 0, 0, 0, 0, 0, 0, 0,
        0, 0, 0, 0, 0, 0, 0, 0, 0,
        0, 0, 0, 0, 0, 0, 0, 0, 0,
        0, 0, 0, 0, 0, 0, 0, 0, 0,
        0, 10, 0, 0, 0, 0, 0, 10, 0,
        0, 0, 0, 0, 10, 0, 0, 0, 0,
        0, 0, 15, 0, 0, 0, 15, 0, 0,
        0, 0, 0, 0, 0, 0, 0, 0, 0,
        0, 0, 10, 0, 0, 0, 10, 0, 0
    ]
}

fn elephant_pst(sq: usize) -> (r: i32)
    requires
        sq < 90,
    ensures
        r == elephant_table()[sq as int],
        -50 <= r <= 50,
{
    let t: [i32; 90] = [
        0, 0, 0, 0, 0, 0, 0, 0, 0,
        0, 0, 0, 0, 0, 0, 0, 0, 0,
        0, 0, 0, 0, 0, 0, 0, 0, 0,
        0, 0, 0, 0, 0, 0, 0, 0, 0,
        0, 0, 0, 0, 0, 0, 0, 0, 0,
        0, 10, 0, 0, 0, 0, 0, 10, 0,
        0, 0, 0, 0, 10, 0, 0, 0, 0,
        0, 0, 15, 0, 0, 0, 15, 0, 0,
        0, 0, 0, 0, 0, 0, 0, 0, 0,
        0, 0, 10, 0, 0, 0, 10, 0, 0
    ];
    proof {
        assert(t@ =~= seq![
        0i32, 0i32, 0i32, 0i32, 0i32, 0i32, 0i32, 0i32, 0i32,
        0i32, 0i32, 0i32, 0i32, 0i32, 0i32, 0i32, 0i32, 0i32,
        0i32, 0i32, 0i32, 0i32, 0i32, 0i32, 0i32, 0i32, 0i32,
        0i32, 0i32, 0i32, 0i32, 0i32, 0i32, 0i32, 0i32, 0i32,
        0i32, 0i32, 0i32, 0i32, 0i32, 0i32, 0i32, 0i32, 0i32,
        0i32, 10i32, 0i32, 0i32, 0i32, 0i32, 0i32, 10i32, 0i32,
        0i32, 0i32, 0i32, 0i32, 10i32, 0i32, 0i32, 0i32, 0i32,
        0i32, 0i32, 15i32, 0i32, 0i32, 0i32, 15i32, 0i32, 0i32,
        0i32, 0i32, 0i32, 0i32, 0i32, 0i32, 0i32, 0i32, 0i32,
        0i32, 0i32, 10i32, 0i32, 0i32, 0i32, 10i32, 0i32, 0i32
        ]);
    }
    t[sq]
}

/// Square bonus of a piece of type `pt` on square `sq` (Red's view).
pub open spec fn pst_of(pt: PieceType, sq: int) -> int {
    match pt {
        PieceType::Soldier => soldier_table()[sq],
        PieceType::Horse => horse_table()[sq],
        PieceType::Cannon => cannon_table()[sq],
        PieceType::Chariot => chariot_table()[sq],
        PieceType::General => general_table()[sq],
        PieceType::Advisor => advisor_table()[sq],
        PieceType::Elephant => elephant_table()[sq],
    }
}

fn pst_value(piece_type: PieceType, sq: usize) -> (r: i32)
    requires
        sq < 90,
    ensures
        r == pst_of(piece_type, sq as int),
        -50 <= r <= 50,
{
    match piece_type {
        PieceType::Soldier => soldier_pst(sq),
        PieceType::Horse => horse_pst(sq),
        PieceType::Cannon => cannon_pst(sq),
        PieceType::Chariot => chariot_pst(sq),
        PieceType::General => general_pst(sq),
        PieceType::Advisor => advisor_pst(sq),
        PieceType::Elephant => elephant_pst(sq),
    }
}

/// Contribution of the content of square `sq`: material plus square bonus,
/// positive for Red and negative for Black (Black reads the tables with the
/// rows mirrored).
pub open spec fn square_score(c: Option<XiangqiPiece>, sq: int) -> int {
    match c {
        None => 0,
        Some(p) => {
            let pst = if p.color == XiangqiColor::Red {
                pst_of(p.piece_type, sq)
            } else {
                pst_of(p.piece_type, (9 - sq / 9) * 9 + sq % 9)
            };
            if p.color == XiangqiColor::Red {
                piece_value_of(p.piece_type) + pst
            } else {
                -(piece_value_of(p.piece_type) + pst)
            }
        },
    }
}

pub open spec fn eval_upto(b: Seq<Option<XiangqiPiece>>, n: int) -> int
    decreases n,
{
    if n <= 0 { 0 } else { eval_upto(b, n - 1) + square_score(b[n - 1], n - 1) }
}

/// Static evaluation from Red's point of view: the sum of all square scores.
pub open spec fn xq_eval(b: Seq<Option<XiangqiPiece>>) -> int {
    eval_upto(b, 90)
}

/// Evaluate board from Red's perspective. Positive = Red winning.
pub fn evaluate(board: &[Option<XiangqiPiece>; 90]) -> (r: i32)
    ensures
        r == xq_eval(board@),
        -90 * 20050 <= r <= 90 * 20050,
{
    let mut score: i32 = 0;
    let mut sq: usize = 0;
    while sq < 90
        invariant
            sq <= 90,
            score == eval_upto(board@, sq as int),
            -20050 * sq <= score <= 20050 * sq,
        decreases 90 - sq,
    {
        if let Some(piece) = board[sq] {
            let material = piece_value(piece.piece_type);
            let pst = if piece.color == XiangqiColor::Red {
                pst_value(piece.piece_type, sq)
            } else {
                let row = sq / 9;
                let col = sq % 9;
                let mirrored = (9 - row) * 9 + col;
                pst_value(piece.piece_type, mirrored)
            };
            match piece.color {
                XiangqiColor::Red => score += material + pst,
                XiangqiColor::Black => score -= material + pst,
            }
        }
        sq = sq + 1;
    }
    score
}

// ---------------------------------------------------------------------------
// Move ordering: captures by most valuable victim / least valuable attacker,
// in a stable descending sort

/// Ordering key of a move: `10 * victim - attacker` for a capture, else 0.
pub open spec fn order_score(b: Seq<Option<XiangqiPiece>>, mv: XiangqiMove) -> int {
    if b[mv.to as int] is Some {
        10 * piece_value_of(b[mv.to as int]->0.piece_type) - piece_value_of(b[mv.from as int]->0.piece_type)
    } else {
        0
    }
}

fn move_order_score(board: &[Option<XiangqiPiece>; 90], mv: &XiangqiMove) -> (r: i32)
    requires
        mv.from < 90,
        mv.to < 90,
        board@[mv.to as int] is Some ==> board@[mv.from as int] is Some,
    ensures
        r == order_score(board@, *mv),
{
    let mut score: i32 = 0;
    if let Some(captured) = board[mv.to] {
        let attacker = board[mv.from].unwrap();
        score += 10 * piece_value(captured.piece_type) - piece_value(attacker.piece_type);
    }
    score
}

/// Position at which `m` is inserted into `s` (scanning from `k`): before
/// the first move with a strictly smaller key.
pub open spec fn insert_pos(b: Seq<Option<XiangqiPiece>>, s: Seq<XiangqiMove>, m: XiangqiMove, k: int) -> int
    decreases s.len() - k,
{
    if k < 0 || k >= s.len() {
        s.len() as int
    } else if order_score(b, s[k]) < order_score(b, m) {
        k
    } else {
        insert_pos(b, s, m, k + 1)
    }
}

proof fn lemma_insert_pos_range(b: Seq<Option<XiangqiPiece>>, s: Seq<XiangqiMove>, m: XiangqiMove, k: int)
    requires
        0 <= k <= s.len(),
    ensures
        k <= insert_pos(b, s, m, k) <= s.len(),
    decreases s.len() - k,
{
    if k < s.len() {
        lemma_insert_pos_range(b, s, m, k + 1);
    }
}

/// Moves sorted by decreasing key; moves with equal keys keep their order.
pub open spec fn ordered(b: Seq<Option<XiangqiPiece>>, s: Seq<XiangqiMove>) -> Seq<XiangqiMove>
    decreases s.len(),
{
    if s.len() == 0 {
        s
    } else {
        let t = ordered(b, s.drop_last());
        t.insert(insert_pos(b, t, s.last(), 0), s.last())
    }
}

/// Ordering keeps the moves: same length, and every ordered move is one of the input moves.
pub proof fn lemma_ordered_members(b: Seq<Option<XiangqiPiece>>, s: Seq<XiangqiMove>)
    ensures
        ordered(b, s).len() == s.len(),
        forall|k: int| 0 <= k < s.len() ==> s.contains(#[trigger] ordered(b, s)[k]),
    decreases s.len(),
{
    if s.len() > 0 {
        let s0 = s.drop_last();
        lemma_ordered_members(b, s0);
        let t = ordered(b, s0);
        let p = insert_pos(b, t, s.last(), 0);
        lemma_insert_pos_range(b, t, s.last(), 0);
        t.insert_ensures(p, s.last());
        assert forall|k: int| 0 <= k < s.len() implies s.contains(#[trigger] ordered(b, s)[k]) by {
            if k < p {
                assert(s0.contains(t[k]));
                let j = choose|j: int| 0 <= j < s0.len() && s0[j] == t[k];
                assert(s[j] == s0[j]);
            } else if k == p {
                assert(s[s.len() - 1] == s.last());
            } else {
                assert(ordered(b, s)[k] == t[k - 1]);
                assert(s0.contains(t[k - 1]));
                let j = choose|j: int| 0 <= j < s0.len() && s0[j] == t[k - 1];
                assert(s[j] == s0[j]);
            }
        }
    }
}

fn order_moves(board: &[Option<XiangqiPiece>; 90], moves: &mut Vec<XiangqiMove>)
    requires
        forall|k: int| 0 <= k < old(moves)@.len() ==> {
            &&& (#[trigger] old(moves)@[k]).from < 90
            &&& old(moves)@[k].to < 90
            &&& board@[old(moves)@[k].to as int] is Some ==> board@[old(moves)@[k].from as int] is Some
        },
    ensures
        final(moves)@ == ordered(board@, old(moves)@),
{
    let ghost m0 = moves@;
    let ghost b = board@;
    let mut sorted: Vec<XiangqiMove> = Vec::new();
    let mut keys: Vec<i32> = Vec::new();
    let mut i: usize = 0;
    while i < moves.len()
        invariant
            moves@ == m0,
            b == board@,
            forall|k: int| 0 <= k < m0.len() ==> {
                &&& (#[trigger] m0[k]).from < 90
                &&& m0[k].to < 90
                &&& b[m0[k].to as int] is Some ==> b[m0[k].from as int] is Some
            },
            i <= m0.len(),
            sorted@ == ordered(b, m0.take(i as int)),
            keys@.len() == sorted@.len(),
            forall|k: int| 0 <= k < keys@.len() ==> #[trigger] keys@[k] == order_score(b, sorted@[k]),
        decreases m0.len() - i,
    {
        let mv = moves[i];
        let key = move_order_score(board, &mv);
        let mut j: usize = 0;
        while j < sorted.len() && keys[j] >= key
            invariant
                j <= sorted@.len(),
                keys@.len() == sorted@.len(),
                forall|k: int| 0 <= k < keys@.len() ==> #[trigger] keys@[k] == order_score(b, sorted@[k]),
                key == order_score(b, mv),
                insert_pos(b, sorted@, mv, 0) == insert_pos(b, sorted@, mv, j as int),
            decreases sorted@.len() - j,
        {
            j = j + 1;
        }
        let ghost t = sorted@;
        let ghost kt = keys@;
        proof {
            t.insert_ensures(j as int, mv);
            kt.insert_ensures(j as int, key);
        }
        sorted.insert(j, mv);
        keys.insert(j, key);
        proof {
            assert forall|k: int| 0 <= k < keys@.len() implies #[trigger] keys@[k] == order_score(b, sorted@[k]) by {
                if k < j {
                    assert(keys@[k] == kt[k]);
                } else if k > j {
                    assert(keys@[k] == kt[k - 1]);
                    assert(sorted@[k] == t[k - 1]);
                }
            }
            assert(m0.take(i + 1).drop_last() =~= m0.take(i as int));
            assert(m0.take(i + 1).last() == mv);
        }
        i = i + 1;
    }
    proof {
        assert(m0.take(m0.len() as int) =~= m0);
    }
    *moves = sorted;
}

// ---------------------------------------------------------------------------
// Alpha-beta search

/// Value of the alpha-beta search of a xiangqi position: the static
/// evaluation at depth 0; a side without legal moves loses (checkmate and
/// stalemate alike): -100000 - depth for the maximizing side, 100000 + depth
/// for the minimizing side; otherwise the search over the ordered legal moves.
pub open spec fn xq_search(b: Seq<Option<XiangqiPiece>>, c: XiangqiColor, depth: int, alpha: int, beta: int, maximizing: bool) -> int
    decreases depth, 1int, 0int,
{
    if depth <= 0 {
        xq_eval(b)
    } else if xq_legal_moves(b, c).len() == 0 {
        if maximizing { -100000 - depth } else { 100000 + depth }
    } else {
        xq_search_loop(b, c, depth, ordered(b, xq_legal_moves(b, c)), 0, alpha, beta, maximizing,
            if maximizing { i32::MIN + 1 } else { i32::MAX - 1 })
    }
}

/// The alpha-beta loop over `moves[k..]` with running best `best`; it stops
/// as soon as `beta <= alpha`.
pub open spec fn xq_search_loop(
    b: Seq<Option<XiangqiPiece>>,
    c: XiangqiColor,
    depth: int,
    moves: Seq<XiangqiMove>,
    k: int,
    alpha: int,
    beta: int,
    maximizing: bool,
    best: int,
) -> int
    decreases depth, 0int, moves.len() - k,
{
    if depth <= 0 || k < 0 || k >= moves.len() {
        best
    } else {
        let e = xq_search(xq_apply(b, moves[k]), other_side(c), depth - 1, alpha, beta, !maximizing);
        if maximizing {
            let nbest = if e > best { e } else { best };
            let nalpha = if e > alpha { e } else { alpha };
            if beta <= nalpha {
                nbest
            } else {
                xq_search_loop(b, c, depth, moves, k + 1, nalpha, beta, maximizing, nbest)
            }
        } else {
            let nbest = if e < best { e } else { best };
            let nbeta = if e < beta { e } else { beta };
            if nbeta <= alpha {
                nbest
            } else {
                xq_search_loop(b, c, depth, moves, k + 1, alpha, nbeta, maximizing, nbest)
            }
        }
    }
}

/// The search to `depth` never asks for a general that is not on the board.
pub open spec fn xq_search_safe(b: Seq<Option<XiangqiPiece>>, c: XiangqiColor, depth: int) -> bool
    decreases depth,
{
    depth <= 0 || {
        &&& xq_generals_survive(b, c)
        &&& forall|k: int|
            0 <= k < xq_legal_moves(b, c).len() ==> xq_search_safe(
                xq_apply(b, #[trigger] xq_legal_moves(b, c)[k]),
                other_side(c),
                depth - 1,
            )
    }
}

/// Legal moves are pseudo-legal moves.
pub proof fn lemma_xq_legal_filter_members(b: Seq<Option<XiangqiPiece>>, c: XiangqiColor, s: Seq<XiangqiMove>)
    ensures
        forall|k: int| 0 <= k < xq_legal_filter(b, c, s).len() ==> s.contains(#[trigger] xq_legal_filter(b, c, s)[k]),
    decreases s.len(),
{
    if s.len() > 0 {
        let s0 = s.drop_last();
        lemma_xq_legal_filter_members(b, c, s0);
        let a = xq_legal_filter(b, c, s0);
        let l = xq_legal_filter(b, c, s);
        assert forall|k: int| 0 <= k < l.len() implies s.contains(#[trigger] l[k]) by {
            if k < a.len() {
                assert(l[k] == a[k]);
                assert(s0.contains(a[k]));
                let j = choose|j: int| 0 <= j < s0.len() && s0[j] == a[k];
                assert(s[j] == s0[j]);
            } else {
                assert(l[k] == s.last());
                assert(s[s.len() - 1] == s.last());
            }
        }
    }
}

/// Every legal move of `c` moves a piece of `c` within the board.
pub proof fn lemma_xq_legal_basic(b: Seq<Option<XiangqiPiece>>, c: XiangqiColor)
    ensures
        forall|k: int| 0 <= k < xq_legal_moves(b, c).len() ==> xq_move_basic(b, c, #[trigger] xq_legal_moves(b, c)[k]),
{
    lemma_xq_pseudo_basic(b, c);
    lemma_xq_legal_filter_members(b, c, xq_pseudo_moves(b, c));
    assert forall|k: int| 0 <= k < xq_legal_moves(b, c).len() implies xq_move_basic(b, c, #[trigger] xq_legal_moves(b, c)[k]) by {
        let ps = xq_pseudo_moves(b, c);
        assert(ps.contains(xq_legal_moves(b, c)[k]));
        let j = choose|j: int| 0 <= j < ps.len() && ps[j] == xq_legal_moves(b, c)[k];
        assert(xq_move_basic(b, c, ps[j]));
    }
}

#[verifier::rlimit(50)]
fn alpha_beta(board: &[Option<XiangqiPiece>; 90], color: XiangqiColor, depth: i32, alpha: i32, beta: i32, maximizing: bool) -> (r: i32)
    requires
        0 <= depth <= i32::MAX - 100000,
        xq_search_safe(board@, color, depth as int),
    ensures
        r == xq_search(board@, color, depth as int, alpha as int, beta as int, maximizing),
    decreases depth,
{
    if depth == 0 {
        return evaluate(board);
    }

    let mut moves = generate_legal_moves(board, color);

    if moves.is_empty() {
        // No legal moves: checkmate or stalemate (both are losses in xiangqi)
        return if maximizing {
            -100000 - depth
        } else {
            100000 + depth
        };
    }

    let ghost legal = moves@;
    proof {
        lemma_xq_legal_basic(board@, color);
    }
    order_moves(board, &mut moves);
    proof {
        lemma_ordered_members(board@, legal);
    }
    let ghost alpha0 = alpha as int;
    let ghost beta0 = beta as int;
    let mut lo = alpha;
    let mut hi = beta;
    let mut best: i32 = if maximizing { i32::MIN + 1 } else { i32::MAX - 1 };
    let mut k: usize = 0;
    while k < moves.len()
        invariant
            0 < depth <= i32::MAX - 100000,
            xq_search_safe(board@, color, depth as int),
            legal == xq_legal_moves(board@, color),
            legal.len() > 0,
            forall|j: int| 0 <= j < legal.len() ==> xq_move_basic(board@, color, #[trigger] legal[j]),
            moves@ == ordered(board@, legal),
            moves@.len() == legal.len(),
            forall|j: int| 0 <= j < legal.len() ==> legal.contains(#[trigger] moves@[j]),
            k <= moves.len(),
            alpha0 == alpha as int,
            beta0 == beta as int,
            xq_search(board@, color, depth as int, alpha0, beta0, maximizing)
                == xq_search_loop(board@, color, depth as int, moves@, k as int, lo as int, hi as int, maximizing, best as int),
        decreases moves.len() - k,
    {
        let mv = moves[k];
        proof {
            assert(legal.contains(moves@[k as int]));
            let j = choose|j: int| 0 <= j < legal.len() && legal[j] == mv;
            assert(xq_move_basic(board@, color, legal[j]));
            assert(xq_search_safe(xq_apply(board@, legal[j]), other_side(color), depth - 1));
        }
        let new_board = apply_move(board, &mv);
        let eval = alpha_beta(&new_board, color.opposite(), depth - 1, lo, hi, !maximizing);
        if maximizing {
            if eval > best {
                best = eval;
            }
            if eval > lo {
                lo = eval;
            }
        } else {
            if eval < best {
                best = eval;
            }
            if eval < hi {
                hi = eval;
            }
        }
        if hi <= lo {
            return best;
        }
        k = k + 1;
    }
    best
}

/// Scan of the root moves: the first move with the strictly best search value
/// (highest for Red, lowest for Black).
pub open spec fn xq_best_scan(
    b: Seq<Option<XiangqiPiece>>,
    turn: XiangqiColor,
    moves: Seq<XiangqiMove>,
    k: int,
    best_score: int,
    best_move: Option<XiangqiMove>,
) -> Option<XiangqiMove>
    decreases moves.len() - k,
{
    if k < 0 || k >= moves.len() {
        best_move
    } else {
        let m = moves[k];
        let maximizing = turn == XiangqiColor::Red;
        let score = xq_search(xq_apply(b, m), other_side(turn), 2, i32::MIN + 1, i32::MAX - 1, !maximizing);
        let is_better = if maximizing { score > best_score } else { score < best_score };
        if is_better {
            xq_best_scan(b, turn, moves, k + 1, score, Some(m))
        } else {
            xq_best_scan(b, turn, moves, k + 1, best_score, best_move)
        }
    }
}

/// The move chosen by the computer: `None` without legal moves, otherwise the
/// best root move of a three-ply alpha-beta search over the ordered legal moves.
pub open spec fn best_xiangqi_move(b: Seq<Option<XiangqiPiece>>, turn: XiangqiColor) -> Option<XiangqiMove> {
    let legal = xq_legal_moves(b, turn);
    if legal.len() == 0 {
        None
    } else {
        xq_best_scan(b, turn, ordered(b, legal), 0, if turn == XiangqiColor::Red { i32::MIN + 1 } else { i32::MAX - 1 }, None)
    }
}

/// The root search of `turn` is safe: after each legal move the rest of the
/// search is safe.
pub open spec fn xq_root_safe(b: Seq<Option<XiangqiPiece>>, turn: XiangqiColor) -> bool {
    &&& xq_generals_survive(b, turn)
    &&& forall|k: int|
        0 <= k < xq_legal_moves(b, turn).len() ==> xq_search_safe(
            xq_apply(b, #[trigger] xq_legal_moves(b, turn)[k]),
            other_side(turn),
            2,
        )
}

/// Find the best move for the given side using alpha-beta search at depth 3.
pub fn get_best_xiangqi_move(board: &[Option<XiangqiPiece>; 90], turn: XiangqiColor) -> (r: Option<XiangqiMove>)
    requires
        xq_root_safe(board@, turn),
    ensures
        r == best_xiangqi_move(board@, turn),
{
    let mut moves = generate_legal_moves(board, turn);
    if moves.is_empty() {
        return None;
    }
    let ghost legal = moves@;
    proof {
        lemma_xq_legal_basic(board@, turn);
    }
    order_moves(board, &mut moves);
    proof {
        lemma_ordered_members(board@, legal);
    }

    let maximizing = turn == XiangqiColor::Red;
    let mut best_score = if maximizing { i32::MIN + 1 } else { i32::MAX - 1 };
    let mut best_move: Option<XiangqiMove> = None;
    let mut k: usize = 0;
    while k < moves.len()
        invariant
            xq_root_safe(board@, turn),
            legal == xq_legal_moves(board@, turn),
            legal.len() > 0,
            forall|j: int| 0 <= j < legal.len() ==> xq_move_basic(board@, turn, #[trigger] legal[j]),
            moves@ == ordered(board@, legal),
            moves@.len() == legal.len(),
            forall|j: int| 0 <= j < legal.len() ==> legal.contains(#[trigger] moves@[j]),
            maximizing == (turn == XiangqiColor::Red),
            k <= moves.len(),
            best_xiangqi_move(board@, turn) == xq_best_scan(board@, turn, moves@, k as int, best_score as int, best_move),
        decreases moves.len() - k,
    {
        let mv = moves[k];
        proof {
            assert(legal.contains(moves@[k as int]));
            let j = choose|j: int| 0 <= j < legal.len() && legal[j] == mv;
            assert(xq_move_basic(board@, turn, legal[j]));
            assert(xq_search_safe(xq_apply(board@, legal[j]), other_side(turn), 2));
        }
        let new_board = apply_move(board, &mv);
        let score = alpha_beta(&new_board, turn.opposite(), 2, i32::MIN + 1, i32::MAX - 1, !maximizing);
        let is_better = if maximizing { score > best_score } else { score < best_score };
        if is_better {
            best_score = score;
            best_move = Some(mv);
        }
        k = k + 1;
    }
    best_move
}

proof fn lemma_xq_best_scan_member(
    b: Seq<Option<XiangqiPiece>>,
    turn: XiangqiColor,
    moves: Seq<XiangqiMove>,
    k: int,
    best_score: int,
    best_move: Option<XiangqiMove>,
)
    requires
        0 <= k,
        best_move matches Some(m) ==> moves.contains(m),
    ensures
        xq_best_scan(b, turn, moves, k, best_score, best_move) matches Some(m) ==> moves.contains(m),
    decreases moves.len() - k,
{
    if k < moves.len() {
        let m = moves[k];
        assert(moves.contains(m));
        let maximizing = turn == XiangqiColor::Red;
        let score = xq_search(xq_apply(b, m), other_side(turn), 2, i32::MIN + 1, i32::MAX - 1, !maximizing);
        let is_better = if maximizing { score > best_score } else { score < best_score };
        if is_better {
            lemma_xq_best_scan_member(b, turn, moves, k + 1, score, Some(m));
        } else {
            lemma_xq_best_scan_member(b, turn, moves, k + 1, best_score, best_move);
        }
    }
}

/// The computer only chooses legal moves.
pub proof fn lemma_best_xiangqi_move_legal(b: Seq<Option<XiangqiPiece>>, turn: XiangqiColor)
    ensures
        best_xiangqi_move(b, turn) matches Some(m) ==> xq_legal_moves(b, turn).contains(m),
{
    let legal = xq_legal_moves(b, turn);
    if legal.len() > 0 {
        let o = ordered(b, legal);
        lemma_ordered_members(b, legal);
        lemma_xq_best_scan_member(b, turn, o, 0, if turn == XiangqiColor::Red { i32::MIN + 1 } else { i32::MAX - 1 }, None);
        if best_xiangqi_move(b, turn) is Some {
            let m = best_xiangqi_move(b, turn)->0;
            let j = choose|j: int| 0 <= j < o.len() && o[j] == m;
            assert(legal.contains(o[j]));
        }
    }
}

// ---------------------------------------------------------------------------
// The computer always answers when it can move

proof fn lemma_pst_bounds(pt: PieceType, sq: int)
    requires
        0 <= sq < 90,
    ensures
        -50 <= pst_of(pt, sq) <= 50,
{
    match pt {
        PieceType::Soldier => assert(-50 <= soldier_table()[sq] <= 50),
        PieceType::Horse => assert(-50 <= horse_table()[sq] <= 50),
        PieceType::Cannon => assert(-50 <= cannon_table()[sq] <= 50),
        PieceType::Chariot => assert(-50 <= chariot_table()[sq] <= 50),
        PieceType::General => assert(-50 <= general_table()[sq] <= 50),
        PieceType::Advisor => assert(-50 <= advisor_table()[sq] <= 50),
        PieceType::Elephant => assert(-50 <= elephant_table()[sq] <= 50),
    }
}

proof fn lemma_eval_upto_bounds(b: Seq<Option<XiangqiPiece>>, n: int)
    requires
        0 <= n <= 90,
    ensures
        -20050 * n <= eval_upto(b, n) <= 20050 * n,
    decreases n,
{
    if n > 0 {
        lemma_eval_upto_bounds(b, n - 1);
        let sq = n - 1;
        if b[sq] is Some {
            let p = b[sq]->0;
            lemma_pst_bounds(p.piece_type, sq);
            lemma_pst_bounds(p.piece_type, (9 - sq / 9) * 9 + sq % 9);
        }
    }
}

/// Bound on every value of the search to depth at most 10.
pub open spec fn xq_search_bound() -> int {
    90 * 20050int
}

proof fn lemma_xq_search_bounds(b: Seq<Option<XiangqiPiece>>, c: XiangqiColor, depth: int, alpha: int, beta: int, maximizing: bool)
    requires
        depth <= 10,
    ensures
        -xq_search_bound() <= xq_search(b, c, depth, alpha, beta, maximizing) <= xq_search_bound(),
    decreases depth, 1int, 0int,
{
    if depth <= 0 {
        lemma_eval_upto_bounds(b, 90);
    } else if xq_legal_moves(b, c).len() != 0 {
        lemma_xq_loop_bounds(b, c, depth, ordered(b, xq_legal_moves(b, c)), 0, alpha, beta, maximizing,
            if maximizing { i32::MIN + 1 } else { i32::MAX - 1 });
        lemma_ordered_members(b, xq_legal_moves(b, c));
    }
}

proof fn lemma_xq_loop_bounds(
    b: Seq<Option<XiangqiPiece>>,
    c: XiangqiColor,
    depth: int,
    moves: Seq<XiangqiMove>,
    k: int,
    alpha: int,
    beta: int,
    maximizing: bool,
    best: int,
)
    requires
        1 <= depth <= 10,
        0 <= k,
        (-xq_search_bound() <= best <= xq_search_bound()) || best == (if maximizing { i32::MIN + 1 } else { i32::MAX - 1 }),
    ensures
        (k < moves.len() || -xq_search_bound() <= best <= xq_search_bound()) ==> -xq_search_bound()
            <= xq_search_loop(b, c, depth, moves, k, alpha, beta, maximizing, best) <= xq_search_bound(),
    decreases depth, 0int, moves.len() - k,
{
    if k < moves.len() {
        let m = moves[k];
        lemma_xq_search_bounds(xq_apply(b, m), other_side(c), depth - 1, alpha, beta, !maximizing);
        let e = xq_search(xq_apply(b, m), other_side(c), depth - 1, alpha, beta, !maximizing);
        if maximizing {
            let nbest = if e > best { e } else { best };
            let nalpha = if e > alpha { e } else { alpha };
            lemma_xq_loop_bounds(b, c, depth, moves, k + 1, nalpha, beta, maximizing, nbest);
        } else {
            let nbest = if e < best { e } else { best };
            let nbeta = if e < beta { e } else { beta };
            lemma_xq_loop_bounds(b, c, depth, moves, k + 1, alpha, nbeta, maximizing, nbest);
        }
    }
}

proof fn lemma_xq_best_scan_some(
    b: Seq<Option<XiangqiPiece>>,
    turn: XiangqiColor,
    moves: Seq<XiangqiMove>,
    k: int,
    best_score: int,
    best_move: Option<XiangqiMove>,
)
    requires
        0 <= k,
        best_move is Some || (k < moves.len() && best_score == (if turn == XiangqiColor::Red { i32::MIN + 1 } else { i32::MAX - 1 })),
    ensures
        xq_best_scan(b, turn, moves, k, best_score, best_move) is Some,
    decreases moves.len() - k,
{
    if k < moves.len() {
        let m = moves[k];
        let maximizing = turn == XiangqiColor::Red;
        lemma_xq_search_bounds(xq_apply(b, m), other_side(turn), 2, i32::MIN + 1, i32::MAX - 1, !maximizing);
        let score = xq_search(xq_apply(b, m), other_side(turn), 2, i32::MIN + 1, i32::MAX - 1, !maximizing);
        let is_better = if maximizing { score > best_score } else { score < best_score };
        if is_better {
            lemma_xq_best_scan_some(b, turn, moves, k + 1, score, Some(m));
        } else {
            lemma_xq_best_scan_some(b, turn, moves, k + 1, best_score, best_move);
        }
    }
}

/// The computer chooses a move exactly when the side to move has a legal move.
pub proof fn lemma_best_xiangqi_move_some(b: Seq<Option<XiangqiPiece>>, turn: XiangqiColor)
    ensures
        best_xiangqi_move(b, turn) is Some <==> xq_legal_moves(b, turn).len() > 0,
{
    let legal = xq_legal_moves(b, turn);
    if legal.len() > 0 {
        lemma_ordered_members(b, legal);
        lemma_xq_best_scan_some(b, turn, ordered(b, legal), 0, if turn == XiangqiColor::Red { i32::MIN + 1 } else { i32::MAX - 1 }, None);
    }
}

// ---------------------------------------------------------------------------
// Move ordering sorts

proof fn lemma_insert_pos_props(b: Seq<Option<XiangqiPiece>>, s: Seq<XiangqiMove>, m: XiangqiMove, k: int)
    requires
        0 <= k <= s.len(),
    ensures
        forall|j: int| k <= j < insert_pos(b, s, m, k) ==> order_score(b, #[trigger] s[j]) >= order_score(b, m),
        insert_pos(b, s, m, k) < s.len() ==> order_score(b, s[insert_pos(b, s, m, k)]) < order_score(b, m),
    decreases s.len() - k,
{
    if k < s.len() {
        lemma_insert_pos_props(b, s, m, k + 1);
    }
}

/// The moves of `s` come in order of non-increasing key.
pub open spec fn sorted_by_score(b: Seq<Option<XiangqiPiece>>, s: Seq<XiangqiMove>) -> bool {
    forall|i: int, j: int| 0 <= i < j < s.len() ==> order_score(b, #[trigger] s[i]) >= order_score(b, #[trigger] s[j])
}

/// Move ordering puts the moves in order of non-increasing key: the most
/// valuable captures by the cheapest pieces come first.
pub proof fn lemma_ordered_sorted(b: Seq<Option<XiangqiPiece>>, s: Seq<XiangqiMove>)
    ensures
        sorted_by_score(b, ordered(b, s)),
    decreases s.len(),
{
    if s.len() > 0 {
        let s0 = s.drop_last();
        let m = s.last();
        lemma_ordered_sorted(b, s0);
        let t = ordered(b, s0);
        let p = insert_pos(b, t, m, 0);
        lemma_insert_pos_range(b, t, m, 0);
        lemma_insert_pos_props(b, t, m, 0);
        t.insert_ensures(p, m);
        let u = ordered(b, s);
        assert(u == t.insert(p, m));
        assert forall|i: int, j: int| 0 <= i < j < u.len() implies order_score(b, #[trigger] u[i]) >= order_score(
            b,
            #[trigger] u[j],
        ) by {
            if j < p {
                assert(u[i] == t[i] && u[j] == t[j]);
            } else if j == p {
                assert(u[i] == t[i]);
            } else if i < p {
                assert(u[i] == t[i] && u[j] == t[j - 1]);
            } else if i == p {
                assert(u[j] == t[j - 1]);
                assert(order_score(b, t[p]) < order_score(b, m));
                if j - 1 > p {
                    assert(order_score(b, t[p]) >= order_score(b, t[j - 1]));
                }
            } else {
                assert(u[i] == t[i - 1] && u[j] == t[j - 1]);
            }
        }
    }
}

// ---------------------------------------------------------------------------
// The evaluation takes Red's side

/// The board seen from the other side: rows mirrored and colours swapped.
pub open spec fn flipped(b: Seq<Option<XiangqiPiece>>) -> Seq<Option<XiangqiPiece>> {
    Seq::new(
        90,
        |i: int|
            match b[(9 - i / 9) * 9 + i % 9] {
                Some(p) => Some(XiangqiPiece { piece_type: p.piece_type, color: other_side(p.color) }),
                None => None,
            },
    )
}

/// Sum of the square scores of the first `c` points of row `r`.
pub open spec fn cols_upto(b: Seq<Option<XiangqiPiece>>, r: int, c: int) -> int
    decreases c,
{
    if c <= 0 { 0 } else { cols_upto(b, r, c - 1) + square_score(b[9 * r + c - 1], 9 * r + c - 1) }
}

/// Sum of the square scores of the first `r` rows.
pub open spec fn rows_upto(b: Seq<Option<XiangqiPiece>>, r: int) -> int
    decreases r,
{
    if r <= 0 { 0 } else { rows_upto(b, r - 1) + cols_upto(b, r - 1, 9) }
}

proof fn lemma_eval_by_rows(b: Seq<Option<XiangqiPiece>>, r: int, c: int)
    requires
        0 <= r,
        0 <= c <= 9,
    ensures
        eval_upto(b, 9 * r + c) == rows_upto(b, r) + cols_upto(b, r, c),
    decreases r, c,
{
    if c == 0 {
        if r > 0 {
            lemma_eval_by_rows(b, r - 1, 9);
        }
    } else {
        lemma_eval_by_rows(b, r, c - 1);
    }
}

proof fn lemma_flipped_cols(b: Seq<Option<XiangqiPiece>>, r: int, c: int)
    requires
        0 <= r < 10,
        0 <= c <= 9,
    ensures
        cols_upto(flipped(b), r, c) == -cols_upto(b, 9 - r, c),
    decreases c,
{
    if c > 0 {
        lemma_flipped_cols(b, r, c - 1);
        let i = 9 * r + c - 1;
        let j = 9 * (9 - r) + c - 1;
        assert(i / 9 == r && i % 9 == c - 1);
        assert(j / 9 == 9 - r && j % 9 == c - 1);
        assert((9 - i / 9) * 9 + i % 9 == j);
        assert((9 - j / 9) * 9 + j % 9 == i);
        assert(flipped(b)[i] == (match b[j] {
            Some(p) => Some(XiangqiPiece { piece_type: p.piece_type, color: other_side(p.color) }),
            None => None,
        }));
    }
}

/// Evaluation is from Red's side: seen from the other side, the board
/// evaluates to the opposite value.
pub proof fn lemma_eval_flipped(b: Seq<Option<XiangqiPiece>>)
    ensures
        xq_eval(flipped(b)) == -xq_eval(b),
{
    let f = flipped(b);
    lemma_eval_by_rows(b, 10, 0);
    lemma_eval_by_rows(f, 10, 0);
    lemma_flipped_cols(b, 0, 9);
    lemma_flipped_cols(b, 1, 9);
    lemma_flipped_cols(b, 2, 9);
    lemma_flipped_cols(b, 3, 9);
    lemma_flipped_cols(b, 4, 9);
    lemma_flipped_cols(b, 5, 9);
    lemma_flipped_cols(b, 6, 9);
    lemma_flipped_cols(b, 7, 9);
    lemma_flipped_cols(b, 8, 9);
    lemma_flipped_cols(b, 9, 9);
    reveal_with_fuel(rows_upto, 11);
}

/// Ordering is a permutation: the same moves, each as often.
pub proof fn lemma_ordered_permutation(b: Seq<Option<XiangqiPiece>>, s: Seq<XiangqiMove>)
    ensures
        ordered(b, s).to_multiset() == s.to_multiset(),
    decreases s.len(),
{
    if s.len() > 0 {
        let s0 = s.drop_last();
        let m = s.last();
        lemma_ordered_permutation(b, s0);
        let t = ordered(b, s0);
        lemma_ordered_members(b, s0);
        let p = insert_pos(b, t, m, 0);
        lemma_insert_pos_range(b, t, m, 0);
        vstd::seq_lib::to_multiset_insert(t, p, m);
        vstd::seq_lib::to_multiset_build(s0, m);
        assert(s0.push(m) =~= s);
    }
}

// ---------------------------------------------------------------------------
// The computer's choice is best by its search

/// Value by the depth-3 search of playing `m`: the search of the position
/// after `m`, two plies deep, with the other side to move.
pub open spec fn xiangqi_move_value(b: Seq<Option<XiangqiPiece>>, turn: XiangqiColor, m: XiangqiMove) -> int {
    xq_search(xq_apply(b, m), other_side(turn), 2, i32::MIN + 1, i32::MAX - 1, !(turn == XiangqiColor::Red))
}

/// `x` is no better than `y` for `turn`: not higher when `turn` maximises,
/// not lower when it minimises.
pub open spec fn no_better(turn: XiangqiColor, x: int, y: int) -> bool {
    if turn == XiangqiColor::Red { x <= y } else { x >= y }
}

/// `x` is worse than `y` for `turn`.
pub open spec fn worse(turn: XiangqiColor, x: int, y: int) -> bool {
    if turn == XiangqiColor::Red { x < y } else { x > y }
}

proof fn lemma_xq_best_scan_best(
    b: Seq<Option<XiangqiPiece>>, turn: XiangqiColor,
    moves: Seq<XiangqiMove>,
    k: int,
    best_score: int,
    best_move: Option<XiangqiMove>,
)
    requires
        0 <= k <= moves.len(),
        forall|j: int| 0 <= j < k ==> no_better(turn, #[trigger] xiangqi_move_value(b, turn, moves[j]), best_score),
        best_move matches Some(m) ==> exists|p: int| {
            &&& 0 <= p < k && #[trigger] moves[p] == m
            &&& xiangqi_move_value(b, turn, m) == best_score
            &&& forall|j: int| 0 <= j < p ==> worse(turn, #[trigger] xiangqi_move_value(b, turn, moves[j]), best_score)
        },
    ensures
        xq_best_scan(b, turn, moves, k, best_score, best_move) matches Some(m) ==> exists|p: int| {
            &&& 0 <= p < moves.len() && #[trigger] moves[p] == m
            &&& forall|j: int| 0 <= j < moves.len() ==> no_better(turn, #[trigger] xiangqi_move_value(b, turn, moves[j]), xiangqi_move_value(b, turn, m))
            &&& forall|j: int| 0 <= j < p ==> worse(turn, #[trigger] xiangqi_move_value(b, turn, moves[j]), xiangqi_move_value(b, turn, m))
        },
    decreases moves.len() - k,
{
    if k < moves.len() {
        let m = moves[k];
        let score = xiangqi_move_value(b, turn, m);
        let is_better = if turn == XiangqiColor::Red { score > best_score } else { score < best_score };
        if is_better {
            assert(moves[k] == m);
            lemma_xq_best_scan_best(b, turn, moves, k + 1, score, Some(m));
        } else {
            lemma_xq_best_scan_best(b, turn, moves, k + 1, best_score, best_move);
        }
    }
}

/// The computer's move has the best depth-3 search value among all legal
/// moves (highest for the maximising side, lowest for the other), and among
/// equally good moves it is the first in move-ordering order.
pub proof fn lemma_best_xiangqi_move_is_best(b: Seq<Option<XiangqiPiece>>, turn: XiangqiColor)
    ensures
        best_xiangqi_move(b, turn) matches Some(m) ==> {
            &&& xq_legal_moves(b, turn).contains(m)
            &&& forall|m2: XiangqiMove| xq_legal_moves(b, turn).contains(m2) ==> no_better(turn, #[trigger] xiangqi_move_value(b, turn, m2), xiangqi_move_value(b, turn, m))
            &&& exists|p: int| {
                &&& 0 <= p < ordered(b, xq_legal_moves(b, turn)).len() && #[trigger] ordered(b, xq_legal_moves(b, turn))[p] == m
                &&& forall|j: int| 0 <= j < p ==> worse(turn, #[trigger] xiangqi_move_value(b, turn, ordered(b, xq_legal_moves(b, turn))[j]), xiangqi_move_value(b, turn, m))
            }
        },
{
    let legal = xq_legal_moves(b, turn);
    if legal.len() > 0 {
        let o = ordered(b, legal);
        lemma_xq_best_scan_best(b, turn, o, 0, if turn == XiangqiColor::Red { i32::MIN + 1 } else { i32::MAX - 1 }, None);
        lemma_ordered_permutation(b, legal);
        if best_xiangqi_move(b, turn) is Some {
            let m = best_xiangqi_move(b, turn)->0;
            let p = choose|p: int| {
                &&& 0 <= p < o.len() && #[trigger] o[p] == m
                &&& forall|j: int| 0 <= j < o.len() ==> no_better(turn, #[trigger] xiangqi_move_value(b, turn, o[j]), xiangqi_move_value(b, turn, m))
                &&& forall|j: int| 0 <= j < p ==> worse(turn, #[trigger] xiangqi_move_value(b, turn, o[j]), xiangqi_move_value(b, turn, m))
            };
            assert(o.contains(m)) by { assert(o[p] == m); }
            assert forall|m2: XiangqiMove| legal.contains(m2) implies no_better(turn, #[trigger] xiangqi_move_value(b, turn, m2), xiangqi_move_value(b, turn, m)) by {
                vstd::seq_lib::to_multiset_contains(legal, m2);
                vstd::seq_lib::to_multiset_contains(o, m2);
                let q = choose|q: int| 0 <= q < o.len() && o[q] == m2;
                assert(no_better(turn, xiangqi_move_value(b, turn, o[q]), xiangqi_move_value(b, turn, m)));
            }
            vstd::seq_lib::to_multiset_contains(legal, m);
            vstd::seq_lib::to_multiset_contains(o, m);
        }
    }
}

// ---------------------------------------------------------------------------
// Alpha-beta gives the minimax value

/// Plain minimax value of a xiangqi position to `depth`, without cut-offs:
/// the static evaluation at depth 0, the loss value without legal moves, otherwise the best child value over all legal moves
/// (highest when maximising, lowest otherwise).
pub open spec fn xq_minimax(
    b: Seq<Option<XiangqiPiece>>,
    c: XiangqiColor,
    depth: int,
    maximizing: bool,
) -> int
    decreases depth, 1int, 0int,
{
    if depth <= 0 {
        xq_eval(b)
    } else if xq_legal_moves(b, c).len() == 0 {
        if maximizing { -100000 - depth } else { 100000 + depth }
    } else {
        xq_minimax_fold(b, c, depth, xq_legal_moves(b, c), 0, maximizing,
            if maximizing { i32::MIN + 1 } else { i32::MAX - 1 })
    }
}

/// Best of `w` and the child values of `moves[k..]`.
pub open spec fn xq_minimax_fold(
    b: Seq<Option<XiangqiPiece>>,
    c: XiangqiColor,
    depth: int,
    moves: Seq<XiangqiMove>,
    k: int,
    maximizing: bool,
    w: int,
) -> int
    decreases depth, 0int, moves.len() - k,
{
    if depth <= 0 || k < 0 || k >= moves.len() {
        w
    } else {
        let m = moves[k];
        let e = xq_minimax(xq_apply(b, m), other_side(c), depth - 1, !maximizing);
        xq_minimax_fold(b, c, depth, moves, k + 1, maximizing,
            if maximizing { if e > w { e } else { w } } else { if e < w { e } else { w } })
    }
}

/// The child value of move `m` in the minimax recursion.
pub open spec fn xq_child_minimax(
    b: Seq<Option<XiangqiPiece>>,
    c: XiangqiColor,
    depth: int,
    maximizing: bool,
    m: XiangqiMove,
) -> int {
    xq_minimax(xq_apply(b, m), other_side(c), depth - 1, !maximizing)
}

/// `s` is what a fail-soft alpha-beta search may return for minimax value
/// `v` in the window (`alpha`, `beta`): `v` itself inside the window, a
/// value between `v` and the bound outside it.
pub open spec fn window_ok(s: int, v: int, alpha: int, beta: int) -> bool {
    &&& alpha < v < beta ==> s == v
    &&& v <= alpha ==> v <= s <= alpha
    &&& v >= beta ==> beta <= s <= v
}

/// The fold is the best of `w` and the listed child values, and it is one of them.
proof fn lemma_fold_extreme(
    b: Seq<Option<XiangqiPiece>>,
    c: XiangqiColor,
    depth: int,
    moves: Seq<XiangqiMove>,
    k: int,
    maximizing: bool,
    w: int,
)
    requires
        depth >= 1,
        0 <= k <= moves.len(),
    ensures
        ({
            let f = xq_minimax_fold(b, c, depth, moves, k, maximizing, w);
            &&& maximizing ==> f >= w
            &&& !maximizing ==> f <= w
            &&& forall|j: int| k <= j < moves.len() ==> (if maximizing {
                f >= #[trigger] xq_child_minimax(b, c, depth, maximizing, moves[j])
            } else {
                f <= xq_child_minimax(b, c, depth, maximizing, moves[j])
            })
            &&& f == w || exists|j: int| k <= j < moves.len() && f == #[trigger] xq_child_minimax(b, c, depth, maximizing, moves[j])
        }),
    decreases moves.len() - k,
{
    if k < moves.len() {
        let e = xq_child_minimax(b, c, depth, maximizing, moves[k]);
        let w2 = if maximizing { if e > w { e } else { w } } else { if e < w { e } else { w } };
        lemma_fold_extreme(b, c, depth, moves, k + 1, maximizing, w2);
        let f = xq_minimax_fold(b, c, depth, moves, k, maximizing, w);
        if f != w && f != e {
            let j = choose|j: int| k + 1 <= j < moves.len() && f == #[trigger] xq_child_minimax(b, c, depth, maximizing, moves[j]);
            assert(k <= j < moves.len());
        }
        if f == e {
            assert(f == xq_child_minimax(b, c, depth, maximizing, moves[k]));
        }
    }
}

/// Folding over two lists of the same moves gives the same value.
proof fn lemma_fold_same_moves(
    b: Seq<Option<XiangqiPiece>>,
    c: XiangqiColor,
    depth: int,
    s: Seq<XiangqiMove>,
    t: Seq<XiangqiMove>,
    maximizing: bool,
    w: int,
)
    requires
        depth >= 1,
        forall|m: XiangqiMove| s.contains(m) <==> t.contains(m),
    ensures
        xq_minimax_fold(b, c, depth, s, 0, maximizing, w) == xq_minimax_fold(b, c, depth, t, 0,
            maximizing, w),
{
    lemma_fold_extreme(b, c, depth, s, 0, maximizing, w);
    lemma_fold_extreme(b, c, depth, t, 0, maximizing, w);
    let fs = xq_minimax_fold(b, c, depth, s, 0, maximizing, w);
    let ft = xq_minimax_fold(b, c, depth, t, 0, maximizing, w);
    if fs != w {
        let j = choose|j: int| 0 <= j < s.len() && fs == #[trigger] xq_child_minimax(b, c, depth, maximizing, s[j]);
        assert(s.contains(s[j]));
        let q = choose|q: int| 0 <= q < t.len() && t[q] == s[j];
        assert(if maximizing { ft >= xq_child_minimax(b, c, depth, maximizing, t[q]) } else { ft <= xq_child_minimax(b, c, depth, maximizing, t[q]) });
    }
    if ft != w {
        let j = choose|j: int| 0 <= j < t.len() && ft == #[trigger] xq_child_minimax(b, c, depth, maximizing, t[j]);
        assert(t.contains(t[j]));
        let q = choose|q: int| 0 <= q < s.len() && s[q] == t[j];
        assert(if maximizing { fs >= xq_child_minimax(b, c, depth, maximizing, s[q]) } else { fs <= xq_child_minimax(b, c, depth, maximizing, s[q]) });
    }
}

/// Alpha-beta with window (`alpha`, `beta`) returns the minimax value when
/// it lies inside the window, and a bound on it otherwise.
pub proof fn lemma_xq_search_window(
    b: Seq<Option<XiangqiPiece>>,
    c: XiangqiColor,
    depth: int,
    alpha: int,
    beta: int,
    maximizing: bool,
)
    requires
        i32::MIN + 1 <= alpha < beta <= i32::MAX - 1,
    ensures
        window_ok(xq_search(b, c, depth, alpha, beta, maximizing), xq_minimax(b, c, depth, maximizing),
            alpha, beta),
    decreases depth, 1int, 0int,
{
    if depth > 0 && xq_legal_moves(b, c).len() != 0 {
        let legal = xq_legal_moves(b, c);
        let o = ordered(b, legal);
        let init = if maximizing { i32::MIN + 1 } else { i32::MAX - 1 };
        lemma_xq_loop_window(b, c, depth, o, 0, alpha, beta, maximizing, init, alpha, beta, init);
        lemma_ordered_permutation(b, legal);
        assert forall|m: XiangqiMove| o.contains(m) <==> legal.contains(m) by {
            vstd::seq_lib::to_multiset_contains(o, m);
            vstd::seq_lib::to_multiset_contains(legal, m);
        }
        lemma_fold_same_moves(b, c, depth, o, legal, maximizing, init);
    }
}

proof fn lemma_xq_loop_window(
    b: Seq<Option<XiangqiPiece>>,
    c: XiangqiColor,
    depth: int,
    moves: Seq<XiangqiMove>,
    k: int,
    alpha: int,
    beta: int,
    maximizing: bool,
    best: int,
    alpha0: int,
    beta0: int,
    w: int,
)
    requires
        depth >= 1,
        0 <= k <= moves.len(),
        i32::MIN + 1 <= alpha0 < beta0 <= i32::MAX - 1,
        maximizing ==> {
            &&& beta == beta0
            &&& w < beta0
            &&& w > alpha0 ==> best == w && alpha == w
            &&& w <= alpha0 ==> w <= best <= alpha0 && alpha == alpha0
        },
        !maximizing ==> {
            &&& alpha == alpha0
            &&& w > alpha0
            &&& w < beta0 ==> best == w && beta == w
            &&& w >= beta0 ==> beta0 <= best <= w && beta == beta0
        },
    ensures
        window_ok(xq_search_loop(b, c, depth, moves, k, alpha, beta, maximizing, best),
            xq_minimax_fold(b, c, depth, moves, k, maximizing, w), alpha0, beta0),
    decreases depth, 0int, moves.len() - k,
{
    if k < moves.len() {
        let m = moves[k];
        let cb = xq_apply(b, m);
        lemma_xq_search_window(cb, other_side(c), depth - 1, alpha, beta, !maximizing);
        let e = xq_search(cb, other_side(c), depth - 1, alpha, beta, !maximizing);
        let v = xq_minimax(cb, other_side(c), depth - 1, !maximizing);
        assert(v == xq_child_minimax(b, c, depth, maximizing, m));
        if maximizing {
            let nbest = if e > best { e } else { best };
            let nalpha = if e > alpha { e } else { alpha };
            let w2 = if v > w { v } else { w };
            lemma_fold_extreme(b, c, depth, moves, k + 1, maximizing, w2);
            if beta <= nalpha {
            } else {
                lemma_xq_loop_window(b, c, depth, moves, k + 1, nalpha, beta, maximizing, nbest, alpha0,
                    beta0, w2);
            }
        } else {
            let nbest = if e < best { e } else { best };
            let nbeta = if e < beta { e } else { beta };
            let w2 = if v < w { v } else { w };
            lemma_fold_extreme(b, c, depth, moves, k + 1, maximizing, w2);
            if nbeta <= alpha {
            } else {
                lemma_xq_loop_window(b, c, depth, moves, k + 1, alpha, nbeta, maximizing, nbest, alpha0,
                    beta0, w2);
            }
        }
    }
}

/// With the full window, alpha-beta gives exactly the minimax value.
pub proof fn lemma_xq_search_is_minimax(
    b: Seq<Option<XiangqiPiece>>,
    c: XiangqiColor,
    depth: int,
    maximizing: bool,
)
    requires
        depth <= 10,
    ensures
        xq_search(b, c, depth, i32::MIN + 1, i32::MAX - 1, maximizing) == xq_minimax(b, c, depth,
            maximizing),
{
    lemma_xq_search_window(b, c, depth, i32::MIN + 1, i32::MAX - 1, maximizing);
    lemma_xq_search_bounds(b, c, depth, i32::MIN + 1, i32::MAX - 1, maximizing);
}

/// The value by which the computer ranks a xiangqi move is the plain
/// minimax value of the position after it, two plies deep.
pub proof fn lemma_xiangqi_move_value_is_minimax(b: Seq<Option<XiangqiPiece>>, turn: XiangqiColor, m: XiangqiMove)
    ensures
        xiangqi_move_value(b, turn, m) == xq_minimax(xq_apply(b, m), other_side(turn), 2, !(turn == XiangqiColor::Red)),
{
    lemma_xq_search_is_minimax(xq_apply(b, m), other_side(turn), 2, !(turn == XiangqiColor::Red));
}

} // verus!
