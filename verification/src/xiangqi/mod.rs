use vstd::prelude::*;

pub mod ai;
pub mod moves;
pub mod position;

verus! {

#[derive(Copy, Clone, PartialEq, Eq, Debug, Structural)]
pub enum PieceType {
    General,
    Advisor,
    Elephant,
    Horse,
    Chariot,
    Cannon,
    Soldier,
}

#[derive(Copy, Clone, PartialEq, Eq, Debug, Structural)]
pub enum XiangqiColor {
    Red,
    Black,
}

/// The other side.
pub open spec fn other_side(c: XiangqiColor) -> XiangqiColor {
    match c {
        XiangqiColor::Red => XiangqiColor::Black,
        XiangqiColor::Black => XiangqiColor::Red,
    }
}

impl XiangqiColor {
    /// The other side.
    pub fn opposite(self) -> (r: XiangqiColor)
        ensures
            r == other_side(self),
    {
        match self {
            XiangqiColor::Red => XiangqiColor::Black,
            XiangqiColor::Black => XiangqiColor::Red,
        }
    }
}

#[derive(Copy, Clone, PartialEq, Eq, Debug, Structural)]
pub struct XiangqiPiece {
    pub piece_type: PieceType,
    pub color: XiangqiColor,
}

impl XiangqiPiece {
    /// A piece of `piece_type` for `color`.
    pub fn new(piece_type: PieceType, color: XiangqiColor) -> (r: Self)
        ensures
            r == (XiangqiPiece { piece_type, color }),
    {
        Self { piece_type, color }
    }
}

/// Piece type on column `c` of a back rank: R H E A G A E H R.
pub open spec fn xq_back_rank_type(c: int) -> PieceType {
    if c == 0 || c == 8 {
        PieceType::Chariot
    } else if c == 1 || c == 7 {
        PieceType::Horse
    } else if c == 2 || c == 6 {
        PieceType::Elephant
    } else if c == 3 || c == 5 {
        PieceType::Advisor
    } else {
        PieceType::General
    }
}

pub open spec fn xq_piece(pt: PieceType, c: XiangqiColor) -> Option<XiangqiPiece> {
    Some(XiangqiPiece { piece_type: pt, color: c })
}

/// Content of square `i` in the starting position
/// (index = row * 9 + col, row 0 = Black's back rank).
pub open spec fn xq_initial_cell(i: int) -> Option<XiangqiPiece> {
    if 0 <= i < 9 {
        xq_piece(xq_back_rank_type(i), XiangqiColor::Black)
    } else if i == 19 || i == 25 {
        xq_piece(PieceType::Cannon, XiangqiColor::Black)
    } else if i == 27 || i == 29 || i == 31 || i == 33 || i == 35 {
        xq_piece(PieceType::Soldier, XiangqiColor::Black)
    } else if i == 54 || i == 56 || i == 58 || i == 60 || i == 62 {
        xq_piece(PieceType::Soldier, XiangqiColor::Red)
    } else if i == 64 || i == 70 {
        xq_piece(PieceType::Cannon, XiangqiColor::Red)
    } else if 81 <= i < 90 {
        xq_piece(xq_back_rank_type(i - 81), XiangqiColor::Red)
    } else {
        None
    }
}

fn back_rank(c: usize) -> (r: PieceType)
    ensures
        r == xq_back_rank_type(c as int),
{
    if c == 0 || c == 8 {
        PieceType::Chariot
    } else if c == 1 || c == 7 {
        PieceType::Horse
    } else if c == 2 || c == 6 {
        PieceType::Elephant
    } else if c == 3 || c == 5 {
        PieceType::Advisor
    } else {
        PieceType::General
    }
}

/// Standard starting position.
/// Index = row * 9 + col. Row 0 = top (Black back rank), Row 9 = bottom (Red back rank).
/// River between rows 4 and 5.
pub fn initial_board() -> (r: [Option<XiangqiPiece>; 90])
    ensures
        forall|i: int| 0 <= i < 90 ==> #[trigger] r@[i] == xq_initial_cell(i),
{
    let mut board: [Option<XiangqiPiece>; 90] = [None; 90];

    // Back ranks
    let mut col: usize = 0;
    while col < 9
        invariant
            col <= 9,
            forall|i: int| 0 <= i < 90 ==> #[trigger] board@[i] == (if (0 <= i < col) || (81 <= i < 81 + col) {
                xq_initial_cell(i)
            } else {
                None
            }),
        decreases 9 - col,
    {
        let pt = back_rank(col);
        board[col] = Some(XiangqiPiece::new(pt, XiangqiColor::Black));
        board[9 * 9 + col] = Some(XiangqiPiece::new(pt, XiangqiColor::Red));
        col = col + 1;
    }

    // Cannons
    board[2 * 9 + 1] = Some(XiangqiPiece::new(PieceType::Cannon, XiangqiColor::Black));
    board[2 * 9 + 7] = Some(XiangqiPiece::new(PieceType::Cannon, XiangqiColor::Black));
    board[7 * 9 + 1] = Some(XiangqiPiece::new(PieceType::Cannon, XiangqiColor::Red));
    board[7 * 9 + 7] = Some(XiangqiPiece::new(PieceType::Cannon, XiangqiColor::Red));

    // Soldiers (rows 3 and 6, cols 0,2,4,6,8)
    let mut col: usize = 0;
    while col < 9
        invariant
            col <= 10,
            col % 2 == 0,
            forall|i: int| 0 <= i < 90 ==> #[trigger] board@[i] == (if (0 <= i < 9) || (81 <= i < 90)
                || i == 19 || i == 25 || i == 64 || i == 70 || (27 <= i < 27 + col && (i - 27) % 2 == 0)
                || (54 <= i < 54 + col && (i - 54) % 2 == 0) {
                xq_initial_cell(i)
            } else {
                None
            }),
        decreases 10 - col,
    {
        board[3 * 9 + col] = Some(XiangqiPiece::new(PieceType::Soldier, XiangqiColor::Black));
        board[6 * 9 + col] = Some(XiangqiPiece::new(PieceType::Soldier, XiangqiColor::Red));
        col = col + 2;
    }
    board
}

/// Chinese character of a piece.
pub open spec fn piece_text(piece: XiangqiPiece) -> &'static str {
    match (piece.color, piece.piece_type) {
        (XiangqiColor::Red, PieceType::General) => "帥",
        (XiangqiColor::Red, PieceType::Advisor) => "仕",
        (XiangqiColor::Red, PieceType::Elephant) => "相",
        (XiangqiColor::Red, PieceType::Horse) => "傌",
        (XiangqiColor::Red, PieceType::Chariot) => "俥",
        (XiangqiColor::Red, PieceType::Cannon) => "炮",
        (XiangqiColor::Red, PieceType::Soldier) => "兵",
        (XiangqiColor::Black, PieceType::General) => "將",
        (XiangqiColor::Black, PieceType::Advisor) => "士",
        (XiangqiColor::Black, PieceType::Elephant) => "象",
        (XiangqiColor::Black, PieceType::Horse) => "馬",
        (XiangqiColor::Black, PieceType::Chariot) => "車",
        (XiangqiColor::Black, PieceType::Cannon) => "砲",
        (XiangqiColor::Black, PieceType::Soldier) => "卒",
    }
}

/// The character shown for a piece.
pub fn piece_to_text(piece: &XiangqiPiece) -> (r: &'static str)
    ensures
        r == piece_text(*piece),
{
    match (piece.color, piece.piece_type) {
        (XiangqiColor::Red, PieceType::General) => "帥",
        (XiangqiColor::Red, PieceType::Advisor) => "仕",
        (XiangqiColor::Red, PieceType::Elephant) => "相",
        (XiangqiColor::Red, PieceType::Horse) => "傌",
        (XiangqiColor::Red, PieceType::Chariot) => "俥",
        (XiangqiColor::Red, PieceType::Cannon) => "炮",
        (XiangqiColor::Red, PieceType::Soldier) => "兵",
        (XiangqiColor::Black, PieceType::General) => "將",
        (XiangqiColor::Black, PieceType::Advisor) => "士",
        (XiangqiColor::Black, PieceType::Elephant) => "象",
        (XiangqiColor::Black, PieceType::Horse) => "馬",
        (XiangqiColor::Black, PieceType::Chariot) => "車",
        (XiangqiColor::Black, PieceType::Cannon) => "砲",
        (XiangqiColor::Black, PieceType::Soldier) => "卒",
    }
}

} // verus!
