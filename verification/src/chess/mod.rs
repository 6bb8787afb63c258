use vstd::prelude::*;

pub mod ai;
pub mod moves;
pub mod position;

verus! {

#[derive(Copy, Clone, PartialEq, Eq, Debug, Structural)]
pub enum PieceType {
    King,
    Queen,
    Rook,
    Bishop,
    Knight,
    Pawn,
}

#[derive(Copy, Clone, PartialEq, Eq, Debug, Structural)]
pub enum Color {
    White,
    Black,
}

/// The other side.
pub open spec fn other(c: Color) -> Color {
    match c {
        Color::White => Color::Black,
        Color::Black => Color::White,
    }
}

impl Color {
    /// The other side.
    pub fn opposite(self) -> (r: Color)
        ensures
            r == other(self),
    {
        match self {
            Color::White => Color::Black,
            Color::Black => Color::White,
        }
    }
}

#[derive(Copy, Clone, PartialEq, Eq, Debug, Structural)]
pub struct ChessPiece {
    pub piece_type: PieceType,
    pub color: Color,
}

impl ChessPiece {
    /// A piece of `piece_type` for `color`.
    pub fn new(piece_type: PieceType, color: Color) -> (r: Self)
        ensures
            r == (ChessPiece { piece_type, color }),
    {
        Self { piece_type, color }
    }
}

/// Which castling moves each side may still make.
#[derive(Copy, Clone, Debug)]
pub struct CastlingRights {
    pub white_king_side: bool,
    pub white_queen_side: bool,
    pub black_king_side: bool,
    pub black_queen_side: bool,
}

impl Default for CastlingRights {
    fn default() -> (r: Self)
        ensures
            r.white_king_side && r.white_queen_side && r.black_king_side && r.black_queen_side,
    {
        Self { white_king_side: true, white_queen_side: true, black_king_side: true, black_queen_side: true }
    }
}

/// Piece type on file `f` of a back rank: R N B Q K B N R.
pub open spec fn back_rank_type(f: int) -> PieceType {
    if f == 0 || f == 7 {
        PieceType::Rook
    } else if f == 1 || f == 6 {
        PieceType::Knight
    } else if f == 2 || f == 5 {
        PieceType::Bishop
    } else if f == 3 {
        PieceType::Queen
    } else {
        PieceType::King
    }
}

/// Content of square `i` in the standard starting position
/// (index = rank * 8 + file, rank 0 = Black's back rank).
pub open spec fn initial_cell(i: int) -> Option<ChessPiece> {
    if 0 <= i < 8 {
        Some(ChessPiece { piece_type: back_rank_type(i), color: Color::Black })
    } else if 8 <= i < 16 {
        Some(ChessPiece { piece_type: PieceType::Pawn, color: Color::Black })
    } else if 48 <= i < 56 {
        Some(ChessPiece { piece_type: PieceType::Pawn, color: Color::White })
    } else if 56 <= i < 64 {
        Some(ChessPiece { piece_type: back_rank_type(i - 56), color: Color::White })
    } else {
        None
    }
}

fn back_rank(f: usize) -> (r: PieceType)
    ensures
        r == back_rank_type(f as int),
{
    if f == 0 || f == 7 {
        PieceType::Rook
    } else if f == 1 || f == 6 {
        PieceType::Knight
    } else if f == 2 || f == 5 {
        PieceType::Bishop
    } else if f == 3 {
        PieceType::Queen
    } else {
        PieceType::King
    }
}

/// Standard starting position.
/// Index = rank * 8 + file. Rank 0 = top (Black back rank), rank 7 = bottom (White back rank).
pub fn initial_board() -> (r: [Option<ChessPiece>; 64])
    ensures
        forall|i: int| 0 <= i < 64 ==> #[trigger] r@[i] == initial_cell(i),
{
    let mut board: [Option<ChessPiece>; 64] = [None; 64];
    let mut file: usize = 0;
    while file < 8
        invariant
            file <= 8,
            forall|i: int| 0 <= i < 64 ==> #[trigger] board@[i] == (if (0 <= i < file) || (8 <= i < 8 + file)
                || (48 <= i < 48 + file) || (56 <= i < 56 + file) { initial_cell(i) } else { None }),
        decreases 8 - file,
    {
        let pt = back_rank(file);
        board[file] = Some(ChessPiece::new(pt, Color::Black));
        board[8 + file] = Some(ChessPiece::new(PieceType::Pawn, Color::Black));
        board[48 + file] = Some(ChessPiece::new(PieceType::Pawn, Color::White));
        board[56 + file] = Some(ChessPiece::new(pt, Color::White));
        file = file + 1;
    }
    board
}

/// Unicode chess symbol of a piece.
pub open spec fn piece_symbol(piece: ChessPiece) -> &'static str {
    match (piece.color, piece.piece_type) {
        (Color::White, PieceType::King) => "♔",
        (Color::White, PieceType::Queen) => "♕",
        (Color::White, PieceType::Rook) => "♖",
        (Color::White, PieceType::Bishop) => "♗",
        (Color::White, PieceType::Knight) => "♘",
        (Color::White, PieceType::Pawn) => "♙",
        (Color::Black, PieceType::King) => "♚",
        (Color::Black, PieceType::Queen) => "♛",
        (Color::Black, PieceType::Rook) => "♜",
        (Color::Black, PieceType::Bishop) => "♝",
        (Color::Black, PieceType::Knight) => "♞",
        (Color::Black, PieceType::Pawn) => "♟",
    }
}

/// The chess symbol shown for a piece.
pub fn piece_to_unicode(piece: &ChessPiece) -> (r: &'static str)
    ensures
        r == piece_symbol(*piece),
{
    match (piece.color, piece.piece_type) {
        (Color::White, PieceType::King) => "♔",
        (Color::White, PieceType::Queen) => "♕",
        (Color::White, PieceType::Rook) => "♖",
        (Color::White, PieceType::Bishop) => "♗",
        (Color::White, PieceType::Knight) => "♘",
        (Color::White, PieceType::Pawn) => "♙",
        (Color::Black, PieceType::King) => "♚",
        (Color::Black, PieceType::Queen) => "♛",
        (Color::Black, PieceType::Rook) => "♜",
        (Color::Black, PieceType::Bishop) => "♝",
        (Color::Black, PieceType::Knight) => "♞",
        (Color::Black, PieceType::Pawn) => "♟",
    }
}

} // verus!
