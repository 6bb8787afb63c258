use vstd::prelude::*;
use crate::chess::{CastlingRights, ChessPiece, Color};
use crate::chess::moves::{ChessMove, legal_moves};
use crate::chess::position::{position_ok, lemma_initial_position_ok};
use crate::xiangqi::{XiangqiColor, XiangqiPiece};
use crate::xiangqi::moves::{XiangqiMove, xq_legal_moves};
use crate::xiangqi::position::{xq_position_ok, lemma_xq_initial_position_ok};

verus! {

/// The two players of tic-tac-toe and gomoku.
#[derive(Copy, Clone, PartialEq, Eq, Debug, Structural)]
pub enum Player {
    X,
    O,
}

/// `true` exactly when the cell holds a mark of `player`.
pub fn cell_is(cell: Option<Player>, player: Player) -> (r: bool)
    ensures
        r == (cell == Some(player)),
{
    match cell {
        Some(p) => p == player,
        None => false,
    }
}

/// Number of empty cells in a board.
pub open spec fn count_empty(s: Seq<Option<Player>>) -> nat
    decreases s.len(),
{
    if s.len() == 0 {
        0
    } else {
        count_empty(s.drop_last()) + (if s.last() is None { 1nat } else { 0nat })
    }
}

pub proof fn lemma_count_empty_le_len(s: Seq<Option<Player>>)
    ensures
        count_empty(s) <= s.len(),
    decreases s.len(),
{
    if s.len() > 0 {
        lemma_count_empty_le_len(s.drop_last());
    }
}

/// Filling an empty cell lowers the number of empty cells by one.
pub proof fn lemma_count_empty_fill(s: Seq<Option<Player>>, i: int, p: Player)
    requires
        0 <= i < s.len(),
        s[i] is None,
    ensures
        count_empty(s.update(i, Some(p))) + 1 == count_empty(s),
    decreases s.len(),
{
    let t = s.update(i, Some(p));
    if i == s.len() - 1 {
        assert(t.drop_last() =~= s.drop_last());
    } else {
        lemma_count_empty_fill(s.drop_last(), i, p);
        assert(t.drop_last() =~= s.drop_last().update(i, Some(p)));
    }
}

/// A board is full when no cell is empty.
pub open spec fn board_full(s: Seq<Option<Player>>) -> bool {
    forall|i: int| 0 <= i < s.len() ==> (#[trigger] s[i]) is Some
}

pub proof fn lemma_count_empty_zero(s: Seq<Option<Player>>)
    ensures
        count_empty(s) == 0 <==> board_full(s),
    decreases s.len(),
{
    if s.len() > 0 {
        lemma_count_empty_zero(s.drop_last());
        if board_full(s) {
            assert forall|i: int| 0 <= i < s.drop_last().len() implies (#[trigger] s.drop_last()[i]) is Some by {
                assert(s[i] is Some);
            }
        }
        if count_empty(s) == 0 {
            assert forall|i: int| 0 <= i < s.len() implies (#[trigger] s[i]) is Some by {
                if i < s.len() - 1 {
                    assert(s.drop_last()[i] is Some);
                }
            }
        }
    }
}

/// `true` exactly when every cell of the board is taken.
pub fn is_board_full<const N: usize>(board: &[Option<Player>; N]) -> (r: bool)
    ensures
        r == board_full(board@),
{
    let mut i: usize = 0;
    while i < N
        invariant
            i <= N,
            board@.len() == N,
            forall|j: int| 0 <= j < i ==> (#[trigger] board@[j]) is Some,
        decreases N - i,
    {
        if board[i].is_none() {
            return false;
        }
        i = i + 1;
    }
    true
}

/// The game being played.
#[derive(Copy, Clone, PartialEq, Eq, Debug, Structural)]
pub enum GameType {
    NoGame,
    TicTacToe,
    Gomoku,
    Chess,
    Xiangqi,
}

/// Against the computer, or two people at one board.
#[derive(Copy, Clone, PartialEq, Eq, Debug, Structural)]
pub enum GameMode {
    PvE,
    PvP,
}

/// Everything the application keeps between two events.
pub struct AppState {
    pub game_type: GameType,
    pub game_mode: GameMode,
    pub current_turn: Player,
    pub ttt_board: [Option<Player>; 9],
    pub gomoku_board: [Option<Player>; 225],
    pub game_over: bool,
    pub ai_thinking: bool,
    pub last_move: Option<usize>,
    // Chess
    pub chess_board: [Option<ChessPiece>; 64],
    pub selected_cell: Option<usize>,
    pub valid_moves: Vec<usize>,
    pub chess_turn: Color,
    pub castling_rights: CastlingRights,
    pub en_passant_target: Option<usize>,
    pub last_move_from: Option<usize>,
    pub last_move_to: Option<usize>,
    // Xiangqi
    pub xiangqi_board: [Option<XiangqiPiece>; 90],
    pub xiangqi_selected: Option<usize>,
    pub xiangqi_valid_moves: Vec<usize>,
    pub xiangqi_turn: XiangqiColor,
    pub xiangqi_last_from: Option<usize>,
    pub xiangqi_last_to: Option<usize>,
}

/// Destinations of the moves in `moves` that start on `from`, in list order.
pub open spec fn chess_targets(moves: Seq<ChessMove>, from: int) -> Seq<usize>
    decreases moves.len(),
{
    if moves.len() == 0 {
        Seq::empty()
    } else {
        chess_targets(moves.drop_last(), from) + (if moves.last().from == from {
            seq![moves.last().to]
        } else {
            Seq::empty()
        })
    }
}

/// Destinations of the moves in `moves` that start on `from`, in list order.
pub open spec fn xiangqi_targets(moves: Seq<XiangqiMove>, from: int) -> Seq<usize>
    decreases moves.len(),
{
    if moves.len() == 0 {
        Seq::empty()
    } else {
        xiangqi_targets(moves.drop_last(), from) + (if moves.last().from == from {
            seq![moves.last().to]
        } else {
            Seq::empty()
        })
    }
}

impl AppState {
    /// The invariant of the application state: both boards hold positions
    /// that can arise in play, a highlighted piece shows exactly the
    /// destinations of its legal moves, and nothing is selected while the
    /// computer is thinking.
    pub open spec fn wf(&self) -> bool {
        &&& position_ok(self.chess_board@, self.chess_turn, self.castling_rights, self.en_passant_target)
        &&& xq_position_ok(self.xiangqi_board@, self.xiangqi_turn)
        &&& match self.selected_cell {
            Some(s) => s < 64 && self.valid_moves@ == chess_targets(
                legal_moves(self.chess_board@, self.chess_turn, self.castling_rights, self.en_passant_target),
                s as int,
            ),
            None => self.valid_moves@.len() == 0,
        }
        &&& match self.xiangqi_selected {
            Some(s) => s < 90 && self.xiangqi_valid_moves@ == xiangqi_targets(
                xq_legal_moves(self.xiangqi_board@, self.xiangqi_turn),
                s as int,
            ),
            None => self.xiangqi_valid_moves@.len() == 0,
        }
        &&& self.ai_thinking ==> self.selected_cell is None && self.xiangqi_selected is None
        &&& self.game_type != GameType::Chess ==> self.selected_cell is None
        &&& self.game_type != GameType::Xiangqi ==> self.xiangqi_selected is None
    }

    /// Empty boards for tic-tac-toe and gomoku with X to play, starting
    /// positions for chess (White to move, all castling rights) and xiangqi
    /// (Red to move), no game over, no search running, nothing selected and
    /// no last move.
    pub open spec fn fresh(&self) -> bool {
        &&& self.current_turn == Player::X
        &&& forall|i: int| 0 <= i < 9 ==> #[trigger] self.ttt_board@[i] is None
        &&& forall|i: int| 0 <= i < 225 ==> #[trigger] self.gomoku_board@[i] is None
        &&& !self.game_over
        &&& !self.ai_thinking
        &&& self.last_move is None
        &&& forall|i: int| 0 <= i < 64 ==> #[trigger] self.chess_board@[i] == crate::chess::initial_cell(i)
        &&& self.selected_cell is None
        &&& self.valid_moves@.len() == 0
        &&& self.chess_turn == Color::White
        &&& self.castling_rights.white_king_side && self.castling_rights.white_queen_side
        &&& self.castling_rights.black_king_side && self.castling_rights.black_queen_side
        &&& self.en_passant_target is None
        &&& self.last_move_from is None
        &&& self.last_move_to is None
        &&& forall|i: int| 0 <= i < 90 ==> #[trigger] self.xiangqi_board@[i] == crate::xiangqi::xq_initial_cell(i)
        &&& self.xiangqi_selected is None
        &&& self.xiangqi_valid_moves@.len() == 0
        &&& self.xiangqi_turn == XiangqiColor::Red
        &&& self.xiangqi_last_from is None
        &&& self.xiangqi_last_to is None
    }

    /// The state before any game is chosen: empty boards for tic-tac-toe and
    /// gomoku, starting positions for chess (White to move, all castling
    /// rights) and xiangqi (Red to move), nothing selected.
    pub fn new() -> (r: Self)
        ensures
            r.wf(),
            r.fresh(),
            r.game_type == GameType::NoGame,
            r.game_mode == GameMode::PvE,
    {
        let chess_board = crate::chess::initial_board();
        let castling_rights = CastlingRights::default();
        let xiangqi_board = crate::xiangqi::initial_board();
        proof {
            lemma_initial_position_ok(chess_board@, castling_rights);
            lemma_xq_initial_position_ok(xiangqi_board@);
        }
        Self {
            game_type: GameType::NoGame,
            game_mode: GameMode::PvE,
            current_turn: Player::X,
            ttt_board: [None; 9],
            gomoku_board: [None; 225],
            game_over: false,
            ai_thinking: false,
            last_move: None,
            chess_board,
            selected_cell: None,
            valid_moves: Vec::new(),
            chess_turn: Color::White,
            castling_rights,
            en_passant_target: None,
            last_move_from: None,
            last_move_to: None,
            xiangqi_board,
            xiangqi_selected: None,
            xiangqi_valid_moves: Vec::new(),
            xiangqi_turn: XiangqiColor::Red,
            xiangqi_last_from: None,
            xiangqi_last_to: None,
        }
    }
}

} // verus!
