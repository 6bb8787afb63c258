//! The application's reactions to its events: choosing a game, clicking a
//! cell, and the computer's reply arriving. Each reaction takes the state and
//! the event and gives the next state, the status line to show, and what the
//! caller has to do next (redraw, or start a search).
use vstd::prelude::*;
use crate::state::{Player, AppState, GameType, GameMode, board_full, is_board_full, chess_targets, xiangqi_targets};
use crate::ttt::{ttt_won, check_ttt_win};
use crate::gomoku::{gomoku_won, check_gomoku_win};
use crate::chess::{CastlingRights, ChessPiece, Color, other};
use crate::chess::moves::{ChessMove, apply_board, apply_rights, apply_ep, legal_moves, in_check,
    generate_legal_moves, apply_move, is_checkmate, is_stalemate, is_in_check};
use crate::chess::position::{position_ok, lemma_legal_move_keeps_position, lemma_position_king_survives,
    lemma_position_root_safe};
use crate::chess::ai::{best_chess_move, get_best_chess_move, lemma_best_chess_move_legal, lemma_best_chess_move_some};
use crate::xiangqi::{XiangqiColor, XiangqiPiece, other_side};
use crate::xiangqi::moves::{XiangqiMove, xq_apply, xq_legal_moves, xq_in_check};
use crate::xiangqi::position::{xq_position_ok, lemma_xq_legal_move_keeps_position,
    lemma_xq_position_generals_survive, lemma_xq_position_root_safe};
use crate::xiangqi::ai::{best_xiangqi_move, get_best_xiangqi_move, lemma_best_xiangqi_move_legal,
    lemma_best_xiangqi_move_some};

verus! {

// ---------------------------------------------------------------------------
// Status line

/// What the status line says.
#[derive(Copy, Clone, PartialEq, Eq, Debug, Structural)]
pub enum Status {
    /// "Player X's Turn"
    PlayerTurn(Player),
    /// "Player X Wins!"
    PlayerWins(Player),
    /// "Your Turn (X)"
    YourTurnX,
    /// "You Win!"
    YouWin,
    /// "Computer Wins!"
    ComputerWins,
    /// "It's a Draw!"
    ItsADraw,
    /// "Thinking..."
    Thinking,
    /// "White's Turn"
    ChessTurn(Color),
    /// "Your Turn (White)"
    YourTurnWhite,
    /// "White Wins!"
    ChessWins(Color),
    /// "Draw!"
    ChessDraw,
    /// "White is in Check!"
    ChessCheck(Color),
    /// "Red's Turn"
    XiangqiTurn(XiangqiColor),
    /// "Your Turn (Red)"
    YourTurnRed,
    /// "Red Wins!"
    XiangqiWins(XiangqiColor),
    /// "Red is in Check!"
    XiangqiCheck(XiangqiColor),
}

pub open spec fn status_text(s: Status) -> &'static str {
    match s {
        Status::PlayerTurn(Player::X) => "Player X's Turn",
        Status::PlayerTurn(Player::O) => "Player O's Turn",
        Status::PlayerWins(Player::X) => "Player X Wins!",
        Status::PlayerWins(Player::O) => "Player O Wins!",
        Status::YourTurnX => "Your Turn (X)",
        Status::YouWin => "You Win!",
        Status::ComputerWins => "Computer Wins!",
        Status::ItsADraw => "It's a Draw!",
        Status::Thinking => "Thinking...",
        Status::ChessTurn(Color::White) => "White's Turn",
        Status::ChessTurn(Color::Black) => "Black's Turn",
        Status::YourTurnWhite => "Your Turn (White)",
        Status::ChessWins(Color::White) => "White Wins!",
        Status::ChessWins(Color::Black) => "Black Wins!",
        Status::ChessDraw => "Draw!",
        Status::ChessCheck(Color::White) => "White is in Check!",
        Status::ChessCheck(Color::Black) => "Black is in Check!",
        Status::XiangqiTurn(XiangqiColor::Red) => "Red's Turn",
        Status::XiangqiTurn(XiangqiColor::Black) => "Black's Turn",
        Status::YourTurnRed => "Your Turn (Red)",
        Status::XiangqiWins(XiangqiColor::Red) => "Red Wins!",
        Status::XiangqiWins(XiangqiColor::Black) => "Black Wins!",
        Status::XiangqiCheck(XiangqiColor::Red) => "Red is in Check!",
        Status::XiangqiCheck(XiangqiColor::Black) => "Black is in Check!",
    }
}

impl Status {
    /// The text shown on the status line.
    pub fn text(&self) -> (r: &'static str)
        ensures
            r == status_text(*self),
    {
        match *self {
            Status::PlayerTurn(Player::X) => "Player X's Turn",
            Status::PlayerTurn(Player::O) => "Player O's Turn",
            Status::PlayerWins(Player::X) => "Player X Wins!",
            Status::PlayerWins(Player::O) => "Player O Wins!",
            Status::YourTurnX => "Your Turn (X)",
            Status::YouWin => "You Win!",
            Status::ComputerWins => "Computer Wins!",
            Status::ItsADraw => "It's a Draw!",
            Status::Thinking => "Thinking...",
            Status::ChessTurn(Color::White) => "White's Turn",
            Status::ChessTurn(Color::Black) => "Black's Turn",
            Status::YourTurnWhite => "Your Turn (White)",
            Status::ChessWins(Color::White) => "White Wins!",
            Status::ChessWins(Color::Black) => "Black Wins!",
            Status::ChessDraw => "Draw!",
            Status::ChessCheck(Color::White) => "White is in Check!",
            Status::ChessCheck(Color::Black) => "Black is in Check!",
            Status::XiangqiTurn(XiangqiColor::Red) => "Red's Turn",
            Status::XiangqiTurn(XiangqiColor::Black) => "Black's Turn",
            Status::YourTurnRed => "Your Turn (Red)",
            Status::XiangqiWins(XiangqiColor::Red) => "Red Wins!",
            Status::XiangqiWins(XiangqiColor::Black) => "Black Wins!",
            Status::XiangqiCheck(XiangqiColor::Red) => "Red is in Check!",
            Status::XiangqiCheck(XiangqiColor::Black) => "Black is in Check!",
        }
    }
}

// ---------------------------------------------------------------------------
// Choosing a game

fn same_text(a: &str, b: &str) -> (r: bool)
    ensures
        r == (a@ == b@),
{
    let x = a.to_owned();
    let y = b.to_owned();
    x == y
}

/// The game called `name` on the menu: "ttt", "gomoku", "chess" or "xiangqi".
pub open spec fn game_type_named(name: Seq<char>) -> GameType {
    if name == "ttt"@ {
        GameType::TicTacToe
    } else if name == "gomoku"@ {
        GameType::Gomoku
    } else if name == "chess"@ {
        GameType::Chess
    } else if name == "xiangqi"@ {
        GameType::Xiangqi
    } else {
        GameType::NoGame
    }
}

impl GameType {
    /// The game with the menu name `name`; any other name chooses no game.
    pub fn from_name(name: &str) -> (r: GameType)
        ensures
            r == game_type_named(name@),
    {
        if same_text(name, "ttt") {
            GameType::TicTacToe
        } else if same_text(name, "gomoku") {
            GameType::Gomoku
        } else if same_text(name, "chess") {
            GameType::Chess
        } else if same_text(name, "xiangqi") {
            GameType::Xiangqi
        } else {
            GameType::NoGame
        }
    }
}

impl GameMode {
    /// "pvp" means two players at one board; anything else is a game against the computer.
    pub fn from_name(name: &str) -> (r: GameMode)
        ensures
            r == (if name@ == "pvp"@ { GameMode::PvP } else { GameMode::PvE }),
    {
        if same_text(name, "pvp") {
            GameMode::PvP
        } else {
            GameMode::PvE
        }
    }
}

/// The status line at the start of a game.
pub open spec fn opening_status(game_type: GameType, mode: GameMode) -> Status {
    match game_type {
        GameType::Chess => if mode == GameMode::PvP { Status::ChessTurn(Color::White) } else { Status::YourTurnWhite },
        GameType::Xiangqi => if mode == GameMode::PvP {
            Status::XiangqiTurn(XiangqiColor::Red)
        } else {
            Status::YourTurnRed
        },
        _ => if mode == GameMode::PvP { Status::PlayerTurn(Player::X) } else { Status::YourTurnX },
    }
}

// ---------------------------------------------------------------------------
// Results of an event

/// A position handed to the computer: chess, with a game position for the
/// side to move.
pub struct ChessSearch {
    board: [Option<ChessPiece>; 64],
    turn: Color,
    rights: CastlingRights,
    en_passant: Option<usize>,
}

impl ChessSearch {
    #[verifier::type_invariant]
    spec fn inv(self) -> bool {
        position_ok(self.board@, self.turn, self.rights, self.en_passant)
    }

    pub closed spec fn board_view(self) -> Seq<Option<ChessPiece>> {
        self.board@
    }

    pub closed spec fn turn_view(self) -> Color {
        self.turn
    }

    pub closed spec fn rights_view(self) -> CastlingRights {
        self.rights
    }

    pub closed spec fn en_passant_view(self) -> Option<usize> {
        self.en_passant
    }

    /// The computer's choice in this position.
    pub fn best_move(&self) -> (r: Option<ChessMove>)
        ensures
            r == best_chess_move(self.board_view(), self.turn_view(), self.rights_view(), self.en_passant_view()),
    {
        proof {
            use_type_invariant(self);
            lemma_position_root_safe(self.board@, self.turn, self.rights, self.en_passant);
        }
        get_best_chess_move(&self.board, self.turn, &self.rights, self.en_passant)
    }
}

/// A position handed to the computer: xiangqi, with a game position for the
/// side to move.
pub struct XiangqiSearch {
    board: [Option<XiangqiPiece>; 90],
    turn: XiangqiColor,
}

impl XiangqiSearch {
    #[verifier::type_invariant]
    spec fn inv(self) -> bool {
        xq_position_ok(self.board@, self.turn)
    }

    pub closed spec fn board_view(self) -> Seq<Option<XiangqiPiece>> {
        self.board@
    }

    pub closed spec fn turn_view(self) -> XiangqiColor {
        self.turn
    }

    /// The computer's choice in this position.
    pub fn best_move(&self) -> (r: Option<XiangqiMove>)
        ensures
            r == best_xiangqi_move(self.board_view(), self.turn_view()),
    {
        proof {
            use_type_invariant(self);
            lemma_xq_position_root_safe(self.board@, self.turn);
        }
        get_best_xiangqi_move(&self.board, self.turn)
    }
}

/// What the caller does after an event.
pub enum Action {
    /// Nothing changed that needs drawing.
    Ignore,
    /// Draw the boards again.
    Redraw,
    /// Draw, then let the computer answer on this tic-tac-toe board.
    SearchTicTacToe([Option<Player>; 9]),
    /// Draw, then let the computer answer on this gomoku board.
    SearchGomoku([Option<Player>; 225]),
    /// Draw, then let the computer answer in this chess position.
    SearchChess(ChessSearch),
    /// Draw, then let the computer answer in this xiangqi position.
    SearchXiangqi(XiangqiSearch),
}

/// The answer to an event: what to do next, and the new status line if it changes.
pub struct Outcome {
    pub action: Action,
    pub status: Option<Status>,
}

pub open spec fn other_player(p: Player) -> Player {
    match p {
        Player::X => Player::O,
        Player::O => Player::X,
    }
}

fn opponent(p: Player) -> (r: Player)
    ensures
        r == other_player(p),
{
    match p {
        Player::X => Player::O,
        Player::O => Player::X,
    }
}

// ---------------------------------------------------------------------------
// Parts of the state that an event leaves alone

pub open spec fn same_setup(s: AppState, t: AppState) -> bool {
    t.game_type == s.game_type && t.game_mode == s.game_mode
}

pub open spec fn same_marks(s: AppState, t: AppState) -> bool {
    t.current_turn == s.current_turn && t.last_move == s.last_move
}

pub open spec fn same_ttt(s: AppState, t: AppState) -> bool {
    t.ttt_board == s.ttt_board
}

pub open spec fn same_gomoku(s: AppState, t: AppState) -> bool {
    t.gomoku_board == s.gomoku_board
}

pub open spec fn same_chess(s: AppState, t: AppState) -> bool {
    &&& t.chess_board == s.chess_board
    &&& t.selected_cell == s.selected_cell
    &&& t.valid_moves@ == s.valid_moves@
    &&& t.chess_turn == s.chess_turn
    &&& t.castling_rights == s.castling_rights
    &&& t.en_passant_target == s.en_passant_target
    &&& t.last_move_from == s.last_move_from
    &&& t.last_move_to == s.last_move_to
}

pub open spec fn same_xiangqi(s: AppState, t: AppState) -> bool {
    &&& t.xiangqi_board == s.xiangqi_board
    &&& t.xiangqi_selected == s.xiangqi_selected
    &&& t.xiangqi_valid_moves@ == s.xiangqi_valid_moves@
    &&& t.xiangqi_turn == s.xiangqi_turn
    &&& t.xiangqi_last_from == s.xiangqi_last_from
    &&& t.xiangqi_last_to == s.xiangqi_last_to
}

/// The outcome of an event that is not taken up.
pub open spec fn ignored(out: Outcome) -> bool {
    out.action is Ignore && out.status is None
}

/// The outcome of an event that changes what is drawn and not the status line.
pub open spec fn redrawn(out: Outcome) -> bool {
    out.action is Redraw && out.status is None
}

// ---------------------------------------------------------------------------
// Tic-tac-toe and gomoku

/// A click on cell `idx` of the tic-tac-toe board, taking state `s` to `t`.
pub open spec fn ttt_click_post(s: AppState, t: AppState, idx: int, out: Outcome) -> bool {
    let b = s.ttt_board@;
    let pvp = s.game_mode == GameMode::PvP;
    let p = if pvp { s.current_turn } else { Player::X };
    let nb = b.update(idx, Some(p));
    if b[idx] is Some {
        t == s && ignored(out)
    } else {
        &&& same_setup(s, t) && same_gomoku(s, t) && same_chess(s, t) && same_xiangqi(s, t)
        &&& t.ttt_board@ == nb
        &&& t.last_move == Some(idx as usize)
        &&& if ttt_won(nb, p) {
            &&& t.game_over && !t.ai_thinking && t.current_turn == s.current_turn
            &&& out.action is Redraw
            &&& out.status == Some(if pvp { Status::PlayerWins(p) } else { Status::YouWin })
        } else if board_full(nb) {
            &&& t.game_over && !t.ai_thinking && t.current_turn == s.current_turn
            &&& out.action is Redraw
            &&& out.status == Some(Status::ItsADraw)
        } else if pvp {
            &&& !t.game_over && !t.ai_thinking && t.current_turn == other_player(p)
            &&& out.action is Redraw
            &&& out.status == Some(Status::PlayerTurn(other_player(p)))
        } else {
            &&& !t.game_over && t.ai_thinking && t.current_turn == s.current_turn
            &&& out.action == Action::SearchTicTacToe(t.ttt_board)
            &&& out.status == Some(Status::Thinking)
        }
    }
}

/// A click on cell `idx` of the gomoku board, taking state `s` to `t`.
pub open spec fn gomoku_click_post(s: AppState, t: AppState, idx: int, out: Outcome) -> bool {
    let b = s.gomoku_board@;
    let pvp = s.game_mode == GameMode::PvP;
    let p = if pvp { s.current_turn } else { Player::X };
    let nb = b.update(idx, Some(p));
    if b[idx] is Some {
        t == s && ignored(out)
    } else {
        &&& same_setup(s, t) && same_ttt(s, t) && same_chess(s, t) && same_xiangqi(s, t)
        &&& t.gomoku_board@ == nb
        &&& t.last_move == Some(idx as usize)
        &&& if gomoku_won(nb, p) {
            &&& t.game_over && !t.ai_thinking && t.current_turn == s.current_turn
            &&& out.action is Redraw
            &&& out.status == Some(if pvp { Status::PlayerWins(p) } else { Status::YouWin })
        } else if pvp {
            &&& !t.game_over && !t.ai_thinking && t.current_turn == other_player(p)
            &&& out.action is Redraw
            &&& out.status == Some(Status::PlayerTurn(other_player(p)))
        } else {
            &&& !t.game_over && t.ai_thinking && t.current_turn == s.current_turn
            &&& out.action == Action::SearchGomoku(t.gomoku_board)
            &&& out.status == Some(Status::Thinking)
        }
    }
}

/// The computer's tic-tac-toe answer `best` arriving in state `s`, giving `t`.
pub open spec fn ttt_reply_post(s: AppState, t: AppState, best: Option<usize>, out: Outcome) -> bool {
    if !s.ai_thinking {
        t == s && ignored(out)
    } else {
        &&& same_setup(s, t) && same_gomoku(s, t) && same_chess(s, t) && same_xiangqi(s, t)
        &&& t.current_turn == s.current_turn
        &&& !t.ai_thinking
        &&& out.action is Redraw
        &&& match best {
            None => t.ttt_board == s.ttt_board && t.last_move == s.last_move && t.game_over == s.game_over
                && out.status is None,
            Some(m) => {
                let nb = s.ttt_board@.update(m as int, Some(Player::O));
                &&& t.ttt_board@ == nb
                &&& t.last_move == Some(m)
                &&& if ttt_won(nb, Player::O) {
                    t.game_over && out.status == Some(Status::ComputerWins)
                } else if board_full(nb) {
                    t.game_over && out.status == Some(Status::ItsADraw)
                } else {
                    t.game_over == s.game_over && out.status == Some(Status::YourTurnX)
                }
            },
        }
    }
}

/// The computer's gomoku answer `best` arriving in state `s`, giving `t`.
pub open spec fn gomoku_reply_post(s: AppState, t: AppState, best: Option<usize>, out: Outcome) -> bool {
    if !s.ai_thinking {
        t == s && ignored(out)
    } else {
        &&& same_setup(s, t) && same_ttt(s, t) && same_chess(s, t) && same_xiangqi(s, t)
        &&& t.current_turn == s.current_turn
        &&& !t.ai_thinking
        &&& out.action is Redraw
        &&& match best {
            None => t.gomoku_board == s.gomoku_board && t.last_move == s.last_move && t.game_over == s.game_over
                && out.status is None,
            Some(m) => {
                let nb = s.gomoku_board@.update(m as int, Some(Player::O));
                &&& t.gomoku_board@ == nb
                &&& t.last_move == Some(m)
                &&& if gomoku_won(nb, Player::O) {
                    t.game_over && out.status == Some(Status::ComputerWins)
                } else {
                    t.game_over == s.game_over && out.status == Some(Status::YourTurnX)
                }
            },
        }
    }
}

impl AppState {
    fn ttt_click(&mut self, idx: usize) -> (out: Outcome)
        requires
            old(self).wf(),
            idx < 9,
            old(self).game_type == GameType::TicTacToe,
            !old(self).game_over,
            !old(self).ai_thinking,
        ensures
            final(self).wf(),
            ttt_click_post(*old(self), *final(self), idx as int, out),
    {
        if self.ttt_board[idx].is_some() {
            return Outcome { action: Action::Ignore, status: None };
        }
        let pvp = self.game_mode == GameMode::PvP;
        let p = if pvp { self.current_turn } else { Player::X };
        self.ttt_board[idx] = Some(p);
        self.last_move = Some(idx);
        if check_ttt_win(&self.ttt_board, p) {
            self.game_over = true;
            Outcome { action: Action::Redraw, status: Some(if pvp { Status::PlayerWins(p) } else { Status::YouWin }) }
        } else if is_board_full(&self.ttt_board) {
            self.game_over = true;
            Outcome { action: Action::Redraw, status: Some(Status::ItsADraw) }
        } else if pvp {
            let q = opponent(p);
            self.current_turn = q;
            Outcome { action: Action::Redraw, status: Some(Status::PlayerTurn(q)) }
        } else {
            self.ai_thinking = true;
            Outcome { action: Action::SearchTicTacToe(self.ttt_board), status: Some(Status::Thinking) }
        }
    }

    fn gomoku_click(&mut self, idx: usize) -> (out: Outcome)
        requires
            old(self).wf(),
            idx < 225,
            old(self).game_type == GameType::Gomoku,
            !old(self).game_over,
            !old(self).ai_thinking,
        ensures
            final(self).wf(),
            gomoku_click_post(*old(self), *final(self), idx as int, out),
    {
        if self.gomoku_board[idx].is_some() {
            return Outcome { action: Action::Ignore, status: None };
        }
        let pvp = self.game_mode == GameMode::PvP;
        let p = if pvp { self.current_turn } else { Player::X };
        self.gomoku_board[idx] = Some(p);
        self.last_move = Some(idx);
        if check_gomoku_win(&self.gomoku_board, p) {
            self.game_over = true;
            Outcome { action: Action::Redraw, status: Some(if pvp { Status::PlayerWins(p) } else { Status::YouWin }) }
        } else if pvp {
            let q = opponent(p);
            self.current_turn = q;
            Outcome { action: Action::Redraw, status: Some(Status::PlayerTurn(q)) }
        } else {
            self.ai_thinking = true;
            Outcome { action: Action::SearchGomoku(self.gomoku_board), status: Some(Status::Thinking) }
        }
    }

    /// The computer's tic-tac-toe move `best` arrives. It is taken up only
    /// while the computer is thinking; a move puts an O on its cell.
    pub fn finish_ttt_turn(&mut self, best: Option<usize>) -> (out: Outcome)
        requires
            old(self).wf(),
            best matches Some(m) ==> m < 9,
        ensures
            final(self).wf(),
            ttt_reply_post(*old(self), *final(self), best, out),
    {
        if !self.ai_thinking {
            return Outcome { action: Action::Ignore, status: None };
        }
        let mut status = None;
        if let Some(m) = best {
            self.ttt_board[m] = Some(Player::O);
            self.last_move = Some(m);
            if check_ttt_win(&self.ttt_board, Player::O) {
                self.game_over = true;
                status = Some(Status::ComputerWins);
            } else if is_board_full(&self.ttt_board) {
                self.game_over = true;
                status = Some(Status::ItsADraw);
            } else {
                status = Some(Status::YourTurnX);
            }
        }
        self.ai_thinking = false;
        Outcome { action: Action::Redraw, status }
    }

    /// The computer's gomoku move `best` arrives. It is taken up only while
    /// the computer is thinking; a move puts an O on its cell.
    pub fn finish_gomoku_turn(&mut self, best: Option<usize>) -> (out: Outcome)
        requires
            old(self).wf(),
            best matches Some(m) ==> m < 225,
        ensures
            final(self).wf(),
            gomoku_reply_post(*old(self), *final(self), best, out),
    {
        if !self.ai_thinking {
            return Outcome { action: Action::Ignore, status: None };
        }
        let mut status = None;
        if let Some(m) = best {
            self.gomoku_board[m] = Some(Player::O);
            self.last_move = Some(m);
            if check_gomoku_win(&self.gomoku_board, Player::O) {
                self.game_over = true;
                status = Some(Status::ComputerWins);
            } else {
                status = Some(Status::YourTurnX);
            }
        }
        self.ai_thinking = false;
        Outcome { action: Action::Redraw, status }
    }
}

// ---------------------------------------------------------------------------
// Searching lists of moves and targets

fn vec_contains(v: &Vec<usize>, x: usize) -> (r: bool)
    ensures
        r == v@.contains(x),
{
    let mut i: usize = 0;
    while i < v.len()
        invariant
            i <= v.len(),
            forall|j: int| 0 <= j < i ==> v@[j] != x,
        decreases v.len() - i,
    {
        if v[i] == x {
            return true;
        }
        i = i + 1;
    }
    false
}

/// Index of the first move at or after `k` that goes from `from` to `to`;
/// the length of the list when there is none.
pub open spec fn find_chess(moves: Seq<ChessMove>, from: int, to: int, k: int) -> int
    decreases moves.len() - k,
{
    if k < 0 || k >= moves.len() {
        moves.len() as int
    } else if moves[k].from == from && moves[k].to == to {
        k
    } else {
        find_chess(moves, from, to, k + 1)
    }
}

proof fn lemma_find_chess(moves: Seq<ChessMove>, from: int, to: int, k: int)
    requires
        0 <= k <= moves.len(),
    ensures
        k <= find_chess(moves, from, to, k) <= moves.len(),
    decreases moves.len() - k,
{
    if k < moves.len() {
        lemma_find_chess(moves, from, to, k + 1);
    }
}

fn find_chess_move(moves: &Vec<ChessMove>, from: usize, to: usize) -> (r: usize)
    ensures
        r == find_chess(moves@, from as int, to as int, 0),
        r <= moves@.len(),
{
    proof {
        lemma_find_chess(moves@, from as int, to as int, 0);
    }
    let mut k: usize = 0;
    while k < moves.len()
        invariant
            k <= moves.len(),
            find_chess(moves@, from as int, to as int, 0) == find_chess(moves@, from as int, to as int, k as int),
        decreases moves.len() - k,
    {
        if moves[k].from == from && moves[k].to == to {
            return k;
        }
        k = k + 1;
    }
    k
}

fn chess_targets_of(moves: &Vec<ChessMove>, from: usize) -> (r: Vec<usize>)
    ensures
        r@ == chess_targets(moves@, from as int),
{
    let mut r: Vec<usize> = Vec::new();
    let mut i: usize = 0;
    while i < moves.len()
        invariant
            i <= moves.len(),
            r@ == chess_targets(moves@.take(i as int), from as int),
        decreases moves.len() - i,
    {
        assert(moves@.take(i + 1).drop_last() =~= moves@.take(i as int));
        if moves[i].from == from {
            r.push(moves[i].to);
        }
        i = i + 1;
    }
    assert(moves@.take(moves.len() as int) =~= moves@);
    r
}

fn same_chess_move(a: &ChessMove, b: &ChessMove) -> (r: bool)
    ensures
        r == (*a == *b),
{
    let same_promotion = match (a.promotion, b.promotion) {
        (None, None) => true,
        (Some(x), Some(y)) => x == y,
        _ => false,
    };
    a.from == b.from && a.to == b.to && same_promotion && a.is_castling == b.is_castling
        && a.is_en_passant == b.is_en_passant
}

/// Index of `mv` in `moves`, if it is there.
fn position_of_chess_move(moves: &Vec<ChessMove>, mv: &ChessMove) -> (r: Option<usize>)
    ensures
        r matches Some(i) ==> i < moves@.len() && moves@[i as int] == *mv,
        r is None ==> !moves@.contains(*mv),
{
    let mut k: usize = 0;
    while k < moves.len()
        invariant
            k <= moves.len(),
            forall|j: int| 0 <= j < k ==> moves@[j] != *mv,
        decreases moves.len() - k,
    {
        if same_chess_move(&moves[k], mv) {
            return Some(k);
        }
        k = k + 1;
    }
    None
}

// ---------------------------------------------------------------------------
// Chess

/// The legal moves of the side to move in the chess position of `s`.
pub open spec fn chess_legal(s: AppState) -> Seq<ChessMove> {
    legal_moves(s.chess_board@, s.chess_turn, s.castling_rights, s.en_passant_target)
}

/// `t` is `s` after chess move `m`: the board, castling rights and en passant
/// target follow the move, the other side is to move, the move is marked as
/// the last one and nothing is selected.
pub open spec fn chess_moved(s: AppState, t: AppState, m: ChessMove) -> bool {
    let b = s.chess_board@;
    &&& t.chess_board@ == apply_board(b, m)
    &&& t.castling_rights == apply_rights(b, m, s.castling_rights)
    &&& t.en_passant_target == apply_ep(b, m)
    &&& t.chess_turn == other(s.chess_turn)
    &&& t.last_move_from == Some(m.from)
    &&& t.last_move_to == Some(m.to)
    &&& t.selected_cell is None
    &&& t.valid_moves@.len() == 0
}

/// The side to move in the chess position of `t` has no legal move.
pub open spec fn chess_stuck(t: AppState) -> bool {
    chess_legal(t).len() == 0
}

/// The side to move in the chess position of `t` is in check.
pub open spec fn chess_checked(t: AppState) -> bool {
    in_check(t.chess_board@, t.chess_turn)
}

/// `search` holds the chess position of `t`, Black to move.
pub open spec fn chess_search_of(search: ChessSearch, t: AppState) -> bool {
    &&& search.board_view() == t.chess_board@
    &&& search.turn_view() == Color::Black
    &&& search.rights_view() == t.castling_rights
    &&& search.en_passant_view() == t.en_passant_target
}

/// A click on square `idx` of the chess board, taking state `s` to `t`:
/// a highlighted destination plays the selected piece's move there; a piece
/// of the side to move gets selected with its destinations highlighted
/// (against the computer, only White's pieces); anything else clears the
/// selection. After a move, no legal reply ends the game (checkmate when in
/// check, else a draw); against the computer, Black's turn starts a search.
pub open spec fn chess_click_post(s: AppState, t: AppState, idx: int, out: Outcome) -> bool {
    let b = s.chess_board@;
    let c = s.chess_turn;
    let legal = chess_legal(s);
    &&& same_setup(s, t) && same_marks(s, t) && same_ttt(s, t) && same_gomoku(s, t) && same_xiangqi(s, t)
    &&& if s.selected_cell is Some && s.valid_moves@.contains(idx as usize) {
        let i = find_chess(legal, s.selected_cell->0 as int, idx, 0);
        if i < legal.len() {
            &&& chess_moved(s, t, legal[i])
            &&& if chess_stuck(t) {
                &&& t.game_over && !t.ai_thinking
                &&& out.action is Redraw
                &&& out.status == Some(if chess_checked(t) { Status::ChessWins(c) } else { Status::ChessDraw })
            } else {
                &&& !t.game_over
                &&& out.status == Some(
                    if chess_checked(t) {
                        Status::ChessCheck(t.chess_turn)
                    } else if s.game_mode == GameMode::PvP {
                        Status::ChessTurn(t.chess_turn)
                    } else {
                        Status::Thinking
                    },
                )
                &&& if s.game_mode == GameMode::PvE && t.chess_turn == Color::Black {
                    t.ai_thinking && (out.action matches Action::SearchChess(search) && chess_search_of(search, t))
                } else {
                    !t.ai_thinking && out.action is Redraw
                }
            }
        } else {
            t == s && redrawn(out)
        }
    } else {
        &&& t.chess_board == s.chess_board
        &&& t.chess_turn == s.chess_turn
        &&& t.castling_rights == s.castling_rights
        &&& t.en_passant_target == s.en_passant_target
        &&& t.last_move_from == s.last_move_from
        &&& t.last_move_to == s.last_move_to
        &&& t.game_over == s.game_over
        &&& t.ai_thinking == s.ai_thinking
        &&& redrawn(out)
        &&& if b[idx] is Some && b[idx]->0.color == c {
            if s.game_mode == GameMode::PvE && c != Color::White {
                t.selected_cell == s.selected_cell && t.valid_moves@ == s.valid_moves@
            } else {
                t.selected_cell == Some(idx as usize) && t.valid_moves@ == chess_targets(legal, idx)
            }
        } else {
            t.selected_cell is None && t.valid_moves@.len() == 0
        }
    }
}

/// The computer's chess move `best` arriving in state `s`, giving `t`. It is
/// taken up only while the computer is thinking and Black is to move, and
/// played when it is one of Black's legal moves. Then no legal reply ends
/// the game (Black wins when White is in check, else a draw).
pub open spec fn chess_reply_post(s: AppState, t: AppState, best: Option<ChessMove>, out: Outcome) -> bool {
    if !s.ai_thinking {
        t == s && ignored(out)
    } else {
        &&& same_setup(s, t) && same_marks(s, t) && same_ttt(s, t) && same_gomoku(s, t) && same_xiangqi(s, t)
        &&& !t.ai_thinking
        &&& out.action is Redraw
        &&& if s.chess_turn == Color::Black && best is Some && chess_legal(s).contains(best->0) {
            &&& chess_moved(s, t, best->0)
            &&& if chess_stuck(t) {
                &&& t.game_over
                &&& out.status == Some(if chess_checked(t) { Status::ChessWins(Color::Black) } else { Status::ChessDraw })
            } else {
                &&& t.game_over == s.game_over
                &&& out.status == Some(
                    if chess_checked(t) { Status::ChessCheck(Color::White) } else { Status::YourTurnWhite },
                )
            }
        } else {
            same_chess(s, t) && t.game_over == s.game_over && out.status is None
        }
    }
}

impl AppState {
    /// Plays legal move `mv` (number `k` of the legal moves) on the chess board.
    fn play_chess_move(&mut self, mv: ChessMove, Ghost(k): Ghost<int>)
        requires
            old(self).wf(),
            0 <= k < chess_legal(*old(self)).len(),
            mv == chess_legal(*old(self))[k],
        ensures
            final(self).wf(),
            chess_moved(*old(self), *final(self), mv),
            same_setup(*old(self), *final(self)),
            same_marks(*old(self), *final(self)),
            same_ttt(*old(self), *final(self)),
            same_gomoku(*old(self), *final(self)),
            same_xiangqi(*old(self), *final(self)),
            final(self).game_over == old(self).game_over,
            final(self).ai_thinking == old(self).ai_thinking,
    {
        proof {
            crate::chess::position::lemma_legal_move(self.chess_board@, self.chess_turn, self.castling_rights, self.en_passant_target, k);
            lemma_legal_move_keeps_position(self.chess_board@, self.chess_turn, self.castling_rights, self.en_passant_target, k);
        }
        let (board, rights, ep) = apply_move(&self.chess_board, &mv, &self.castling_rights, self.en_passant_target);
        self.chess_board = board;
        self.castling_rights = rights;
        self.en_passant_target = ep;
        self.last_move_from = Some(mv.from);
        self.last_move_to = Some(mv.to);
        self.selected_cell = None;
        self.valid_moves.clear();
        self.chess_turn = self.chess_turn.opposite();
    }

    fn handle_chess_click(&mut self, idx: usize) -> (out: Outcome)
        requires
            old(self).wf(),
            idx < 64,
            old(self).game_type == GameType::Chess,
            !old(self).game_over,
            !old(self).ai_thinking,
        ensures
            final(self).wf(),
            chess_click_post(*old(self), *final(self), idx as int, out),
    {
        proof {
            lemma_position_king_survives(self.chess_board@, self.chess_turn, self.castling_rights, self.en_passant_target);
        }
        let clicked = self.chess_board[idx];
        if self.selected_cell.is_some() && vec_contains(&self.valid_moves, idx) {
            let from = self.selected_cell.unwrap();
            let legal = generate_legal_moves(&self.chess_board, self.chess_turn, &self.castling_rights, self.en_passant_target);
            let i = find_chess_move(&legal, from, idx);
            if i < legal.len() {
                let mv = legal[i];
                let mover = self.chess_turn;
                self.play_chess_move(mv, Ghost(i as int));
                let next = self.chess_turn;
                proof {
                    lemma_position_king_survives(self.chess_board@, self.chess_turn, self.castling_rights, self.en_passant_target);
                }
                if is_checkmate(&self.chess_board, next, &self.castling_rights, self.en_passant_target) {
                    self.game_over = true;
                    return Outcome { action: Action::Redraw, status: Some(Status::ChessWins(mover)) };
                }
                if is_stalemate(&self.chess_board, next, &self.castling_rights, self.en_passant_target) {
                    self.game_over = true;
                    return Outcome { action: Action::Redraw, status: Some(Status::ChessDraw) };
                }
                let status = if is_in_check(&self.chess_board, next) {
                    Status::ChessCheck(next)
                } else if self.game_mode == GameMode::PvP {
                    Status::ChessTurn(next)
                } else {
                    Status::Thinking
                };
                if self.game_mode == GameMode::PvE && next == Color::Black {
                    self.ai_thinking = true;
                    let search = ChessSearch {
                        board: self.chess_board,
                        turn: Color::Black,
                        rights: self.castling_rights,
                        en_passant: self.en_passant_target,
                    };
                    return Outcome { action: Action::SearchChess(search), status: Some(status) };
                }
                return Outcome { action: Action::Redraw, status: Some(status) };
            }
            Outcome { action: Action::Redraw, status: None }
        } else if let Some(piece) = clicked {
            if piece.color == self.chess_turn {
                if self.game_mode == GameMode::PvE && piece.color != Color::White {
                    return Outcome { action: Action::Redraw, status: None };
                }
                let legal = generate_legal_moves(&self.chess_board, self.chess_turn, &self.castling_rights, self.en_passant_target);
                self.selected_cell = Some(idx);
                self.valid_moves = chess_targets_of(&legal, idx);
            } else {
                self.selected_cell = None;
                self.valid_moves.clear();
            }
            Outcome { action: Action::Redraw, status: None }
        } else {
            self.selected_cell = None;
            self.valid_moves.clear();
            Outcome { action: Action::Redraw, status: None }
        }
    }

    /// The computer's chess move `best` arrives.
    pub fn finish_chess_turn(&mut self, best: Option<ChessMove>) -> (out: Outcome)
        requires
            old(self).wf(),
        ensures
            final(self).wf(),
            chess_reply_post(*old(self), *final(self), best, out),
    {
        if !self.ai_thinking {
            return Outcome { action: Action::Ignore, status: None };
        }
        if let Some(mv) = best {
            if self.chess_turn == Color::Black {
                proof {
                    lemma_position_king_survives(self.chess_board@, self.chess_turn, self.castling_rights, self.en_passant_target);
                }
                let legal = generate_legal_moves(&self.chess_board, self.chess_turn, &self.castling_rights, self.en_passant_target);
                if let Some(i) = position_of_chess_move(&legal, &mv) {
                    self.play_chess_move(mv, Ghost(i as int));
                    proof {
                        lemma_position_king_survives(self.chess_board@, self.chess_turn, self.castling_rights, self.en_passant_target);
                    }
                    let status = if is_checkmate(&self.chess_board, Color::White, &self.castling_rights, self.en_passant_target) {
                        self.game_over = true;
                        Status::ChessWins(Color::Black)
                    } else if is_stalemate(&self.chess_board, Color::White, &self.castling_rights, self.en_passant_target) {
                        self.game_over = true;
                        Status::ChessDraw
                    } else if is_in_check(&self.chess_board, Color::White) {
                        Status::ChessCheck(Color::White)
                    } else {
                        Status::YourTurnWhite
                    };
                    self.ai_thinking = false;
                    return Outcome { action: Action::Redraw, status: Some(status) };
                }
            }
        }
        self.ai_thinking = false;
        Outcome { action: Action::Redraw, status: None }
    }
}

// ---------------------------------------------------------------------------
// Xiangqi

/// Index of the first move at or after `k` that goes from `from` to `to`;
/// the length of the list when there is none.
pub open spec fn find_xiangqi(moves: Seq<XiangqiMove>, from: int, to: int, k: int) -> int
    decreases moves.len() - k,
{
    if k < 0 || k >= moves.len() {
        moves.len() as int
    } else if moves[k].from == from && moves[k].to == to {
        k
    } else {
        find_xiangqi(moves, from, to, k + 1)
    }
}

proof fn lemma_find_xiangqi(moves: Seq<XiangqiMove>, from: int, to: int, k: int)
    requires
        0 <= k <= moves.len(),
    ensures
        k <= find_xiangqi(moves, from, to, k) <= moves.len(),
    decreases moves.len() - k,
{
    if k < moves.len() {
        lemma_find_xiangqi(moves, from, to, k + 1);
    }
}

fn find_xiangqi_move(moves: &Vec<XiangqiMove>, from: usize, to: usize) -> (r: usize)
    ensures
        r == find_xiangqi(moves@, from as int, to as int, 0),
        r <= moves@.len(),
{
    proof {
        lemma_find_xiangqi(moves@, from as int, to as int, 0);
    }
    let mut k: usize = 0;
    while k < moves.len()
        invariant
            k <= moves.len(),
            find_xiangqi(moves@, from as int, to as int, 0) == find_xiangqi(moves@, from as int, to as int, k as int),
        decreases moves.len() - k,
    {
        if moves[k].from == from && moves[k].to == to {
            return k;
        }
        k = k + 1;
    }
    k
}

fn xiangqi_targets_of(moves: &Vec<XiangqiMove>, from: usize) -> (r: Vec<usize>)
    ensures
        r@ == xiangqi_targets(moves@, from as int),
{
    let mut r: Vec<usize> = Vec::new();
    let mut i: usize = 0;
    while i < moves.len()
        invariant
            i <= moves.len(),
            r@ == xiangqi_targets(moves@.take(i as int), from as int),
        decreases moves.len() - i,
    {
        assert(moves@.take(i + 1).drop_last() =~= moves@.take(i as int));
        if moves[i].from == from {
            r.push(moves[i].to);
        }
        i = i + 1;
    }
    assert(moves@.take(moves.len() as int) =~= moves@);
    r
}

/// Index of `mv` in `moves`, if it is there.
fn position_of_xiangqi_move(moves: &Vec<XiangqiMove>, mv: &XiangqiMove) -> (r: Option<usize>)
    ensures
        r matches Some(i) ==> i < moves@.len() && moves@[i as int] == *mv,
        r is None ==> !moves@.contains(*mv),
{
    let mut k: usize = 0;
    while k < moves.len()
        invariant
            k <= moves.len(),
            forall|j: int| 0 <= j < k ==> moves@[j] != *mv,
        decreases moves.len() - k,
    {
        if moves[k].from == mv.from && moves[k].to == mv.to {
            return Some(k);
        }
        k = k + 1;
    }
    None
}

/// The legal moves of the side to move in the xiangqi position of `s`.
pub open spec fn xiangqi_legal(s: AppState) -> Seq<XiangqiMove> {
    xq_legal_moves(s.xiangqi_board@, s.xiangqi_turn)
}

/// `t` is `s` after xiangqi move `m`: the piece moves, the other side is to
/// move, the move is marked as the last one and nothing is selected.
pub open spec fn xiangqi_moved(s: AppState, t: AppState, m: XiangqiMove) -> bool {
    &&& t.xiangqi_board@ == xq_apply(s.xiangqi_board@, m)
    &&& t.xiangqi_turn == other_side(s.xiangqi_turn)
    &&& t.xiangqi_last_from == Some(m.from)
    &&& t.xiangqi_last_to == Some(m.to)
    &&& t.xiangqi_selected is None
    &&& t.xiangqi_valid_moves@.len() == 0
}

/// The side to move in the xiangqi position of `t` has no legal move.
pub open spec fn xiangqi_stuck(t: AppState) -> bool {
    xiangqi_legal(t).len() == 0
}

/// The side to move in the xiangqi position of `t` is in check.
pub open spec fn xiangqi_checked(t: AppState) -> bool {
    xq_in_check(t.xiangqi_board@, t.xiangqi_turn)
}

/// `search` holds the xiangqi position of `t`, Black to move.
pub open spec fn xiangqi_search_of(search: XiangqiSearch, t: AppState) -> bool {
    search.board_view() == t.xiangqi_board@ && search.turn_view() == XiangqiColor::Black
}

/// A click on point `idx` of the xiangqi board, taking state `s` to `t`:
/// as for chess, except that a side left without a legal move loses,
/// whether in check or not.
pub open spec fn xiangqi_click_post(s: AppState, t: AppState, idx: int, out: Outcome) -> bool {
    let b = s.xiangqi_board@;
    let c = s.xiangqi_turn;
    let legal = xiangqi_legal(s);
    &&& same_setup(s, t) && same_marks(s, t) && same_ttt(s, t) && same_gomoku(s, t) && same_chess(s, t)
    &&& if s.xiangqi_selected is Some && s.xiangqi_valid_moves@.contains(idx as usize) {
        let i = find_xiangqi(legal, s.xiangqi_selected->0 as int, idx, 0);
        if i < legal.len() {
            &&& xiangqi_moved(s, t, legal[i])
            &&& if xiangqi_stuck(t) {
                &&& t.game_over && !t.ai_thinking
                &&& out.action is Redraw
                &&& out.status == Some(Status::XiangqiWins(c))
            } else {
                &&& !t.game_over
                &&& out.status == Some(
                    if xiangqi_checked(t) {
                        Status::XiangqiCheck(t.xiangqi_turn)
                    } else if s.game_mode == GameMode::PvP {
                        Status::XiangqiTurn(t.xiangqi_turn)
                    } else {
                        Status::Thinking
                    },
                )
                &&& if s.game_mode == GameMode::PvE && t.xiangqi_turn == XiangqiColor::Black {
                    t.ai_thinking && (out.action matches Action::SearchXiangqi(search) && xiangqi_search_of(search, t))
                } else {
                    !t.ai_thinking && out.action is Redraw
                }
            }
        } else {
            t == s && redrawn(out)
        }
    } else {
        &&& t.xiangqi_board == s.xiangqi_board
        &&& t.xiangqi_turn == s.xiangqi_turn
        &&& t.xiangqi_last_from == s.xiangqi_last_from
        &&& t.xiangqi_last_to == s.xiangqi_last_to
        &&& t.game_over == s.game_over
        &&& t.ai_thinking == s.ai_thinking
        &&& redrawn(out)
        &&& if b[idx] is Some && b[idx]->0.color == c {
            if s.game_mode == GameMode::PvE && c != XiangqiColor::Red {
                t.xiangqi_selected == s.xiangqi_selected && t.xiangqi_valid_moves@ == s.xiangqi_valid_moves@
            } else {
                t.xiangqi_selected == Some(idx as usize) && t.xiangqi_valid_moves@ == xiangqi_targets(legal, idx)
            }
        } else {
            t.xiangqi_selected is None && t.xiangqi_valid_moves@.len() == 0
        }
    }
}

/// The computer's xiangqi move `best` arriving in state `s`, giving `t`. It
/// is taken up only while the computer is thinking and Black is to move, and
/// played when it is one of Black's legal moves. Then Red without a legal
/// move loses.
pub open spec fn xiangqi_reply_post(s: AppState, t: AppState, best: Option<XiangqiMove>, out: Outcome) -> bool {
    if !s.ai_thinking {
        t == s && ignored(out)
    } else {
        &&& same_setup(s, t) && same_marks(s, t) && same_ttt(s, t) && same_gomoku(s, t) && same_chess(s, t)
        &&& !t.ai_thinking
        &&& out.action is Redraw
        &&& if s.xiangqi_turn == XiangqiColor::Black && best is Some && xiangqi_legal(s).contains(best->0) {
            &&& xiangqi_moved(s, t, best->0)
            &&& if xiangqi_stuck(t) {
                t.game_over && out.status == Some(Status::XiangqiWins(XiangqiColor::Black))
            } else {
                &&& t.game_over == s.game_over
                &&& out.status == Some(
                    if xiangqi_checked(t) { Status::XiangqiCheck(XiangqiColor::Red) } else { Status::YourTurnRed },
                )
            }
        } else {
            same_xiangqi(s, t) && t.game_over == s.game_over && out.status is None
        }
    }
}

impl AppState {
    /// Plays legal move `mv` (number `k` of the legal moves) on the xiangqi board.
    fn play_xiangqi_move(&mut self, mv: XiangqiMove, Ghost(k): Ghost<int>)
        requires
            old(self).wf(),
            0 <= k < xiangqi_legal(*old(self)).len(),
            mv == xiangqi_legal(*old(self))[k],
        ensures
            final(self).wf(),
            xiangqi_moved(*old(self), *final(self), mv),
            same_setup(*old(self), *final(self)),
            same_marks(*old(self), *final(self)),
            same_ttt(*old(self), *final(self)),
            same_gomoku(*old(self), *final(self)),
            same_chess(*old(self), *final(self)),
            final(self).game_over == old(self).game_over,
            final(self).ai_thinking == old(self).ai_thinking,
    {
        proof {
            crate::xiangqi::position::lemma_xq_legal_move(self.xiangqi_board@, self.xiangqi_turn, k);
            lemma_xq_legal_move_keeps_position(self.xiangqi_board@, self.xiangqi_turn, k);
        }
        let board = crate::xiangqi::moves::apply_move(&self.xiangqi_board, &mv);
        self.xiangqi_board = board;
        self.xiangqi_last_from = Some(mv.from);
        self.xiangqi_last_to = Some(mv.to);
        self.xiangqi_selected = None;
        self.xiangqi_valid_moves.clear();
        self.xiangqi_turn = self.xiangqi_turn.opposite();
    }

    fn handle_xiangqi_click(&mut self, idx: usize) -> (out: Outcome)
        requires
            old(self).wf(),
            idx < 90,
            old(self).game_type == GameType::Xiangqi,
            !old(self).game_over,
            !old(self).ai_thinking,
        ensures
            final(self).wf(),
            xiangqi_click_post(*old(self), *final(self), idx as int, out),
    {
        proof {
            lemma_xq_position_generals_survive(self.xiangqi_board@, self.xiangqi_turn);
        }
        let clicked = self.xiangqi_board[idx];
        if self.xiangqi_selected.is_some() && vec_contains(&self.xiangqi_valid_moves, idx) {
            let from = self.xiangqi_selected.unwrap();
            let legal = crate::xiangqi::moves::generate_legal_moves(&self.xiangqi_board, self.xiangqi_turn);
            let i = find_xiangqi_move(&legal, from, idx);
            if i < legal.len() {
                let mv = legal[i];
                let mover = self.xiangqi_turn;
                self.play_xiangqi_move(mv, Ghost(i as int));
                let next = self.xiangqi_turn;
                proof {
                    lemma_xq_position_generals_survive(self.xiangqi_board@, self.xiangqi_turn);
                }
                if crate::xiangqi::moves::is_checkmate(&self.xiangqi_board, next)
                    || crate::xiangqi::moves::is_stalemate(&self.xiangqi_board, next) {
                    self.game_over = true;
                    return Outcome { action: Action::Redraw, status: Some(Status::XiangqiWins(mover)) };
                }
                let status = if crate::xiangqi::moves::is_in_check(&self.xiangqi_board, next) {
                    Status::XiangqiCheck(next)
                } else if self.game_mode == GameMode::PvP {
                    Status::XiangqiTurn(next)
                } else {
                    Status::Thinking
                };
                if self.game_mode == GameMode::PvE && next == XiangqiColor::Black {
                    self.ai_thinking = true;
                    let search = XiangqiSearch { board: self.xiangqi_board, turn: XiangqiColor::Black };
                    return Outcome { action: Action::SearchXiangqi(search), status: Some(status) };
                }
                return Outcome { action: Action::Redraw, status: Some(status) };
            }
            Outcome { action: Action::Redraw, status: None }
        } else if let Some(piece) = clicked {
            if piece.color == self.xiangqi_turn {
                if self.game_mode == GameMode::PvE && piece.color != XiangqiColor::Red {
                    return Outcome { action: Action::Redraw, status: None };
                }
                let legal = crate::xiangqi::moves::generate_legal_moves(&self.xiangqi_board, self.xiangqi_turn);
                self.xiangqi_selected = Some(idx);
                self.xiangqi_valid_moves = xiangqi_targets_of(&legal, idx);
            } else {
                self.xiangqi_selected = None;
                self.xiangqi_valid_moves.clear();
            }
            Outcome { action: Action::Redraw, status: None }
        } else {
            self.xiangqi_selected = None;
            self.xiangqi_valid_moves.clear();
            Outcome { action: Action::Redraw, status: None }
        }
    }

    /// The computer's xiangqi move `best` arrives.
    pub fn finish_xiangqi_turn(&mut self, best: Option<XiangqiMove>) -> (out: Outcome)
        requires
            old(self).wf(),
        ensures
            final(self).wf(),
            xiangqi_reply_post(*old(self), *final(self), best, out),
    {
        if !self.ai_thinking {
            return Outcome { action: Action::Ignore, status: None };
        }
        if let Some(mv) = best {
            if self.xiangqi_turn == XiangqiColor::Black {
                proof {
                    lemma_xq_position_generals_survive(self.xiangqi_board@, self.xiangqi_turn);
                }
                let legal = crate::xiangqi::moves::generate_legal_moves(&self.xiangqi_board, self.xiangqi_turn);
                if let Some(i) = position_of_xiangqi_move(&legal, &mv) {
                    self.play_xiangqi_move(mv, Ghost(i as int));
                    proof {
                        lemma_xq_position_generals_survive(self.xiangqi_board@, self.xiangqi_turn);
                    }
                    let status = if crate::xiangqi::moves::is_checkmate(&self.xiangqi_board, XiangqiColor::Red)
                        || crate::xiangqi::moves::is_stalemate(&self.xiangqi_board, XiangqiColor::Red) {
                        self.game_over = true;
                        Status::XiangqiWins(XiangqiColor::Black)
                    } else if crate::xiangqi::moves::is_in_check(&self.xiangqi_board, XiangqiColor::Red) {
                        Status::XiangqiCheck(XiangqiColor::Red)
                    } else {
                        Status::YourTurnRed
                    };
                    self.ai_thinking = false;
                    return Outcome { action: Action::Redraw, status: Some(status) };
                }
            }
        }
        self.ai_thinking = false;
        Outcome { action: Action::Redraw, status: None }
    }
}

// ---------------------------------------------------------------------------
// The events

/// The cell index fits the board of the game being played, unless the click
/// is going to be ignored.
pub open spec fn click_in_range(s: AppState, idx: int) -> bool {
    s.game_over || s.ai_thinking || match s.game_type {
        GameType::TicTacToe => idx < 9,
        GameType::Gomoku => idx < 225,
        GameType::Chess => idx < 64,
        GameType::Xiangqi => idx < 90,
        GameType::NoGame => true,
    }
}

/// A click on cell `idx`, taking state `s` to `t`: ignored when the game is
/// over or the computer is thinking, otherwise handled by the current game.
pub open spec fn click_post(s: AppState, t: AppState, idx: int, out: Outcome) -> bool {
    if s.game_over || s.ai_thinking {
        t == s && ignored(out)
    } else {
        match s.game_type {
            GameType::TicTacToe => ttt_click_post(s, t, idx, out),
            GameType::Gomoku => gomoku_click_post(s, t, idx, out),
            GameType::Chess => chess_click_post(s, t, idx, out),
            GameType::Xiangqi => xiangqi_click_post(s, t, idx, out),
            GameType::NoGame => t == s && ignored(out),
        }
    }
}

impl AppState {
    /// Starts a new game of `game_type` in `game_mode`: every board is reset.
    /// Returns the first status line.
    pub fn start_game(&mut self, game_type: GameType, game_mode: GameMode) -> (status: Status)
        ensures
            final(self).wf(),
            final(self).fresh(),
            final(self).game_type == game_type,
            final(self).game_mode == game_mode,
            status == opening_status(game_type, game_mode),
    {
        *self = AppState::new();
        self.game_type = game_type;
        self.game_mode = game_mode;
        match game_type {
            GameType::Chess => if game_mode == GameMode::PvP {
                Status::ChessTurn(Color::White)
            } else {
                Status::YourTurnWhite
            },
            GameType::Xiangqi => if game_mode == GameMode::PvP {
                Status::XiangqiTurn(XiangqiColor::Red)
            } else {
                Status::YourTurnRed
            },
            _ => if game_mode == GameMode::PvP {
                Status::PlayerTurn(Player::X)
            } else {
                Status::YourTurnX
            },
        }
    }

    /// Whether cell `idx` may be handed to `cell_clicked`: it lies on the
    /// board being shown, or the click is going to be ignored anyway.
    pub fn accepts_click(&self, idx: usize) -> (r: bool)
        ensures
            r == click_in_range(*self, idx as int),
    {
        self.game_over || self.ai_thinking || match self.game_type {
            GameType::TicTacToe => idx < 9,
            GameType::Gomoku => idx < 225,
            GameType::Chess => idx < 64,
            GameType::Xiangqi => idx < 90,
            GameType::NoGame => true,
        }
    }

    /// A click on cell `idx` of the board being shown.
    pub fn cell_clicked(&mut self, idx: usize) -> (out: Outcome)
        requires
            old(self).wf(),
            click_in_range(*old(self), idx as int),
        ensures
            final(self).wf(),
            click_post(*old(self), *final(self), idx as int, out),
    {
        if self.game_over || self.ai_thinking {
            return Outcome { action: Action::Ignore, status: None };
        }
        match self.game_type {
            GameType::TicTacToe => self.ttt_click(idx),
            GameType::Gomoku => self.gomoku_click(idx),
            GameType::Chess => self.handle_chess_click(idx),
            GameType::Xiangqi => self.handle_xiangqi_click(idx),
            GameType::NoGame => Outcome { action: Action::Ignore, status: None },
        }
    }
}

// ---------------------------------------------------------------------------
// Laws across events

proof fn lemma_find_chess_hit(moves: Seq<ChessMove>, from: int, to: int, k: int, j: int)
    requires
        0 <= k <= j < moves.len(),
        moves[j].from == from && moves[j].to == to,
    ensures
        k <= find_chess(moves, from, to, k) <= j,
        moves[find_chess(moves, from, to, k)].from == from,
        moves[find_chess(moves, from, to, k)].to == to,
    decreases j - k,
{
    if !(moves[k].from == from && moves[k].to == to) {
        lemma_find_chess_hit(moves, from, to, k + 1, j);
    }
}

proof fn lemma_chess_targets_source(moves: Seq<ChessMove>, from: int, to: usize)
    requires
        chess_targets(moves, from).contains(to),
    ensures
        exists|j: int| 0 <= j < moves.len() && #[trigger] moves[j].from == from && moves[j].to == to,
    decreases moves.len(),
{
    if moves.len() > 0 {
        let a = chess_targets(moves.drop_last(), from);
        if a.contains(to) {
            lemma_chess_targets_source(moves.drop_last(), from, to);
            let j = choose|j: int| 0 <= j < moves.drop_last().len() && #[trigger] moves.drop_last()[j].from == from
                && moves.drop_last()[j].to == to;
            assert(moves[j] == moves.drop_last()[j]);
        } else {
            let t = chess_targets(moves, from);
            let i = choose|i: int| 0 <= i < t.len() && t[i] == to;
            if i < a.len() {
                assert(t[i] == a[i]);
                assert(a.contains(a[i]));
            }
            assert(i >= a.len());
            assert(moves[moves.len() - 1] == moves.last());
        }
    }
}

proof fn lemma_find_xiangqi_hit(moves: Seq<XiangqiMove>, from: int, to: int, k: int, j: int)
    requires
        0 <= k <= j < moves.len(),
        moves[j].from == from && moves[j].to == to,
    ensures
        k <= find_xiangqi(moves, from, to, k) <= j,
        moves[find_xiangqi(moves, from, to, k)].from == from,
        moves[find_xiangqi(moves, from, to, k)].to == to,
    decreases j - k,
{
    if !(moves[k].from == from && moves[k].to == to) {
        lemma_find_xiangqi_hit(moves, from, to, k + 1, j);
    }
}

proof fn lemma_xiangqi_targets_source(moves: Seq<XiangqiMove>, from: int, to: usize)
    requires
        xiangqi_targets(moves, from).contains(to),
    ensures
        exists|j: int| 0 <= j < moves.len() && #[trigger] moves[j].from == from && moves[j].to == to,
    decreases moves.len(),
{
    if moves.len() > 0 {
        let a = xiangqi_targets(moves.drop_last(), from);
        if a.contains(to) {
            lemma_xiangqi_targets_source(moves.drop_last(), from, to);
            let j = choose|j: int| 0 <= j < moves.drop_last().len() && #[trigger] moves.drop_last()[j].from == from
                && moves.drop_last()[j].to == to;
            assert(moves[j] == moves.drop_last()[j]);
        } else {
            let t = xiangqi_targets(moves, from);
            let i = choose|i: int| 0 <= i < t.len() && t[i] == to;
            if i < a.len() {
                assert(t[i] == a[i]);
                assert(a.contains(a[i]));
            }
            assert(i >= a.len());
            assert(moves[moves.len() - 1] == moves.last());
        }
    }
}

/// Clicking a highlighted destination of the selected chess piece always
/// plays a legal move of that piece to that square.
pub proof fn lemma_chess_highlight_plays(s: AppState, idx: usize)
    requires
        s.wf(),
        s.selected_cell is Some,
        s.valid_moves@.contains(idx),
    ensures
        ({
            let i = find_chess(chess_legal(s), s.selected_cell->0 as int, idx as int, 0);
            &&& i < chess_legal(s).len()
            &&& chess_legal(s)[i].from == s.selected_cell->0
            &&& chess_legal(s)[i].to == idx
        }),
{
    let legal = chess_legal(s);
    let from = s.selected_cell->0 as int;
    lemma_chess_targets_source(legal, from, idx);
    let j = choose|j: int| 0 <= j < legal.len() && #[trigger] legal[j].from == from && legal[j].to == idx;
    lemma_find_chess_hit(legal, from, idx as int, 0, j);
}

/// Clicking a highlighted destination of the selected xiangqi piece always
/// plays a legal move of that piece to that point.
pub proof fn lemma_xiangqi_highlight_plays(s: AppState, idx: usize)
    requires
        s.wf(),
        s.xiangqi_selected is Some,
        s.xiangqi_valid_moves@.contains(idx),
    ensures
        ({
            let i = find_xiangqi(xiangqi_legal(s), s.xiangqi_selected->0 as int, idx as int, 0);
            &&& i < xiangqi_legal(s).len()
            &&& xiangqi_legal(s)[i].from == s.xiangqi_selected->0
            &&& xiangqi_legal(s)[i].to == idx
        }),
{
    let legal = xiangqi_legal(s);
    let from = s.xiangqi_selected->0 as int;
    lemma_xiangqi_targets_source(legal, from, idx);
    let j = choose|j: int| 0 <= j < legal.len() && #[trigger] legal[j].from == from && legal[j].to == idx;
    lemma_find_xiangqi_hit(legal, from, idx as int, 0, j);
}

/// With Black to move and a legal move left, the computer chooses a move in
/// the current chess position, and it is one of Black's legal moves, so
/// `finish_chess_turn` plays it.
pub proof fn lemma_chess_choice_is_played(s: AppState)
    requires
        s.wf(),
        s.chess_turn == Color::Black,
        !chess_stuck(s),
    ensures
        best_chess_move(s.chess_board@, s.chess_turn, s.castling_rights, s.en_passant_target) is Some,
        chess_legal(s).contains(best_chess_move(s.chess_board@, s.chess_turn, s.castling_rights, s.en_passant_target)->0),
{
    lemma_best_chess_move_some(s.chess_board@, s.chess_turn, s.castling_rights, s.en_passant_target);
    lemma_best_chess_move_legal(s.chess_board@, s.chess_turn, s.castling_rights, s.en_passant_target);
}

/// With Black to move and a legal move left, the computer chooses a move in
/// the current xiangqi position, and it is one of Black's legal moves, so
/// `finish_xiangqi_turn` plays it.
pub proof fn lemma_xiangqi_choice_is_played(s: AppState)
    requires
        s.wf(),
        s.xiangqi_turn == XiangqiColor::Black,
        !xiangqi_stuck(s),
    ensures
        best_xiangqi_move(s.xiangqi_board@, s.xiangqi_turn) is Some,
        xiangqi_legal(s).contains(best_xiangqi_move(s.xiangqi_board@, s.xiangqi_turn)->0),
{
    lemma_best_xiangqi_move_some(s.xiangqi_board@, s.xiangqi_turn);
    lemma_best_xiangqi_move_legal(s.xiangqi_board@, s.xiangqi_turn);
}

} // verus!
