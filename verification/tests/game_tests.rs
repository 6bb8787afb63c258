use boardgames::game::{Action, Status};
use boardgames::gomoku::get_best_gomoku_move;
use boardgames::state::{AppState, GameMode, GameType, Player};
use boardgames::ttt::get_best_ttt_move;
use boardgames::chess::Color;
use boardgames::xiangqi::XiangqiColor;

#[test]
fn game_names_from_the_menu() {
    assert_eq!(GameType::from_name("ttt"), GameType::TicTacToe);
    assert_eq!(GameType::from_name("gomoku"), GameType::Gomoku);
    assert_eq!(GameType::from_name("chess"), GameType::Chess);
    assert_eq!(GameType::from_name("xiangqi"), GameType::Xiangqi);
    assert_eq!(GameType::from_name("menu"), GameType::NoGame);
    assert_eq!(GameMode::from_name("pvp"), GameMode::PvP);
    assert_eq!(GameMode::from_name("pve"), GameMode::PvE);
    assert_eq!(GameMode::from_name(""), GameMode::PvE);
}

#[test]
fn status_texts() {
    assert_eq!(Status::PlayerTurn(Player::O).text(), "Player O's Turn");
    assert_eq!(Status::PlayerWins(Player::X).text(), "Player X Wins!");
    assert_eq!(Status::YourTurnX.text(), "Your Turn (X)");
    assert_eq!(Status::YouWin.text(), "You Win!");
    assert_eq!(Status::ComputerWins.text(), "Computer Wins!");
    assert_eq!(Status::ItsADraw.text(), "It's a Draw!");
    assert_eq!(Status::Thinking.text(), "Thinking...");
    assert_eq!(Status::ChessTurn(Color::Black).text(), "Black's Turn");
    assert_eq!(Status::YourTurnWhite.text(), "Your Turn (White)");
    assert_eq!(Status::ChessWins(Color::White).text(), "White Wins!");
    assert_eq!(Status::ChessDraw.text(), "Draw!");
    assert_eq!(Status::ChessCheck(Color::Black).text(), "Black is in Check!");
    assert_eq!(Status::XiangqiTurn(XiangqiColor::Red).text(), "Red's Turn");
    assert_eq!(Status::YourTurnRed.text(), "Your Turn (Red)");
    assert_eq!(Status::XiangqiWins(XiangqiColor::Black).text(), "Black Wins!");
    assert_eq!(Status::XiangqiCheck(XiangqiColor::Red).text(), "Red is in Check!");
}

#[test]
fn new_state_has_no_game() {
    let st = AppState::new();
    assert_eq!(st.game_type, GameType::NoGame);
    assert_eq!(st.game_mode, GameMode::PvE);
    assert!(!st.game_over && !st.ai_thinking);
    assert!(st.ttt_board.iter().all(|c| c.is_none()));
    assert_eq!(st.chess_turn, Color::White);
    assert_eq!(st.xiangqi_turn, XiangqiColor::Red);
    assert!(st.valid_moves.is_empty() && st.selected_cell.is_none());
}

#[test]
fn clicks_without_a_game_are_ignored() {
    let mut st = AppState::new();
    let out = st.cell_clicked(3);
    assert!(matches!(out.action, Action::Ignore));
    assert!(out.status.is_none());
}

#[test]
fn opening_status_lines() {
    let mut st = AppState::new();
    assert_eq!(st.start_game(GameType::TicTacToe, GameMode::PvP), Status::PlayerTurn(Player::X));
    assert_eq!(st.start_game(GameType::Gomoku, GameMode::PvE), Status::YourTurnX);
    assert_eq!(st.start_game(GameType::Chess, GameMode::PvP), Status::ChessTurn(Color::White));
    assert_eq!(st.start_game(GameType::Chess, GameMode::PvE), Status::YourTurnWhite);
    assert_eq!(st.start_game(GameType::Xiangqi, GameMode::PvP), Status::XiangqiTurn(XiangqiColor::Red));
    assert_eq!(st.start_game(GameType::Xiangqi, GameMode::PvE), Status::YourTurnRed);
    assert_eq!(st.game_type, GameType::Xiangqi);
    assert_eq!(st.game_mode, GameMode::PvE);
}

#[test]
fn ttt_two_players_until_a_win() {
    let mut st = AppState::new();
    st.start_game(GameType::TicTacToe, GameMode::PvP);
    assert_eq!(st.cell_clicked(0).status, Some(Status::PlayerTurn(Player::O)));
    assert_eq!(st.cell_clicked(3).status, Some(Status::PlayerTurn(Player::X)));
    // an occupied cell changes nothing
    let out = st.cell_clicked(3);
    assert!(matches!(out.action, Action::Ignore));
    assert_eq!(st.current_turn, Player::X);
    assert_eq!(st.cell_clicked(1).status, Some(Status::PlayerTurn(Player::O)));
    assert_eq!(st.cell_clicked(4).status, Some(Status::PlayerTurn(Player::X)));
    let out = st.cell_clicked(2);
    assert_eq!(out.status, Some(Status::PlayerWins(Player::X)));
    assert!(st.game_over);
    assert_eq!(st.last_move, Some(2));
    // the game is over: nothing more happens
    let out = st.cell_clicked(8);
    assert!(matches!(out.action, Action::Ignore));
    assert!(st.ttt_board[8].is_none());
}

#[test]
fn ttt_two_players_draw() {
    let mut st = AppState::new();
    st.start_game(GameType::TicTacToe, GameMode::PvP);
    for &i in &[0, 1, 2, 4, 3, 5, 7, 6] {
        st.cell_clicked(i);
    }
    let out = st.cell_clicked(8);
    assert_eq!(out.status, Some(Status::ItsADraw));
    assert!(st.game_over);
}

#[test]
fn ttt_against_the_computer() {
    let mut st = AppState::new();
    st.start_game(GameType::TicTacToe, GameMode::PvE);
    let out = st.cell_clicked(0);
    assert_eq!(out.status, Some(Status::Thinking));
    assert!(st.ai_thinking);
    let mut board = match out.action {
        Action::SearchTicTacToe(b) => b,
        _ => panic!("expected a search"),
    };
    assert_eq!(board, st.ttt_board);
    // clicks wait for the computer
    assert!(matches!(st.cell_clicked(5).action, Action::Ignore));
    let best = get_best_ttt_move(&mut board);
    assert_eq!(best, Some(4));
    let out = st.finish_ttt_turn(best);
    assert_eq!(out.status, Some(Status::YourTurnX));
    assert!(!st.ai_thinking);
    assert_eq!(st.ttt_board[4], Some(Player::O));
    assert_eq!(st.last_move, Some(4));
    // a late answer is ignored
    assert!(matches!(st.finish_ttt_turn(Some(8)).action, Action::Ignore));
    assert!(st.ttt_board[8].is_none());
}

#[test]
fn ttt_computer_wins() {
    let mut st = AppState::new();
    st.start_game(GameType::TicTacToe, GameMode::PvE);
    st.ttt_board[0] = Some(Player::O);
    st.ttt_board[1] = Some(Player::O);
    st.ttt_board[3] = Some(Player::X);
    st.cell_clicked(7);
    let out = st.finish_ttt_turn(Some(2));
    assert_eq!(out.status, Some(Status::ComputerWins));
    assert!(st.game_over);
}

#[test]
fn gomoku_two_players_five() {
    let mut st = AppState::new();
    st.start_game(GameType::Gomoku, GameMode::PvP);
    for x in 0..4 {
        st.cell_clicked(7 * 15 + x);
        st.cell_clicked(8 * 15 + x);
    }
    let out = st.cell_clicked(7 * 15 + 4);
    assert_eq!(out.status, Some(Status::PlayerWins(Player::X)));
    assert!(st.game_over);
}

#[test]
fn gomoku_against_the_computer() {
    let mut st = AppState::new();
    st.start_game(GameType::Gomoku, GameMode::PvE);
    let out = st.cell_clicked(112);
    assert_eq!(out.status, Some(Status::Thinking));
    let board = match out.action {
        Action::SearchGomoku(b) => b,
        _ => panic!("expected a search"),
    };
    let best = get_best_gomoku_move(&board);
    let m = best.unwrap();
    let out = st.finish_gomoku_turn(best);
    assert_eq!(out.status, Some(Status::YourTurnX));
    assert_eq!(st.gomoku_board[m], Some(Player::O));
    assert_eq!(st.gomoku_board[112], Some(Player::X));
}

#[test]
fn chess_selection_shows_destinations() {
    let mut st = AppState::new();
    st.start_game(GameType::Chess, GameMode::PvP);
    st.cell_clicked(52);
    assert_eq!(st.selected_cell, Some(52));
    assert_eq!(st.valid_moves, vec![44, 36]);
    st.cell_clicked(62);
    assert_eq!(st.selected_cell, Some(62));
    assert_eq!(st.valid_moves, vec![45, 47]);
    // an opponent's piece clears the selection
    st.cell_clicked(12);
    assert_eq!(st.selected_cell, None);
    assert!(st.valid_moves.is_empty());
    // an empty square clears it too
    st.cell_clicked(52);
    st.cell_clicked(30);
    assert_eq!(st.selected_cell, None);
}

#[test]
fn chess_two_players_fools_mate() {
    let mut st = AppState::new();
    st.start_game(GameType::Chess, GameMode::PvP);
    st.cell_clicked(53);
    let out = st.cell_clicked(45);
    assert_eq!(out.status, Some(Status::ChessTurn(Color::Black)));
    assert_eq!(st.chess_turn, Color::Black);
    assert_eq!((st.last_move_from, st.last_move_to), (Some(53), Some(45)));
    st.cell_clicked(12);
    assert_eq!(st.cell_clicked(28).status, Some(Status::ChessTurn(Color::White)));
    st.cell_clicked(54);
    assert_eq!(st.cell_clicked(38).status, Some(Status::ChessTurn(Color::Black)));
    st.cell_clicked(3);
    let out = st.cell_clicked(39);
    assert_eq!(out.status, Some(Status::ChessWins(Color::Black)));
    assert!(st.game_over);
}

#[test]
fn chess_check_is_announced() {
    let mut st = AppState::new();
    st.start_game(GameType::Chess, GameMode::PvP);
    for &(from, to) in &[(52, 36), (13, 21)] {
        st.cell_clicked(from);
        st.cell_clicked(to);
    }
    st.cell_clicked(59);
    let out = st.cell_clicked(31);
    assert_eq!(out.status, Some(Status::ChessCheck(Color::Black)));
    assert!(!st.game_over);
    // the pawn on e7 cannot help: it has no destination
    st.cell_clicked(12);
    assert_eq!(st.selected_cell, Some(12));
    assert!(st.valid_moves.is_empty());
    // g7-g6 blocks the check
    st.cell_clicked(14);
    assert_eq!(st.valid_moves, vec![22]);
    let out = st.cell_clicked(22);
    assert_eq!(out.status, Some(Status::ChessTurn(Color::White)));
}

#[test]
fn chess_against_the_computer() {
    let mut st = AppState::new();
    st.start_game(GameType::Chess, GameMode::PvE);
    st.cell_clicked(52);
    let out = st.cell_clicked(36);
    assert_eq!(out.status, Some(Status::Thinking));
    assert!(st.ai_thinking);
    assert_eq!(st.chess_turn, Color::Black);
    let search = match out.action {
        Action::SearchChess(s) => s,
        _ => panic!("expected a search"),
    };
    let best = search.best_move();
    let mv = best.expect("a reply");
    let out = st.finish_chess_turn(best);
    assert_eq!(out.status, Some(Status::YourTurnWhite));
    assert_eq!(st.chess_turn, Color::White);
    assert!(!st.ai_thinking);
    assert_eq!((st.last_move_from, st.last_move_to), (Some(mv.from), Some(mv.to)));
    assert!(st.chess_board[mv.to].is_some());
}

#[test]
fn chess_computer_pieces_cannot_be_selected() {
    let mut st = AppState::new();
    st.start_game(GameType::Chess, GameMode::PvE);
    st.cell_clicked(12);
    assert_eq!(st.selected_cell, None);
}

#[test]
fn xiangqi_two_players_moves() {
    let mut st = AppState::new();
    st.start_game(GameType::Xiangqi, GameMode::PvP);
    st.cell_clicked(64);
    assert_eq!(st.xiangqi_selected, Some(64));
    assert!(st.xiangqi_valid_moves.contains(&67));
    let out = st.cell_clicked(67);
    assert_eq!(out.status, Some(Status::XiangqiTurn(XiangqiColor::Black)));
    assert_eq!(st.xiangqi_turn, XiangqiColor::Black);
    assert_eq!((st.xiangqi_last_from, st.xiangqi_last_to), (Some(64), Some(67)));
    assert!(st.xiangqi_board[64].is_none());
}

#[test]
fn xiangqi_against_the_computer_starts_a_search() {
    let mut st = AppState::new();
    st.start_game(GameType::Xiangqi, GameMode::PvE);
    st.cell_clicked(64);
    let out = st.cell_clicked(67);
    assert_eq!(out.status, Some(Status::Thinking));
    assert!(matches!(out.action, Action::SearchXiangqi(_)));
    assert!(st.ai_thinking);
    // an answer that is not a legal move is dropped
    let out = st.finish_xiangqi_turn(Some(boardgames::xiangqi::moves::XiangqiMove { from: 40, to: 41 }));
    assert!(out.status.is_none());
    assert!(!st.ai_thinking);
    assert_eq!(st.xiangqi_turn, XiangqiColor::Black);
}

#[test]
fn clicks_must_fit_the_board() {
    let mut st = AppState::new();
    assert!(st.accepts_click(1000));
    st.start_game(GameType::TicTacToe, GameMode::PvP);
    assert!(st.accepts_click(8));
    assert!(!st.accepts_click(9));
    st.start_game(GameType::Chess, GameMode::PvP);
    assert!(st.accepts_click(63));
    assert!(!st.accepts_click(64));
    st.start_game(GameType::Xiangqi, GameMode::PvE);
    assert!(st.accepts_click(89));
    assert!(!st.accepts_click(90));
    st.start_game(GameType::Gomoku, GameMode::PvE);
    assert!(st.accepts_click(224));
    assert!(!st.accepts_click(225));
}
