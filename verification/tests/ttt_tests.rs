use boardgames::state::Player;
use boardgames::ttt::{check_ttt_win, get_best_ttt_move};

fn board_from(cells: &str) -> [Option<Player>; 9] {
    let mut b = [None; 9];
    for (i, ch) in cells.chars().enumerate() {
        b[i] = match ch {
            'X' => Some(Player::X),
            'O' => Some(Player::O),
            _ => None,
        };
    }
    b
}

#[test]
fn ttt_rows_columns_and_diagonals_win() {
    assert!(check_ttt_win(&board_from("XXX......"), Player::X));
    assert!(check_ttt_win(&board_from("...XXX..."), Player::X));
    assert!(check_ttt_win(&board_from("......OOO"), Player::O));
    assert!(check_ttt_win(&board_from("X..X..X.."), Player::X));
    assert!(check_ttt_win(&board_from(".O..O..O."), Player::O));
    assert!(check_ttt_win(&board_from("..X..X..X"), Player::X));
    assert!(check_ttt_win(&board_from("X...X...X"), Player::X));
    assert!(check_ttt_win(&board_from("..O.O.O.."), Player::O));
}

#[test]
fn ttt_no_win_without_a_line() {
    assert!(!check_ttt_win(&board_from("........."), Player::X));
    assert!(!check_ttt_win(&board_from("XXO......"), Player::X));
    assert!(!check_ttt_win(&board_from("XXX......"), Player::O));
    assert!(!check_ttt_win(&board_from("XOXXOOOXX"), Player::X));
    assert!(!check_ttt_win(&board_from("XOXXOOOXX"), Player::O));
}

#[test]
fn ttt_computer_takes_a_win() {
    let mut b = board_from("OO.XX....");
    assert_eq!(get_best_ttt_move(&mut b), Some(2));
    assert_eq!(b, board_from("OO.XX...."));
}

#[test]
fn ttt_computer_blocks() {
    let mut b = board_from("XX..O....");
    assert_eq!(get_best_ttt_move(&mut b), Some(2));
}

#[test]
fn ttt_computer_answers_on_an_empty_cell() {
    let mut b = board_from("X........");
    let m = get_best_ttt_move(&mut b).unwrap();
    assert!(m < 9);
    assert!(b[m].is_none());
    assert_eq!(m, 4);
}

#[test]
fn ttt_first_cell_on_an_empty_board() {
    let mut b = board_from(".........");
    assert_eq!(get_best_ttt_move(&mut b), Some(0));
}

#[test]
fn ttt_full_board_has_no_move() {
    let mut b = board_from("XOXXOOOXX");
    assert_eq!(get_best_ttt_move(&mut b), None);
}

#[test]
fn ttt_last_empty_cell_is_taken() {
    let mut b = board_from("XOXXOOOX.");
    assert_eq!(get_best_ttt_move(&mut b), Some(8));
}
