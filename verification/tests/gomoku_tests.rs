use boardgames::gomoku::{check_gomoku_win, get_best_gomoku_move};
use boardgames::state::Player;

fn place(b: &mut [Option<Player>; 225], cells: &[(usize, usize)], p: Player) {
    for &(y, x) in cells {
        b[y * 15 + x] = Some(p);
    }
}

#[test]
fn gomoku_five_in_a_row_wins() {
    let mut b = [None; 225];
    place(&mut b, &[(7, 3), (7, 4), (7, 5), (7, 6), (7, 7)], Player::X);
    assert!(check_gomoku_win(&b, Player::X));
    assert!(!check_gomoku_win(&b, Player::O));
}

#[test]
fn gomoku_five_in_a_column_wins() {
    let mut b = [None; 225];
    place(&mut b, &[(10, 14), (11, 14), (12, 14), (13, 14), (14, 14)], Player::O);
    assert!(check_gomoku_win(&b, Player::O));
}

#[test]
fn gomoku_five_on_a_diagonal_wins() {
    let mut b = [None; 225];
    place(&mut b, &[(0, 0), (1, 1), (2, 2), (3, 3), (4, 4)], Player::X);
    assert!(check_gomoku_win(&b, Player::X));
    let mut c = [None; 225];
    place(&mut c, &[(0, 14), (1, 13), (2, 12), (3, 11), (4, 10)], Player::X);
    assert!(check_gomoku_win(&c, Player::X));
}

#[test]
fn gomoku_four_do_not_win() {
    let mut b = [None; 225];
    place(&mut b, &[(7, 3), (7, 4), (7, 5), (7, 6)], Player::X);
    assert!(!check_gomoku_win(&b, Player::X));
}

#[test]
fn gomoku_rows_do_not_wrap() {
    let mut b = [None; 225];
    place(&mut b, &[(0, 12), (0, 13), (0, 14), (1, 0), (1, 1)], Player::X);
    assert!(!check_gomoku_win(&b, Player::X));
}

#[test]
fn gomoku_empty_board_answer_is_the_centre() {
    let b = [None; 225];
    assert_eq!(get_best_gomoku_move(&b), Some(112));
}

#[test]
fn gomoku_computer_completes_five() {
    let mut b = [None; 225];
    place(&mut b, &[(0, 0), (0, 1), (0, 2), (0, 3)], Player::O);
    assert_eq!(get_best_gomoku_move(&b), Some(4));
}

#[test]
fn gomoku_computer_blocks_four() {
    let mut b = [None; 225];
    place(&mut b, &[(0, 0), (0, 1), (0, 2), (0, 3)], Player::X);
    assert_eq!(get_best_gomoku_move(&b), Some(4));
}

#[test]
fn gomoku_answer_is_next_to_a_stone() {
    let mut b = [None; 225];
    place(&mut b, &[(7, 7)], Player::X);
    let m = get_best_gomoku_move(&b).unwrap();
    assert!(b[m].is_none());
    let (y, x) = (m / 15, m % 15);
    assert!(y >= 5 && y <= 9 && x >= 5 && x <= 9);
}

fn crowded_board() -> [Option<Player>; 225] {
    let mut b = [None; 225];
    for y in 0..15 {
        for x in 0..15 {
            b[y * 15 + x] = Some(if (x / 2 + y) % 2 == 0 { Player::X } else { Player::O });
        }
    }
    b
}

#[test]
fn gomoku_full_board_has_no_answer() {
    let b = crowded_board();
    assert!(!check_gomoku_win(&b, Player::X));
    assert!(!check_gomoku_win(&b, Player::O));
    assert_eq!(get_best_gomoku_move(&b), None);
}

#[test]
fn gomoku_last_free_cell_is_the_answer() {
    let mut b = crowded_board();
    b[200] = None;
    assert_eq!(get_best_gomoku_move(&b), Some(200));
}
