use fifteen::board::swap;
use fifteen::board::validate_board_state;

#[test]
fn it_validates_a_solvable_puzzle() {
    let valid = &[6, 1, 10, 2, 7, 11, 4, 14, 5, 0, 9, 15, 8, 12, 13, 3];
    assert!(validate_board_state(valid));
}

#[test]
fn it_validates_a_solved_puzzle() {
    let valid = &[1, 2, 3, 4, 5, 6, 7, 8, 9, 10, 11, 12, 13, 14, 15, 0];
    assert!(validate_board_state(valid));
}

#[test]
fn it_rejects_canonical_unsolvable() {
    let invalid = &[1, 2, 3, 4, 5, 6, 7, 8, 9, 10, 11, 12, 13, 15, 14, 0];
    assert!(!validate_board_state(invalid));
}

#[test]
fn it_invalidates_other_unsolvable_states() {
    let invalid = &[15, 9, 13, 8, 7, 14, 12, 3, 11, 1, 5, 10, 4, 2, 0, 6];
    assert!(!validate_board_state(invalid));
}

#[test]
fn it_validates_other_solvable_states() {
    let valid = &[12, 1, 10, 2, 7, 11, 4, 14, 5, 0, 9, 15, 8, 13, 6, 3];
    assert!(validate_board_state(valid));
}

#[test]
fn it_allows_valid_move_left() {
    let mut board = vec![12, 1, 10, 2, 7, 11, 4, 14, 5, 0, 9, 15, 8, 13, 6, 3];
    let swapped_board = &[12, 1, 10, 2, 7, 11, 4, 14, 5, 9, 0, 15, 8, 13, 6, 3];
    swap(&mut board, (2, 2), (1, 2));
    assert_eq!(board, swapped_board)
}

#[test]
fn it_allows_valid_move_right() {
    let mut board = vec![12, 1, 10, 2, 7, 11, 4, 14, 5, 0, 9, 15, 8, 13, 6, 3];
    let swapped_board = &[12, 1, 10, 2, 7, 11, 4, 14, 0, 5, 9, 15, 8, 13, 6, 3];
    swap(&mut board, (0, 2), (1, 2));
    assert_eq!(board, swapped_board)
}

#[test]
fn it_allows_valid_move_down() {
    let mut board = vec![12, 1, 10, 2, 7, 11, 4, 14, 5, 0, 9, 15, 8, 13, 6, 3];
    let swapped_board = &[12, 1, 10, 2, 7, 0, 4, 14, 5, 11, 9, 15, 8, 13, 6, 3];
    swap(&mut board, (1, 1), (1, 2));
    assert_eq!(board, swapped_board)
}

#[test]
fn it_allows_valid_move_up() {
    let mut board = vec![12, 1, 10, 2, 7, 0, 4, 14, 5, 11, 9, 15, 8, 13, 6, 3];
    let swapped_board = &[12, 1, 10, 2, 7, 11, 4, 14, 5, 0, 9, 15, 8, 13, 6, 3];
    swap(&mut board, (1, 2), (1, 1));
    assert_eq!(board, swapped_board)
}

#[test]
fn it_disallows_invalid_move() {
    let mut board = vec![12, 1, 10, 2, 7, 0, 4, 14, 5, 11, 9, 15, 8, 13, 6, 3];
    let board_copy = vec![12, 1, 10, 2, 7, 0, 4, 14, 5, 11, 9, 15, 8, 13, 6, 3];
    let swapped_board = &[0, 1, 10, 2, 7, 12, 4, 14, 5, 11, 9, 15, 8, 13, 6, 3];
    swap(&mut board, (0, 0), (1, 1));
    assert_ne!(board, swapped_board);
    assert_eq!(board, board_copy)
}
