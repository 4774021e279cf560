//! Exercises carried over from early revisions of the engine: raw
//! relocation on sparse boards and move listing, kept as smoke tests.

use maltebl_chess::board_logic::{init_board, ChessBoard};
use maltebl_chess::{to_coords, to_notation};

#[test]
fn integration_tests_it_translates() {
    assert_eq!(to_coords("a4".to_string()).unwrap(), (0, 3));
    assert_eq!(to_notation((0, 3)).unwrap(), "a4");
}

#[test]
fn integration_tests_pawn_moves() {
    let mut board: ChessBoard = init_board();
    let _ = board.force_move((3, 1), (3, 3));
    let _ = board.force_move((4, 6), (4, 4));
    println!("{:?}", board.get_moves((3, 3)));
}

#[test]
fn integration_tests_continous_moves() {
    let mut board: ChessBoard = init_board();
    let _ = board.force_move((3, 1), (3, 3));
    println!("{:?}", board.get_moves((2, 0)));
}
