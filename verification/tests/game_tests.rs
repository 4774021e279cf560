//! Game-level behaviour: the turn-taking wrapper, its command parsing,
//! its move log, and the game-over report.

use maltebl_chess::chess_game::init_standard_chess;
use maltebl_chess::piece_logic::Color;

#[test]
fn test_chessgame() {
    let mut chess = init_standard_chess();
    chess.move_piece("f2 f3".to_string()).unwrap();
    chess.move_piece("e7 e5".to_string()).unwrap();
    chess.move_piece("g2 g4".to_string()).unwrap();
    assert_eq!(
        true,
        chess
            .move_piece("d8 h4".to_string())
            .unwrap()
            .contains("checkmate")
    );
    let _ = chess.print_board();
}

#[test]
fn pick_piece() {
    let chess = init_standard_chess();
    assert_eq!(
        vec!["f3", "f4"],
        chess.pick_piece("f2".to_string()).unwrap()
    )
}

#[test]
fn turn_alternation() {
    let mut chess = init_standard_chess();
    assert_eq!(chess.current_player(), Color::White);
    chess.move_piece("e2 e4".to_string()).unwrap();
    assert_eq!(chess.current_player(), Color::Black);
    // a rejected move must not hand the turn over
    assert!(chess.move_piece("e4 e5".to_string()).is_err());
    assert_eq!(chess.current_player(), Color::Black);
    assert!(chess.move_piece("h7 h77".to_string()).is_err());
    assert_eq!(chess.current_player(), Color::Black);
    chess.move_piece("e7 e5".to_string()).unwrap();
    assert_eq!(chess.current_player(), Color::White);
}

#[test]
fn move_records() {
    let mut chess = init_standard_chess();
    // a double-step is logged as the two squares alone
    assert_eq!(chess.move_piece("e2 e4".to_string()).unwrap(), "e2 e4");
    // a single pawn step carries the piece letter
    assert_eq!(chess.move_piece("e7 e6".to_string()).unwrap(), "Pe7 e6");
    // a knight move carries its letter
    assert_eq!(chess.move_piece("g1 f3".to_string()).unwrap(), "Ng1 f3");
}

#[test]
fn rejection_reasons() {
    let mut chess = init_standard_chess();
    assert_eq!(
        chess.move_piece("e2e4".to_string()).unwrap_err(),
        "Error: enter move as e.g:a4 a3"
    );
    assert_eq!(
        chess.move_piece("e3 e4".to_string()).unwrap_err(),
        "There is no piece there!"
    );
    assert_eq!(
        chess.move_piece("e7 e5".to_string()).unwrap_err(),
        "That is not your piece!"
    );
    assert_eq!(
        chess.move_piece("e2 e5".to_string()).unwrap_err(),
        "Tried to do illegal move!"
    );
    assert_eq!(
        chess.pick_piece("e9".to_string()).unwrap_err(),
        "invalid notation, cannot find coords on board"
    );
    assert_eq!(
        chess.pick_piece("e7".to_string()).unwrap_err(),
        "That's not your piece!"
    );
}

#[test]
fn check_is_announced() {
    let mut chess = init_standard_chess();
    chess.move_piece("e2 e4".to_string()).unwrap();
    chess.move_piece("f7 f6".to_string()).unwrap();
    // the queen checks the exposed king; the record says so
    let record = chess.move_piece("d1 h5".to_string()).unwrap();
    assert_eq!(record, "Qd1 h5 Check!");
}

#[test]
fn promotion_flow() {
    let mut chess = init_standard_chess();
    // march the a-pawn through to the back rank
    chess.move_piece("a2 a4".to_string()).unwrap();
    chess.move_piece("h7 h6".to_string()).unwrap();
    chess.move_piece("a4 a5".to_string()).unwrap();
    chess.move_piece("h6 h5".to_string()).unwrap();
    chess.move_piece("a5 a6".to_string()).unwrap();
    chess.move_piece("h5 h4".to_string()).unwrap();
    chess.move_piece("a6 b7".to_string()).unwrap();
    chess.move_piece("h4 h3".to_string()).unwrap();
    let record = chess.move_piece("b7 a8".to_string()).unwrap();
    assert_eq!(record, "b7 a8 Promotion");
    assert!(chess.promotion("a8Q".to_string()).is_ok());
    // wrong shapes and wrong squares are rejected
    assert_eq!(
        chess.promotion("a8".to_string()).unwrap_err(),
        "Must provide promotion input as e.g:a8Q"
    );
    assert_eq!(
        chess.promotion("a8K".to_string()).unwrap_err(),
        "Must provide promotion input as e.g:a8Q"
    );
    assert_eq!(
        chess.promotion("a1Q".to_string()).unwrap_err(),
        "Tried to promote unit at wrong place or of wrong type"
    );
    assert_eq!(
        chess.promotion("d4Q".to_string()).unwrap_err(),
        "Tried to promote an empty space!"
    );
}

#[test]
fn board_snapshot() {
    let chess = init_standard_chess();
    let board = chess.get_board();
    assert_eq!(board.len(), 64);
    // a1 holds a piece, e4 is empty
    assert!(board[0].is_some());
    assert!(board[4 + 8 * 3].is_none());
    let text = chess.print_board();
    assert!(text.contains('\u{265A}'));
    assert!(text.contains("------------------------"));
}
