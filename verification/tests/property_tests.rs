//! Concrete checks of the library's stated properties: no move onto an
//! own piece, no move into self-check, the coordinate codec round
//! trip, castling availability, the one-ply en-passant window, and the
//! checkmate guard.

use maltebl_chess::board_logic::{init_board, ChessBoard, SpecialMove};
use maltebl_chess::chess_game::init_standard_chess;
use maltebl_chess::piece_logic::{piece_make, Color, PieceType};
use maltebl_chess::{to_coords, to_notation};

#[test]
fn no_move_onto_own_piece() {
    let mut board: ChessBoard = init_board();
    board.standard_pieces(Color::White);
    board.standard_pieces(Color::Black);
    for y in 0..8usize {
        for x in 0..8usize {
            let mover = match board.get_piece((x, y)) {
                Some(p) => p.color,
                None => continue,
            };
            for (dest, _) in board.get_moves((x, y)) {
                if let Some(occupant) = board.get_piece(dest) {
                    assert!(occupant.color != mover);
                }
            }
        }
    }
}

#[test]
fn accepted_moves_never_leave_mover_checked() {
    let mut chess = init_standard_chess();
    let script = ["e2 e4", "e7 e5", "g1 f3", "b8 c6", "f1 b5", "g8 f6", "e1 g1"];
    for command in script {
        let mover = chess.current_player();
        chess.move_piece(command.to_string()).unwrap();
        assert!(!chess.get_board().is_empty());
        // rebuild the board view through a raw board to query check
        let mut probe: ChessBoard = init_board();
        let snapshot = chess.get_board();
        for y in 0..8usize {
            for x in 0..8usize {
                if let Some(p) = snapshot[x + 8 * y] {
                    probe.add_piece(piece_make(p.color, p.piece_type), (x, y));
                }
            }
        }
        assert!(!probe.is_checked(mover));
    }
}

#[test]
fn codec_round_trip() {
    for x in 0..8usize {
        for y in 0..8usize {
            let text = to_notation((x, y)).unwrap();
            assert_eq!(to_coords(text.clone()).unwrap(), (x, y));
            assert_eq!(to_notation(to_coords(text.clone()).unwrap()).unwrap(), text);
        }
    }
    assert!(to_coords("i1".to_string()).is_err());
    assert!(to_coords("a9".to_string()).is_err());
    assert!(to_coords("A1".to_string()).is_err());
    assert!(to_coords("a10".to_string()).is_err());
    assert!(to_notation((8, 0)).is_err());
    assert!(to_notation((0, 8)).is_err());
}

#[test]
fn castling_availability() {
    // king with both rooks, nothing between: exactly two special moves
    let mut board: ChessBoard = init_board();
    board.add_piece(piece_make(Color::White, PieceType::King), (4, 0));
    board.add_piece(piece_make(Color::White, PieceType::Rook), (0, 0));
    board.add_piece(piece_make(Color::White, PieceType::Rook), (7, 0));
    assert_eq!(board.special_moves((4, 0)).len(), 2);

    // moving a rook away and back loses that side's castling
    board.force_move((7, 0), (7, 4)).expect("force_move panic");
    board.force_move((7, 4), (7, 0)).expect("force_move panic");
    assert_eq!(board.special_moves((4, 0)).len(), 1);

    // interposing a piece removes the other option
    board.add_piece(piece_make(Color::White, PieceType::Bishop), (2, 0));
    assert_eq!(board.special_moves((4, 0)).len(), 0);

    // a king that has moved and returned may not castle at all
    let mut board2: ChessBoard = init_board();
    board2.add_piece(piece_make(Color::White, PieceType::King), (4, 0));
    board2.add_piece(piece_make(Color::White, PieceType::Rook), (0, 0));
    board2.add_piece(piece_make(Color::White, PieceType::Rook), (7, 0));
    board2.force_move((4, 0), (4, 1)).expect("force_move panic");
    board2.force_move((4, 1), (4, 0)).expect("force_move panic");
    assert_eq!(board2.special_moves((4, 0)).len(), 0);
}

#[test]
fn castling_through_check_is_barred() {
    let mut board: ChessBoard = init_board();
    board.add_piece(piece_make(Color::White, PieceType::King), (4, 0));
    board.add_piece(piece_make(Color::White, PieceType::Rook), (7, 0));
    assert_eq!(board.special_moves((4, 0)).len(), 1);
    // an enemy rook eyeing f1 bars the transit square
    board.add_piece(piece_make(Color::Black, PieceType::Rook), (5, 5));
    assert_eq!(board.special_moves((4, 0)).len(), 0);
    // an enemy rook eyeing the king itself bars castling too
    let mut board2: ChessBoard = init_board();
    board2.add_piece(piece_make(Color::White, PieceType::King), (4, 0));
    board2.add_piece(piece_make(Color::White, PieceType::Rook), (7, 0));
    board2.add_piece(piece_make(Color::Black, PieceType::Rook), (4, 5));
    assert_eq!(board2.special_moves((4, 0)).len(), 0);
}

#[test]
fn castling_applies_rook_move() {
    let mut chess = init_standard_chess();
    for command in ["g1 f3", "g8 f6", "g2 g3", "g7 g6", "f1 g2", "f8 g7"] {
        chess.move_piece(command.to_string()).unwrap();
    }
    let record = chess.move_piece("e1 g1".to_string()).unwrap();
    assert_eq!(record, "O-O");
    let board = chess.get_board();
    // king on g1, rook on f1, e1 and h1 empty
    assert!(board[4].is_none());
    assert!(board[7].is_none());
    assert_eq!(board[6].as_ref().unwrap().piece_type, PieceType::King);
    assert_eq!(board[5].as_ref().unwrap().piece_type, PieceType::Rook);
}

#[test]
fn en_passant_window() {
    // after a double-step the adjacent enemy pawn may capture onto the
    // skipped square, exactly once
    let mut chess = init_standard_chess();
    chess.move_piece("e2 e4".to_string()).unwrap();
    chess.move_piece("a7 a6".to_string()).unwrap();
    chess.move_piece("e4 e5".to_string()).unwrap();
    chess.move_piece("d7 d5".to_string()).unwrap();
    let dests = chess.pick_piece("e5".to_string()).unwrap();
    assert!(dests.contains(&"d6".to_string()));
    chess.move_piece("e5 d6".to_string()).unwrap();
    // the captured pawn is gone from d5
    let board = chess.get_board();
    assert!(board[3 + 8 * 4].is_none());
    assert_eq!(board[3 + 8 * 5].as_ref().unwrap().piece_type, PieceType::Pawn);
}

#[test]
fn en_passant_expires() {
    let mut chess = init_standard_chess();
    chess.move_piece("e2 e4".to_string()).unwrap();
    chess.move_piece("a7 a6".to_string()).unwrap();
    chess.move_piece("e4 e5".to_string()).unwrap();
    chess.move_piece("d7 d5".to_string()).unwrap();
    // an intervening pair of moves closes the window
    chess.move_piece("h2 h3".to_string()).unwrap();
    chess.move_piece("a6 a5".to_string()).unwrap();
    let dests = chess.pick_piece("e5".to_string()).unwrap();
    assert!(!dests.contains(&"d6".to_string()));
    assert!(chess.move_piece("e5 d6".to_string()).is_err());
}

#[test]
fn double_step_blocked_by_piece() {
    // the double-step needs both squares ahead empty
    let mut board: ChessBoard = init_board();
    board.add_piece(piece_make(Color::White, PieceType::Pawn), (3, 1));
    board.add_piece(piece_make(Color::Black, PieceType::Knight), (3, 2));
    assert_eq!(board.special_moves((3, 1)).len(), 0);
    assert_eq!(board.get_moves((3, 1)).len(), 0);
}

#[test]
fn checkmate_guard() {
    // a checked king with an escape square is not mated
    let mut board: ChessBoard = init_board();
    board.add_piece(piece_make(Color::White, PieceType::King), (7, 7));
    board.add_piece(piece_make(Color::Black, PieceType::Rook), (7, 6));
    assert!(board.is_checked(Color::White));
    assert_eq!(board.is_checkmate(Color::White), false);
    let moves = board.get_moves((7, 7));
    assert!(moves
        .iter()
        .any(|(dest, kind)| *dest == (6, 7) && matches!(kind, None::<SpecialMove>)));
}

#[test]
fn threat_probe() {
    let mut board: ChessBoard = init_board();
    board.add_piece(piece_make(Color::White, PieceType::King), (3, 0));
    board.add_piece(piece_make(Color::Black, PieceType::Rook), (3, 5));
    // the vertical probe finds the rook; the knight-shaped one does not
    assert!(board.is_threatened_by((3, 0), Color::White, (0, 1), true));
    assert!(!board.is_threatened_by((3, 0), Color::White, (1, 2), false));
}
