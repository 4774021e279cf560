//! The wire encoding: the protocol's own examples, and round trips for
//! every message kind.

use maltebl_chess::connection_lib::{Message, Move, MoveType, PieceType, Position};

#[test]
fn test() {
    // from the protocol
    let msg = Message::Move(Move::Standard {
        origin: Position::new(0, 1),
        target: Position::new(0, 2),
    });
    let res = [0x01, 0x00, 0x08, 0x10];
    assert_eq!(msg.code(), res);
    assert_eq!(Message::from_code(&res).code(), res);

    let msg = Message::Move(Move::Promotion {
        origin: Position::new(1, 6),
        target: Position::new(1, 7),
        kind: PieceType::Queen,
    });
    let res = [0x01, 0x02, 0x31, 0x39, 0x03];
    assert_eq!(msg.code(), res);
    assert_eq!(Message::from_code(&res).code(), res);

    let msg = Message::Decline;
    let res = [0x00];
    assert_eq!(msg.code(), res);
    assert_eq!(Message::from_code(&res).code(), res);
}

#[test]
fn position_codes() {
    // every board coordinate survives the six-bit packing
    for x in 0..8u8 {
        for y in 0..8u8 {
            let p = Position::new(x, y);
            let back = Position::from_code(p.code());
            assert_eq!((back.x, back.y), (x, y));
        }
    }
    assert_eq!(Position::new(7, 7).code(), 0x3F);
    assert_eq!(Position::new(0, 0).code(), 0x00);
}

#[test]
fn message_kinds_round_trip() {
    let cases: Vec<Message> = vec![
        Message::Decline,
        Message::Undo,
        Message::Accept,
        Message::Checkmate,
        Message::Draw,
        Message::Resign,
        Message::Move(Move::CastleKingside),
        Message::Move(Move::CastleQueenside),
        Message::Move(Move::EnPassant {
            origin: Position::new(4, 4),
            target: Position::new(3, 5),
        }),
    ];
    for msg in cases {
        let code = msg.code();
        assert_eq!(Message::from_code(&code).code(), code);
    }
}

#[test]
fn move_type_codes() {
    assert_eq!(MoveType::Standard.code(), 0x00);
    assert_eq!(MoveType::EnPassant.code(), 0x01);
    assert_eq!(MoveType::Promotion.code(), 0x02);
    assert_eq!(MoveType::CastleKingside.code(), 0x03);
    assert_eq!(MoveType::CastleQueenside.code(), 0x04);
    for c in 0..=0x04u8 {
        assert_eq!(MoveType::from_code(c).code(), c);
    }
    for c in 0..=0x03u8 {
        assert_eq!(PieceType::from_code(c).code(), c);
    }
    let mv = Move::Standard {
        origin: Position::new(2, 3),
        target: Position::new(4, 5),
    };
    assert_eq!(mv.get_type().code(), 0x00);
}
