//! A compact wire encoding for the messages two chess clients exchange:
//! moves with their special kinds, and the surrounding protocol words
//! (decline, undo, accept, checkmate, draw, resign). The host is the
//! white player and sends the first move message; every message is
//! declinable with a decline message. Each message is kept to its
//! minimum size in bytes: one byte of message type, and for moves a
//! move type, packed squares, and a promotion kind as needed.

use vstd::prelude::*;

verus! {

/// The protocol words a message can carry.
pub enum MessageType {
    /// In response to an illegal or unwanted action.
    Decline,
    /// Carries a move, encoded after the type byte.
    Move,
    Undo,
    /// In response to an undo or draw request.
    Accept,
    /// In response to a move that results in a checkmate.
    Checkmate,
    /// In response to a move, to offer or accept a draw.
    Draw,
    /// In response to a move, to resign the match.
    Resign,
}

/// The byte each message type is sent as.
pub open spec fn message_type_code(t: MessageType) -> u8 {
    match t {
        MessageType::Decline => 0x00,
        MessageType::Move => 0x01,
        MessageType::Undo => 0x02,
        MessageType::Accept => 0x03,
        MessageType::Checkmate => 0x04,
        MessageType::Draw => 0x05,
        MessageType::Resign => 0x06,
    }
}

impl MessageType {
    /// The byte this message type is sent as.
    pub fn code(&self) -> (r: u8)
        ensures
            r == message_type_code(*self),
    {
        match self {
            Self::Decline => 0x00,
            Self::Move => 0x01,
            Self::Undo => 0x02,
            Self::Accept => 0x03,
            Self::Checkmate => 0x04,
            Self::Draw => 0x05,
            Self::Resign => 0x06,
        }
    }

    /// Decodes a message type byte; bytes above the highest code are
    /// not a message type and are excluded by contract.
    pub fn from_code(code: u8) -> (r: Self)
        requires
            code <= 0x06,
        ensures
            message_type_code(r) == code,
    {
        match code {
            0x00 => Self::Decline,
            0x01 => Self::Move,
            0x02 => Self::Undo,
            0x03 => Self::Accept,
            0x04 => Self::Checkmate,
            0x05 => Self::Draw,
            _ => Self::Resign,
        }
    }
}

/// A board square in wire form: file and rank, three bits each.
pub struct Position {
    pub x: u8,
    pub y: u8,
}

/// The byte a square is packed into: the file in the low three bits,
/// the rank in the next three.
pub open spec fn position_code(p: Position) -> u8 {
    (p.x & 0b111u8) | ((p.y << 3u8) & 0b111000u8)
}

/// The square a byte unpacks to.
pub open spec fn position_of_code(code: u8) -> Position {
    Position { x: code & 0b111u8, y: (code >> 3u8) & 0b111u8 }
}

impl Position {
    /// A wire square from its coordinates.
    pub fn new(x: u8, y: u8) -> (r: Self)
        ensures
            r == (Position { x, y }),
    {
        Self { x, y }
    }

    /// Packs the square into one byte.
    pub fn code(&self) -> (r: u8)
        ensures
            r == position_code(*self),
    {
        (self.x & 0b111u8) | ((self.y << 3) & (0b111000u8))
    }

    /// Unpacks a square from one byte.
    pub fn from_code(code: u8) -> (r: Self)
        ensures
            r == position_of_code(code),
    {
        Self { x: code & 0b111u8, y: (code >> 3) & (0b111u8) }
    }
}

/// Unpacking a packed square gives the coordinates back whenever they
/// fit in three bits, as every board coordinate does.
pub proof fn lemma_position_round_trip(p: Position)
    requires
        p.x < 8,
        p.y < 8,
    ensures
        position_of_code(position_code(p)) == p,
{
    let x = p.x;
    let y = p.y;
    assert(((x & 0b111u8) | ((y << 3u8) & 0b111000u8)) & 0b111u8 == x && (((x & 0b111u8) | ((y
        << 3u8) & 0b111000u8)) >> 3u8) & 0b111u8 == y) by (bit_vector)
        requires
            x < 8,
            y < 8,
    ;
}

/// Packing an unpacked byte keeps its low six bits, the only bits a
/// square occupies.
pub proof fn lemma_position_code_round_trip(code: u8)
    requires
        code < 64,
    ensures
        position_code(position_of_code(code)) == code,
{
    assert(((code & 0b111u8) & 0b111u8) | ((((code >> 3u8) & 0b111u8) << 3u8) & 0b111000u8)
        == code) by (bit_vector)
        requires
            code < 64,
    ;
}

/// The kinds a pawn can promote to on the wire.
pub enum PieceType {
    Knight,
    Bishop,
    Rook,
    Queen,
}

/// The byte each promotion kind is sent as.
pub open spec fn piece_type_code(t: PieceType) -> u8 {
    match t {
        PieceType::Knight => 0x00,
        PieceType::Bishop => 0x01,
        PieceType::Rook => 0x02,
        PieceType::Queen => 0x03,
    }
}

impl PieceType {
    /// The byte this promotion kind is sent as.
    pub fn code(&self) -> (r: u8)
        ensures
            r == piece_type_code(*self),
    {
        match self {
            Self::Knight => 0x00,
            Self::Bishop => 0x01,
            Self::Rook => 0x02,
            Self::Queen => 0x03,
        }
    }

    /// Decodes a promotion kind byte; higher bytes are not a kind and
    /// are excluded by contract.
    pub fn from_code(code: u8) -> (r: Self)
        requires
            code <= 0x03,
        ensures
            piece_type_code(r) == code,
    {
        match code {
            0x00 => Self::Knight,
            0x01 => Self::Bishop,
            0x02 => Self::Rook,
            _ => Self::Queen,
        }
    }
}

/// The move kinds the wire distinguishes.
pub enum MoveType {
    Standard,
    EnPassant,
    Promotion,
    CastleKingside,
    CastleQueenside,
}

/// The byte each move kind is sent as.
pub open spec fn move_type_code(t: MoveType) -> u8 {
    match t {
        MoveType::Standard => 0x00,
        MoveType::EnPassant => 0x01,
        MoveType::Promotion => 0x02,
        MoveType::CastleKingside => 0x03,
        MoveType::CastleQueenside => 0x04,
    }
}

impl MoveType {
    /// The byte this move kind is sent as.
    pub fn code(&self) -> (r: u8)
        ensures
            r == move_type_code(*self),
    {
        match self {
            Self::Standard => 0x00,
            Self::EnPassant => 0x01,
            Self::Promotion => 0x02,
            Self::CastleKingside => 0x03,
            Self::CastleQueenside => 0x04,
        }
    }

    /// Decodes a move kind byte; higher bytes are not a kind and are
    /// excluded by contract.
    pub fn from_code(code: u8) -> (r: Self)
        requires
            code <= 0x04,
        ensures
            move_type_code(r) == code,
    {
        match code {
            0x00 => Self::Standard,
            0x01 => Self::EnPassant,
            0x02 => Self::Promotion,
            0x03 => Self::CastleKingside,
            _ => Self::CastleQueenside,
        }
    }
}

/// A move in wire form.
pub enum Move {
    Standard { origin: Position, target: Position },
    EnPassant { origin: Position, target: Position },
    Promotion { origin: Position, target: Position, kind: PieceType },
    CastleKingside,
    CastleQueenside,
}

/// The byte sequence a move is sent as: its kind, then its squares,
/// then for promotions the requested piece kind.
pub open spec fn move_code(m: Move) -> Seq<u8> {
    match m {
        Move::Standard { origin, target } => seq![
            0x00u8,
            position_code(origin),
            position_code(target),
        ],
        Move::EnPassant { origin, target } => seq![
            0x01u8,
            position_code(origin),
            position_code(target),
        ],
        Move::Promotion { origin, target, kind } => seq![
            0x02u8,
            position_code(origin),
            position_code(target),
            piece_type_code(kind),
        ],
        Move::CastleKingside => seq![0x03u8],
        Move::CastleQueenside => seq![0x04u8],
    }
}

/// The bytes decode to a move: a known kind byte followed by as many
/// bytes as that kind needs.
pub open spec fn move_code_wf(s: Seq<u8>) -> bool {
    &&& s.len() >= 1
    &&& s[0] <= 0x04
    &&& (s[0] == 0x00 || s[0] == 0x01) ==> s.len() >= 3
    &&& s[0] == 0x02 ==> s.len() >= 4 && s[3] <= 0x03
}

/// The move well-formed bytes decode to.
pub open spec fn move_of_code(s: Seq<u8>) -> Move {
    if s[0] == 0x00 {
        Move::Standard { origin: position_of_code(s[1]), target: position_of_code(s[2]) }
    } else if s[0] == 0x01 {
        Move::EnPassant { origin: position_of_code(s[1]), target: position_of_code(s[2]) }
    } else if s[0] == 0x02 {
        Move::Promotion {
            origin: position_of_code(s[1]),
            target: position_of_code(s[2]),
            kind: piece_type_of_code(s[3]),
        }
    } else if s[0] == 0x03 {
        Move::CastleKingside
    } else {
        Move::CastleQueenside
    }
}

/// The promotion kind a byte decodes to.
pub open spec fn piece_type_of_code(code: u8) -> PieceType {
    if code == 0x00 {
        PieceType::Knight
    } else if code == 0x01 {
        PieceType::Bishop
    } else if code == 0x02 {
        PieceType::Rook
    } else {
        PieceType::Queen
    }
}

impl Move {
    /// The wire kind of this move.
    pub fn get_type(&self) -> (r: MoveType)
        ensures
            move_type_code(r) == move_code(*self)[0],
    {
        match self {
            Move::Standard { origin: _, target: _ } => MoveType::Standard,
            Move::EnPassant { origin: _, target: _ } => MoveType::EnPassant,
            Move::Promotion { origin: _, target: _, kind: _ } => MoveType::Promotion,
            Move::CastleKingside => MoveType::CastleKingside,
            Move::CastleQueenside => MoveType::CastleQueenside,
        }
    }

    /// Encodes the move.
    pub fn code(&self) -> (r: Vec<u8>)
        ensures
            r@ == move_code(*self),
    {
        let mut data: Vec<u8> = Vec::new();
        data.push(self.get_type().code());
        match self {
            Move::Standard { origin, target } => {
                data.push(origin.code());
                data.push(target.code());
            },
            Move::EnPassant { origin, target } => {
                data.push(origin.code());
                data.push(target.code());
            },
            Move::Promotion { origin, target, kind } => {
                data.push(origin.code());
                data.push(target.code());
                data.push(kind.code());
            },
            Move::CastleKingside => (),
            Move::CastleQueenside => (),
        }
        proof {
            assert(data@ =~= move_code(*self));
        }
        data
    }

    /// Decodes a move from well-formed bytes.
    pub fn from_code(code: &[u8]) -> (r: Self)
        requires
            move_code_wf(code@),
        ensures
            r == move_of_code(code@),
    {
        let type_code = code[0];
        let move_type = MoveType::from_code(type_code);
        match move_type {
            MoveType::Standard => Self::Standard {
                origin: Position::from_code(code[1]),
                target: Position::from_code(code[2]),
            },
            MoveType::EnPassant => Self::EnPassant {
                origin: Position::from_code(code[1]),
                target: Position::from_code(code[2]),
            },
            MoveType::Promotion => Self::Promotion {
                origin: Position::from_code(code[1]),
                target: Position::from_code(code[2]),
                kind: PieceType::from_code(code[3]),
            },
            MoveType::CastleKingside => Self::CastleKingside,
            MoveType::CastleQueenside => Self::CastleQueenside,
        }
    }
}

/// A protocol message in wire form.
pub enum Message {
    Decline,
    Move(Move),
    Undo,
    Accept,
    Checkmate,
    Draw,
    Resign,
}

/// The byte sequence a message is sent as: its type byte, followed by
/// the encoded move when it carries one.
pub open spec fn message_code(m: Message) -> Seq<u8> {
    match m {
        Message::Decline => seq![0x00u8],
        Message::Move(mv) => seq![0x01u8] + move_code(mv),
        Message::Undo => seq![0x02u8],
        Message::Accept => seq![0x03u8],
        Message::Checkmate => seq![0x04u8],
        Message::Draw => seq![0x05u8],
        Message::Resign => seq![0x06u8],
    }
}

/// The bytes decode to a message: a known type byte, and for a move
/// message well-formed move bytes after it.
pub open spec fn message_code_wf(s: Seq<u8>) -> bool {
    &&& s.len() >= 1
    &&& s[0] <= 0x06
    &&& s[0] == 0x01 ==> move_code_wf(s.subrange(1, s.len() as int))
}

/// The message well-formed bytes decode to.
pub open spec fn message_of_code(s: Seq<u8>) -> Message {
    if s[0] == 0x00 {
        Message::Decline
    } else if s[0] == 0x01 {
        Message::Move(move_of_code(s.subrange(1, s.len() as int)))
    } else if s[0] == 0x02 {
        Message::Undo
    } else if s[0] == 0x03 {
        Message::Accept
    } else if s[0] == 0x04 {
        Message::Checkmate
    } else if s[0] == 0x05 {
        Message::Draw
    } else {
        Message::Resign
    }
}

impl Message {
    /// The wire type of this message.
    pub fn get_type(&self) -> (r: MessageType)
        ensures
            message_type_code(r) == message_code(*self)[0],
    {
        match self {
            Self::Decline => MessageType::Decline,
            Self::Move(_) => MessageType::Move,
            Self::Undo => MessageType::Undo,
            Self::Accept => MessageType::Accept,
            Self::Checkmate => MessageType::Checkmate,
            Self::Draw => MessageType::Draw,
            Self::Resign => MessageType::Resign,
        }
    }

    /// Encodes the message.
    pub fn code(&self) -> (r: Vec<u8>)
        ensures
            r@ == message_code(*self),
    {
        match self {
            Message::Move(m) => {
                let mut v = m.code();
                v.insert(0, self.get_type().code());
                proof {
                    assert(v@ =~= message_code(*self));
                }
                v
            },
            _ => {
                let mut v: Vec<u8> = Vec::new();
                v.push(self.get_type().code());
                proof {
                    assert(v@ =~= message_code(*self));
                }
                v
            },
        }
    }

    /// Decodes a message from well-formed bytes.
    pub fn from_code(code: &[u8]) -> (r: Self)
        requires
            message_code_wf(code@),
        ensures
            r == message_of_code(code@),
    {
        let type_code = code[0];
        let message_type = MessageType::from_code(type_code);
        match message_type {
            MessageType::Decline => Self::Decline,
            MessageType::Move => {
                let rest = vstd::slice::slice_subrange(code, 1, code.len());
                Self::Move(Move::from_code(rest))
            },
            MessageType::Undo => Self::Undo,
            MessageType::Accept => Self::Accept,
            MessageType::Checkmate => Self::Checkmate,
            MessageType::Draw => Self::Draw,
            MessageType::Resign => Self::Resign,
        }
    }
}

/// Decoding an encoded move gives the move back, as long as every
/// square coordinate fits in three bits.
pub proof fn lemma_move_round_trip(m: Move)
    requires
        match m {
            Move::Standard { origin, target } => origin.x < 8 && origin.y < 8 && target.x < 8
                && target.y < 8,
            Move::EnPassant { origin, target } => origin.x < 8 && origin.y < 8 && target.x < 8
                && target.y < 8,
            Move::Promotion { origin, target, kind: _ } => origin.x < 8 && origin.y < 8 && target.x
                < 8 && target.y < 8,
            Move::CastleKingside => true,
            Move::CastleQueenside => true,
        },
    ensures
        move_code_wf(move_code(m)),
        move_of_code(move_code(m)) == m,
{
    match m {
        Move::Standard { origin, target } => {
            lemma_position_round_trip(origin);
            lemma_position_round_trip(target);
        },
        Move::EnPassant { origin, target } => {
            lemma_position_round_trip(origin);
            lemma_position_round_trip(target);
        },
        Move::Promotion { origin, target, kind } => {
            lemma_position_round_trip(origin);
            lemma_position_round_trip(target);
            assert(piece_type_code(kind) <= 0x03);
        },
        Move::CastleKingside => {},
        Move::CastleQueenside => {},
    }
}

/// Decoding an encoded message gives the message back, under the same
/// coordinate bound.
pub proof fn lemma_message_round_trip(m: Message)
    requires
        match m {
            Message::Move(mv) => match mv {
                Move::Standard { origin, target } => origin.x < 8 && origin.y < 8 && target.x < 8
                    && target.y < 8,
                Move::EnPassant { origin, target } => origin.x < 8 && origin.y < 8 && target.x < 8
                    && target.y < 8,
                Move::Promotion { origin, target, kind: _ } => origin.x < 8 && origin.y < 8
                    && target.x < 8 && target.y < 8,
                Move::CastleKingside => true,
                Move::CastleQueenside => true,
            },
            _ => true,
        },
    ensures
        message_code_wf(message_code(m)),
        message_of_code(message_code(m)) == m,
{
    match m {
        Message::Move(mv) => {
            lemma_move_round_trip(mv);
            assert(message_code(m).subrange(1, message_code(m).len() as int) =~= move_code(mv));
        },
        _ => {},
    }
}

} // verus!
