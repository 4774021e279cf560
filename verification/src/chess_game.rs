//! The turn-taking wrapper around the board: whose move it is, the
//! move log, and the entry points collaborators use to attempt a move,
//! query legal destinations, promote a pawn, and read the position.

use vstd::prelude::*;

use crate::board_logic::BoardModel;
use crate::board_logic::ChessBoard;
use crate::board_logic::in_bounds;
use crate::board_logic::init_board;
use crate::board_logic::ip;
use crate::board_logic::pawn_dir;
use crate::board_logic::spec_double_record;
use crate::board_logic::spec_move_record;
use crate::coords_of;
use crate::notation_seq;
use crate::piece_logic::Color;
use crate::piece_logic::Piece;
use crate::piece_logic::PieceType;
use crate::to_coords;
use crate::to_notation;

verus! {

/// The full grid snapshot handed to rendering collaborators: flat, row
/// by row from rank 1, the square `(x, y)` at index `x + 8 * y`.
pub type Board = Vec<Option<Piece>>;

/// The mathematical state of a game: the board, the move log, and
/// whose turn it is together with the move counter.
#[verifier::ext_equal]
pub ghost struct GameModel {
    pub board: BoardModel,
    pub history: Seq<Seq<char>>,
    pub turn: (Color, int),
}

/// A well-formed "from to" command: exactly five characters, two
/// well-formed coordinates separated by one space.
pub open spec fn parse_command(s: Seq<char>) -> Option<((int, int), (int, int))> {
    if s.len() == 5 && s[2] == ' ' && coords_of(s.subrange(0, 2)) is Some && coords_of(
        s.subrange(3, 5),
    ) is Some {
        Some((coords_of(s.subrange(0, 2))->Some_0, coords_of(s.subrange(3, 5))->Some_0))
    } else {
        None
    }
}

/// The piece kind a promotion letter requests.
pub open spec fn kind_of(c: char) -> Option<PieceType> {
    if c == 'Q' {
        Some(PieceType::Queen)
    } else if c == 'B' {
        Some(PieceType::Bishop)
    } else if c == 'N' {
        Some(PieceType::Knight)
    } else if c == 'R' {
        Some(PieceType::Rook)
    } else {
        None
    }
}

/// A well-formed promotion command: exactly three characters, a
/// well-formed coordinate and then one of the four promotion letters.
pub open spec fn parse_promotion(s: Seq<char>) -> Option<((int, int), PieceType)> {
    if s.len() == 3 && coords_of(s.subrange(0, 2)) is Some && kind_of(s[2]) is Some {
        Some((coords_of(s.subrange(0, 2))->Some_0, kind_of(s[2])->Some_0))
    } else {
        None
    }
}

/// The board accepts the move `from -> to`: as a regular move, a pawn
/// double-step, or castling to either side.
pub open spec fn move_accepted(b: BoardModel, from: (int, int), to: (int, int)) -> bool {
    ||| b.legal_regular(from, to)
    ||| (b.legal_double_step(from) && to == b.double_step_target(from))
    ||| (b.castle_ok(from, true) && to == (6int, b.home_rank(from)))
    ||| (b.castle_ok(from, false) && to == (2int, b.home_rank(from)))
}

/// The board state an accepted move leads to, mirroring the four
/// acceptance cases in order.
pub open spec fn board_after_move(b: BoardModel, from: (int, int), to: (int, int)) -> BoardModel {
    if b.legal_regular(from, to) {
        b.after_sim(from, to).with_link(None)
    } else if b.legal_double_step(from) && to == b.double_step_target(from) {
        b.after_force(from, to).with_link(
            Some(((to.0, to.1 - pawn_dir(b.color_at(from))), to)),
        )
    } else if b.castle_ok(from, true) && to == (6int, b.home_rank(from)) {
        b.after_force(from, to).after_force((7, b.home_rank(from)), (5, b.home_rank(from))).with_link(None)
    } else {
        b.after_force(from, to).after_force((0, b.home_rank(from)), (3, b.home_rank(from))).with_link(None)
    }
}

/// The record an accepted move is logged under.
pub open spec fn move_record(b: BoardModel, from: (int, int), to: (int, int)) -> Seq<char> {
    if b.legal_regular(from, to) {
        spec_move_record(b, from, to)
    } else if b.legal_double_step(from) && to == b.double_step_target(from) {
        spec_double_record(from, to)
    } else if b.castle_ok(from, true) && to == (6int, b.home_rank(from)) {
        "O-O"@
    } else {
        "O-O-O"@
    }
}

/// The move counter after one more accepted move; it sticks at the
/// machine maximum rather than wrap.
pub open spec fn next_count(n: int) -> int {
    if n == usize::MAX {
        n
    } else {
        n + 1
    }
}

/// The turn-taking wrapper: the board, the append-only move log, and
/// the side to move with the running move number.
pub struct ChessGame {
    chess_board: ChessBoard,
    history: Vec<String>,
    turn: (Color, usize),
}

impl View for ChessGame {
    type V = GameModel;

    closed spec fn view(&self) -> GameModel {
        GameModel {
            board: self.chess_board@,
            history: self.history@.map_values(|s: String| s@),
            turn: (self.turn.0, self.turn.1 as int),
        }
    }
}

impl ChessGame {
    /// The game's board is well formed.
    pub open spec fn wf(self) -> bool {
        self@.board.wf()
    }

    /// A copy of the full grid for a read-only collaborator to draw.
    pub fn get_board(&self) -> (r: Board)
        ensures
            r@ == self@.board.grid,
    {
        let src = self.chess_board.ref_board();
        let mut board: Board = Vec::new();
        let mut i: usize = 0;
        let n = src.len();
        while i < n
            invariant
                i <= n,
                n == src@.len(),
                src@ == self@.board.grid,
                board@.len() == i,
                forall|j: int| 0 <= j < i ==> board@[j] == src@[j],
            decreases n - i,
        {
            board.push(src[i]);
            i += 1;
        }
        proof {
            assert(board@ =~= self@.board.grid);
        }
        board
    }

    /// The side to move.
    pub fn current_player(&self) -> (r: Color)
        ensures
            r == self@.turn.0,
    {
        self.turn.0
    }

    /// The legal destinations of the current player's piece on the
    /// named square, in notation. Rejects malformed coordinates, empty
    /// squares, and pieces of the side not to move.
    #[verifier::rlimit(60)]
    pub fn pick_piece(&self, input: String) -> (r: Result<Vec<String>, String>)
        requires
            self.wf(),
        ensures
            ({
                let g = self@;
                match coords_of(input@) {
                    None => r is Err && (r->Err_0)@
                        == "invalid notation, cannot find coords on board"@,
                    Some(c) => {
                        match g.board.at(c.0, c.1) {
                            None => r is Err && (r->Err_0)@ == "There is no piece there!"@,
                            Some(p) => {
                                if p.color != g.turn.0 {
                                    r is Err && (r->Err_0)@ == "That's not your piece!"@
                                } else {
                                    &&& r is Ok
                                    &&& forall|i: int|
                                        0 <= i < (r->Ok_0)@.len() ==> #[trigger] entry_is_legal(
                                            g.board,
                                            c,
                                            (r->Ok_0)@,
                                            i,
                                        )
                                    &&& forall|t: (usize, usize)|
                                        #[trigger] legal_dest(g.board, c, t) ==> notation_listed(
                                            (r->Ok_0)@,
                                            t,
                                        )
                                }
                            },
                        }
                    },
                }
            }),
    {
        let piece_position = match to_coords(input) {
            Ok(c) => c,
            Err(e) => {
                return Err(e);
            },
        };
        let ghost c = (piece_position.0 as int, piece_position.1 as int);
        match self.chess_board.ref_piece(piece_position) {
            Some(piece) => {
                if piece.color != self.turn.0 {
                    return Err(String::from_str("That's not your piece!"));
                }
            },
            None => {
                return Err(String::from_str("There is no piece there!"));
            },
        }
        let moves = self.chess_board.get_moves(piece_position);
        let mut possible_moves: Vec<String> = Vec::new();
        let mut i: usize = 0;
        while i < moves.len()
            invariant
                self.wf(),
                in_bounds(c.0, c.1),
                c == ip(piece_position),
                i <= moves@.len(),
                possible_moves@.len() == i,
                forall|t: (usize, usize)|
                    #[trigger] moves@.contains((t, None::<crate::board_logic::SpecialMove>))
                        <==> self@.board.legal_regular(ip(piece_position), ip(t)),
                forall|t: (usize, usize)|
                    #[trigger] moves@.contains(
                        (t, Some(crate::board_logic::SpecialMove::Pawn2Step)),
                    ) <==> (self@.board.legal_double_step(ip(piece_position)) && ip(t)
                        == self@.board.double_step_target(ip(piece_position))),
                forall|t: (usize, usize)|
                    #[trigger] moves@.contains(
                        (t, Some(crate::board_logic::SpecialMove::CastlingRight)),
                    ) <==> (self@.board.castle_ok(ip(piece_position), true) && ip(t) == (
                    6int,
                    self@.board.home_rank(ip(piece_position)),
                    )),
                forall|t: (usize, usize)|
                    #[trigger] moves@.contains(
                        (t, Some(crate::board_logic::SpecialMove::CastlingLeft)),
                    ) <==> (self@.board.castle_ok(ip(piece_position), false) && ip(t) == (
                    2int,
                    self@.board.home_rank(ip(piece_position)),
                    )),
                forall|i2: int|
                    0 <= i2 < moves@.len() ==> !self@.board.own_at(
                        ip((#[trigger] moves@[i2]).0).0,
                        ip(moves@[i2].0).1,
                        self@.board.color_at(ip(piece_position)),
                    ),
                forall|j: int|
                    0 <= j < i ==> in_bounds(ip((#[trigger] moves@[j]).0).0, ip(moves@[j].0).1)
                        && (possible_moves@[j])@ == notation_seq(
                        ip(moves@[j].0).0,
                        ip(moves@[j].0).1,
                    ),
            decreases moves@.len() - i,
        {
            let (mv, _) = moves[i];
            proof {
                assert(moves@.contains(moves@[i as int]));
                lemma_entry_legal_dest(self@.board, c, moves@[i as int]);
            }
            let ns = match to_notation(mv) {
                Ok(s) => s,
                Err(_) => {
                    proof {
                        assert(false);
                    }
                    String::new()
                },
            };
            possible_moves.push(ns);
            i += 1;
        }
        proof {
            lemma_pick_wrapup(
                self@.board,
                coords_of(input@)->Some_0,
                moves@,
                possible_moves@,
            );
        }
        Ok(possible_moves)
    }
}

/// The move `from -> t` appears in the generated move list under some
/// kind: it is a legal destination.
#[verifier::opaque]
pub open spec fn legal_dest(b: BoardModel, pos: (int, int), t: (usize, usize)) -> bool {
    ||| b.legal_regular(pos, ip(t))
    ||| (b.legal_double_step(pos) && ip(t) == b.double_step_target(pos))
    ||| (b.castle_ok(pos, true) && ip(t) == (6int, b.home_rank(pos)))
    ||| (b.castle_ok(pos, false) && ip(t) == (2int, b.home_rank(pos)))
}

/// Any entry of a generated move list is a legal destination.
proof fn lemma_entry_legal_dest(
    b: BoardModel,
    pos: (int, int),
    e: ((usize, usize), Option<crate::board_logic::SpecialMove>),
)
    requires
        b.wf(),
        in_bounds(pos.0, pos.1),
        match e.1 {
            None => b.legal_regular(pos, ip(e.0)),
            Some(crate::board_logic::SpecialMove::Pawn2Step) => b.legal_double_step(pos) && ip(e.0)
                == b.double_step_target(pos),
            Some(crate::board_logic::SpecialMove::CastlingRight) => b.castle_ok(pos, true) && ip(
                e.0,
            ) == (6int, b.home_rank(pos)),
            Some(crate::board_logic::SpecialMove::CastlingLeft) => b.castle_ok(pos, false) && ip(
                e.0,
            ) == (2int, b.home_rank(pos)),
        },
    ensures
        legal_dest(b, pos, e.0),
        in_bounds(ip(e.0).0, ip(e.0).1),
{
    reveal(legal_dest);
}

/// A legal destination appears in the generated move list under some
/// kind.
proof fn lemma_legal_dest_entry(
    b: BoardModel,
    pos: (int, int),
    t: (usize, usize),
    moves: Seq<((usize, usize), Option<crate::board_logic::SpecialMove>)>,
)
    requires
        b.wf(),
        in_bounds(pos.0, pos.1),
        legal_dest(b, pos, t),
        forall|t2: (usize, usize)|
            #[trigger] moves.contains((t2, None::<crate::board_logic::SpecialMove>))
                <==> b.legal_regular(pos, ip(t2)),
        forall|t2: (usize, usize)|
            #[trigger] moves.contains((t2, Some(crate::board_logic::SpecialMove::Pawn2Step))) <==> (
            b.legal_double_step(pos) && ip(t2) == b.double_step_target(pos)),
        forall|t2: (usize, usize)|
            #[trigger] moves.contains((t2, Some(crate::board_logic::SpecialMove::CastlingRight)))
                <==> (b.castle_ok(pos, true) && ip(t2) == (6int, b.home_rank(pos))),
        forall|t2: (usize, usize)|
            #[trigger] moves.contains((t2, Some(crate::board_logic::SpecialMove::CastlingLeft)))
                <==> (b.castle_ok(pos, false) && ip(t2) == (2int, b.home_rank(pos))),
    ensures
        exists|e: ((usize, usize), Option<crate::board_logic::SpecialMove>)|
            moves.contains(e) && e.0 == t,
{
    reveal(legal_dest);
    if b.legal_regular(pos, ip(t)) {
        assert(moves.contains((t, None::<crate::board_logic::SpecialMove>)));
        let e = (t, None::<crate::board_logic::SpecialMove>);
        assert(moves.contains(e) && e.0 == t);
    } else if b.legal_double_step(pos) && ip(t) == b.double_step_target(pos) {
        assert(moves.contains((t, Some(crate::board_logic::SpecialMove::Pawn2Step))));
        let e = (t, Some(crate::board_logic::SpecialMove::Pawn2Step));
        assert(moves.contains(e) && e.0 == t);
    } else if b.castle_ok(pos, true) && ip(t) == (6int, b.home_rank(pos)) {
        assert(moves.contains((t, Some(crate::board_logic::SpecialMove::CastlingRight))));
        let e = (t, Some(crate::board_logic::SpecialMove::CastlingRight));
        assert(moves.contains(e) && e.0 == t);
    } else {
        assert(moves.contains((t, Some(crate::board_logic::SpecialMove::CastlingLeft))));
        let e = (t, Some(crate::board_logic::SpecialMove::CastlingLeft));
        assert(moves.contains(e) && e.0 == t);
    }
}

impl ChessGame {
    /// Parses a five-character "from to" command, validates the move
    /// against the board and the turn, applies it with its side
    /// effects, logs it, and hands the turn to the other side. The
    /// turn only changes on an accepted move. The result names the
    /// move, notes when it gives check, and announces checkmate when
    /// it ends the game.
    pub fn move_piece(&mut self, input: String) -> (r: Result<String, String>)
        requires
            old(self).wf(),
        ensures
            final(self).wf(),
            ({
                let g = old(self)@;
                let gf = final(self)@;
                match parse_command(input@) {
                    None => r is Err && gf == g && (r->Err_0)@ == "Error: enter move as e.g:a4 a3"@,
                    Some((from, to)) => {
                        match g.board.at(from.0, from.1) {
                            None => r is Err && gf == g && (r->Err_0)@
                                == "There is no piece there!"@,
                            Some(p) => {
                                if p.color != g.turn.0 {
                                    r is Err && gf == g && (r->Err_0)@
                                        == "That is not your piece!"@
                                } else if move_accepted(g.board, from, to) {
                                    &&& gf.board == board_after_move(g.board, from, to)
                                    &&& gf.turn == (g.turn.0.other_spec(), next_count(g.turn.1))
                                    &&& gf.history == g.history.push(
                                        move_record(g.board, from, to),
                                    )
                                    &&& r is Ok
                                    &&& (r->Ok_0)@ == (if gf.board.checkmated(gf.turn.0) {
                                        "Game is over! It's a checkmate!"@
                                    } else if gf.board.checked(gf.turn.0) {
                                        move_record(g.board, from, to) + " Check!"@
                                    } else {
                                        move_record(g.board, from, to)
                                    })
                                } else {
                                    r is Err && gf == g && (r->Err_0)@
                                        == "Tried to do illegal move!"@
                                }
                            },
                        }
                    },
                }
            }),
    {
        let s = input.as_str();
        if s.unicode_len() != 5 {
            return Err(String::from_str("Error: enter move as e.g:a4 a3"));
        }
        if s.get_char(2) != ' ' {
            return Err(String::from_str("Error: enter move as e.g:a4 a3"));
        }
        let from_text = String::from_str(s.substring_char(0, 2));
        let to_text = String::from_str(s.substring_char(3, 5));
        proof {
            assert(from_text@ == input@.subrange(0, 2));
            assert(to_text@ == input@.subrange(3, 5));
        }
        let move_from = match to_coords(from_text) {
            Ok(c) => c,
            Err(_) => {
                return Err(String::from_str("Error: enter move as e.g:a4 a3"));
            },
        };
        let move_to = match to_coords(to_text) {
            Ok(c) => c,
            Err(_) => {
                return Err(String::from_str("Error: enter move as e.g:a4 a3"));
            },
        };
        proof {
            assert(parse_command(input@) == Some((ip(move_from), ip(move_to))));
        }
        match self.chess_board.ref_piece(move_from) {
            Some(piece) => {
                if piece.color != self.turn.0 {
                    return Err(String::from_str("That is not your piece!"));
                }
            },
            None => {
                return Err(String::from_str("There is no piece there!"));
            },
        }
        let result = self.chess_board.move_piece(move_from, move_to);
        match result {
            Err(e) => Err(e),
            Ok(record) => {
                let logged = record.clone();
                self.history.push(logged);
                let next: usize = if self.turn.1 == usize::MAX {
                    self.turn.1
                } else {
                    self.turn.1 + 1
                };
                let other: Color = match self.turn.0 {
                    Color::White => Color::Black,
                    Color::Black => Color::White,
                };
                self.turn = (other, next);
                proof {
                    assert(self@.history =~= old(self)@.history.push(
                        move_record(old(self)@.board, ip(move_from), ip(move_to)),
                    ));
                }
                if self.chess_board.is_checkmate(other) {
                    return Ok(String::from_str("Game is over! It's a checkmate!"));
                }
                let mut out = record;
                if self.chess_board.is_checked(other) {
                    proof {
                        reveal_strlit(" Check!");
                    }
                    out.append(" Check!");
                }
                Ok(out)
            },
        }
    }

    /// Parses a three-character promotion command and replaces the
    /// named pawn, standing on its final rank, with a fresh piece of
    /// the requested kind. The turn and the log are untouched.
    pub fn promotion(&mut self, input: String) -> (r: Result<String, String>)
        requires
            old(self).wf(),
        ensures
            final(self).wf(),
            ({
                let g = old(self)@;
                let gf = final(self)@;
                match parse_promotion(input@) {
                    None => r is Err && gf == g && (r->Err_0)@
                        == "Must provide promotion input as e.g:a8Q"@,
                    Some((c, kind)) => {
                        &&& gf.turn == g.turn
                        &&& gf.history == g.history
                        &&& match g.board.at(c.0, c.1) {
                            Some(p) => {
                                if p.piece_type == PieceType::Pawn && c.1 == (
                                if p.color == Color::White {
                                    7int
                                } else {
                                    0int
                                }) {
                                    &&& r is Ok
                                    &&& gf.board == (BoardModel {
                                        grid: g.board.grid.update(
                                            crate::board_logic::sq(c.0, c.1),
                                            Some(crate::piece_logic::spec_piece_make(
                                                p.color,
                                                kind,
                                            )),
                                        ),
                                        ..g.board
                                    })
                                } else {
                                    r is Err && gf == g && (r->Err_0)@
                                        == "Tried to promote unit at wrong place or of wrong type"@
                                }
                            },
                            None => r is Err && gf == g && (r->Err_0)@
                                == "Tried to promote an empty space!"@,
                        }
                    },
                }
            }),
    {
        let s = input.as_str();
        if s.unicode_len() != 3 {
            return Err(String::from_str("Must provide promotion input as e.g:a8Q"));
        }
        let coord_text = String::from_str(s.substring_char(0, 2));
        proof {
            assert(coord_text@ == input@.subrange(0, 2));
        }
        let position = match to_coords(coord_text) {
            Ok(c) => c,
            Err(_) => {
                return Err(String::from_str("Must provide promotion input as e.g:a8Q"));
            },
        };
        let piece_type: PieceType = match s.get_char(2) {
            'Q' => PieceType::Queen,
            'B' => PieceType::Bishop,
            'N' => PieceType::Knight,
            'R' => PieceType::Rook,
            _ => {
                return Err(String::from_str("Must provide promotion input as e.g:a8Q"));
            },
        };
        proof {
            assert(parse_promotion(input@) == Some((ip(position), piece_type)));
        }
        self.chess_board.promote(position, piece_type)
    }
}

/// A freshly set up game: the standard initial position with 32
/// pieces, White to move, an empty log, and the move counter at one.
pub fn init_standard_chess() -> (game: ChessGame)
    ensures
        game.wf(),
        game@.turn == (Color::White, 1int),
        game@.history == Seq::<Seq<char>>::empty(),
        forall|x: int|
            0 <= x < 8 ==> game@.board.at(x, 1) == Some(
                crate::piece_logic::spec_piece_make(Color::White, PieceType::Pawn),
            ),
        forall|x: int|
            0 <= x < 8 ==> game@.board.at(x, 6) == Some(
                crate::piece_logic::spec_piece_make(Color::Black, PieceType::Pawn),
            ),
        forall|x: int|
            0 <= x < 8 ==> game@.board.at(x, 0) == Some(
                crate::piece_logic::spec_piece_make(
                    Color::White,
                    crate::board_logic::back_rank_kind(x),
                ),
            ),
        forall|x: int|
            0 <= x < 8 ==> game@.board.at(x, 7) == Some(
                crate::piece_logic::spec_piece_make(
                    Color::Black,
                    crate::board_logic::back_rank_kind(x),
                ),
            ),
        forall|x: int, y: int| 0 <= x < 8 && 2 <= y <= 5 ==> game@.board.at(x, y) is None,
        game@.board.white_king == Some((4int, 0int)),
        game@.board.black_king == Some((4int, 7int)),
        game@.board.link is None,
{
    let mut board = init_board();
    let ghost b0 = board@;
    board.standard_pieces(Color::White);
    let ghost b1 = board@;
    proof {
        assert forall|x: int, y: int|
            0 <= x < 8 && (y == 6int || y == 7int) implies board@.at(x, y) is None by {
            assert(in_bounds(x, y));
            assert(b1.at(x, y) == b0.at(x, y));
        }
    }
    board.standard_pieces(Color::Black);
    proof {
        assert forall|x: int| 0 <= x < 8 implies board@.at(x, 1) == Some(
            crate::piece_logic::spec_piece_make(Color::White, PieceType::Pawn),
        ) by {
            assert(in_bounds(x, 1));
            assert(board@.at(x, 1) == b1.at(x, 1));
        }
        assert forall|x: int| 0 <= x < 8 implies board@.at(x, 0) == Some(
            crate::piece_logic::spec_piece_make(
                Color::White,
                crate::board_logic::back_rank_kind(x),
            ),
        ) by {
            assert(in_bounds(x, 0));
            assert(board@.at(x, 0) == b1.at(x, 0));
        }
        assert forall|x: int, y: int| 0 <= x < 8 && 2 <= y <= 5 implies board@.at(x, y)
            is None by {
            assert(in_bounds(x, y));
            assert(board@.at(x, y) == b1.at(x, y));
            assert(b1.at(x, y) == b0.at(x, y));
        }
    }
    let game = ChessGame { chess_board: board, history: Vec::new(), turn: (Color::White, 1) };
    proof {
        assert(game@.history =~= Seq::<Seq<char>>::empty());
    }
    game
}

/// The glyph a square is drawn with: a chess figure, or a space for an
/// empty square.
pub open spec fn glyph(p: Option<Piece>) -> char {
    match p {
        None => ' ',
        Some(pc) => match (pc.color, pc.piece_type) {
            (Color::White, PieceType::Pawn) => '\u{265F}',
            (Color::White, PieceType::Rook) => '\u{265C}',
            (Color::White, PieceType::Knight) => '\u{265E}',
            (Color::White, PieceType::Bishop) => '\u{265D}',
            (Color::White, PieceType::King) => '\u{265A}',
            (Color::White, PieceType::Queen) => '\u{265B}',
            (Color::Black, PieceType::Pawn) => '\u{2659}',
            (Color::Black, PieceType::Rook) => '\u{2656}',
            (Color::Black, PieceType::Knight) => '\u{2658}',
            (Color::Black, PieceType::Bishop) => '\u{2657}',
            (Color::Black, PieceType::King) => '\u{2654}',
            (Color::Black, PieceType::Queen) => '\u{2655}',
        },
    }
}

/// One drawn square: its glyph between bars.
pub open spec fn cell_text(p: Option<Piece>) -> Seq<char> {
    seq!['|', glyph(p), '|']
}

/// The drawn cells of row `y` from column `x` rightward.
pub open spec fn row_text(m: BoardModel, y: int, x: int) -> Seq<char>
    decreases 8 - x,
{
    if x < 0 || x >= 8 {
        Seq::empty()
    } else {
        cell_text(m.at(x, y)) + row_text(m, y, x + 1)
    }
}

/// The drawn rows from rank `y` down to rank 1, each followed by a
/// newline and a divider line.
pub open spec fn rows_text(m: BoardModel, y: int) -> Seq<char>
    decreases y + 1,
{
    if y < 0 {
        Seq::empty()
    } else {
        row_text(m, y, 0) + "\n------------------------\n"@ + rows_text(m, y - 1)
    }
}

/// The whole board drawn as text, rank 8 first.
pub open spec fn board_text(m: BoardModel) -> Seq<char> {
    rows_text(m, 7)
}

/// The glyph a square is drawn with, as a string slice.
fn glyph_str(p: &Option<Piece>) -> (r: &'static str)
    ensures
        r@ =~= seq![glyph(*p)],
{
    proof {
        reveal_strlit(" ");
        reveal_strlit("\u{265F}");
        reveal_strlit("\u{265C}");
        reveal_strlit("\u{265E}");
        reveal_strlit("\u{265D}");
        reveal_strlit("\u{265A}");
        reveal_strlit("\u{265B}");
        reveal_strlit("\u{2659}");
        reveal_strlit("\u{2656}");
        reveal_strlit("\u{2658}");
        reveal_strlit("\u{2657}");
        reveal_strlit("\u{2654}");
        reveal_strlit("\u{2655}");
    }
    match p {
        None => " ",
        Some(pc) => match (pc.color, pc.piece_type) {
            (Color::White, PieceType::Pawn) => "\u{265F}",
            (Color::White, PieceType::Rook) => "\u{265C}",
            (Color::White, PieceType::Knight) => "\u{265E}",
            (Color::White, PieceType::Bishop) => "\u{265D}",
            (Color::White, PieceType::King) => "\u{265A}",
            (Color::White, PieceType::Queen) => "\u{265B}",
            (Color::Black, PieceType::Pawn) => "\u{2659}",
            (Color::Black, PieceType::Rook) => "\u{2656}",
            (Color::Black, PieceType::Knight) => "\u{2658}",
            (Color::Black, PieceType::Bishop) => "\u{2657}",
            (Color::Black, PieceType::King) => "\u{2654}",
            (Color::Black, PieceType::Queen) => "\u{2655}",
        },
    }
}

impl ChessGame {
    /// Draws the board as text for a console collaborator to show:
    /// each rank a line of barred glyphs, rank 8 first, each followed
    /// by a divider line. The caller does the printing.
    pub fn print_board(&self) -> (r: String)
        requires
            self.wf(),
        ensures
            r@ == board_text(self@.board),
    {
        proof {
            reveal_strlit("|");
            reveal_strlit("\n------------------------\n");
        }
        let ghost m = self@.board;
        let mut out = String::new();
        let mut yy: usize = 8;
        while yy > 0
            invariant
                self.wf(),
                m == self@.board,
                yy <= 8,
                board_text(m) == out@ + rows_text(m, yy as int - 1),
            decreases yy,
        {
            yy -= 1;
            let ghost y = yy as int;
            let mut x: usize = 0;
            while x < 8
                invariant
                    self.wf(),
                    m == self@.board,
                    yy <= 7,
                    y == yy as int,
                    x <= 8,
                    board_text(m) == out@ + row_text(m, y, x as int) + "\n------------------------\n"@
                        + rows_text(m, y - 1),
                decreases 8 - x,
            {
                let p = self.chess_board.get_piece((x, yy));
                let ghost pre = out@;
                out.append("|");
                out.append(glyph_str(p));
                out.append("|");
                proof {
                    reveal_strlit("|");
                    assert(out@ =~= pre + cell_text(m.at(x as int, y)));
                    assert(row_text(m, y, x as int) == cell_text(m.at(x as int, y)) + row_text(
                        m,
                        y,
                        x as int + 1,
                    ));
                    assert(pre + cell_text(m.at(x as int, y)) + row_text(m, y, x as int + 1)
                        =~= pre + row_text(m, y, x as int));
                }
                x += 1;
            }
            proof {
                assert(row_text(m, y, 8) == Seq::<char>::empty());
                assert(out@ + "\n------------------------\n"@ =~= out@
                    + "\n------------------------\n"@ + row_text(m, y, 8));
            }
            out.append("\n------------------------\n");
        }
        proof {
            assert(rows_text(m, -1) == Seq::<char>::empty());
            assert(out@ + rows_text(m, -1) =~= out@);
        }
        out
    }
}

/// No accepted move other than castling leaves the mover's own king in
/// check on the board the move produces, discovered attacks included;
/// the hypothesis asks only that the mover's king survive the move,
/// which every move from a position with tracked kings satisfies.
/// Castling is covered separately by its own availability conditions,
/// which forbid a threatened start, transit or landing square.
pub proof fn lemma_move_keeps_mover_safe(b: BoardModel, from: (int, int), to: (int, int))
    requires
        b.wf(),
        b.legal_regular(from, to) || (b.legal_double_step(from) && to == b.double_step_target(
            from,
        )),
        b.after_sim(from, to).king_intact(b.color_at(from)),
    ensures
        !board_after_move(b, from, to).checked(b.color_at(from)),
{
    if b.legal_regular(from, to) {
        crate::board_logic::lemma_no_self_check(b, from, to, None);
    } else {
        assert(to.0 == from.0);
        assert(!b.passant_capture(from, to));
        assert(b.after_sim(from, to) =~= b.after_force(from, to));
        crate::board_logic::lemma_no_self_check(
            b,
            from,
            to,
            Some(((to.0, to.1 - pawn_dir(b.color_at(from))), to)),
        );
        assert(board_after_move(b, from, to) =~= b.after_sim(from, to).with_link(
            Some(((to.0, to.1 - pawn_dir(b.color_at(from))), to)),
        ));
    }
}

/// Right after a pawn double-step, an enemy pawn standing beside the
/// landing square may capture onto the skipped square: the en-passant
/// link the move records makes that diagonal a regular move.
pub proof fn lemma_en_passant_available(b: BoardModel, from: (int, int), px: int, py: int)
    requires
        b.wf(),
        b.legal_double_step(from),
        !b.legal_regular(from, b.double_step_target(from)),
        in_bounds(from.0, from.1),
        in_bounds(px, py),
        py == b.double_step_target(from).1,
        px == b.double_step_target(from).0 + 1 || px == b.double_step_target(from).0 - 1,
        match b.at(px, py) {
            Some(p) => p.piece_type == PieceType::Pawn && p.color != b.color_at(from),
            None => false,
        },
    ensures
        ({
            let to = b.double_step_target(from);
            let skip = (to.0, to.1 - pawn_dir(b.color_at(from)));
            board_after_move(b, from, to).regular_move_ok((px, py), skip)
        }),
{
    let to = b.double_step_target(from);
    let c = b.color_at(from);
    let dy = pawn_dir(c);
    let skip = (to.0, to.1 - dy);
    let b2 = board_after_move(b, from, to);
    let p = b.at(px, py)->Some_0;
    assert(to.1 == from.1 + 2 * dy);
    assert(skip == (from.0, from.1 + dy));
    assert(b.at(skip.0, skip.1) is None);
    assert(crate::board_logic::sq(px, py) != crate::board_logic::sq(from.0, from.1));
    assert(crate::board_logic::sq(px, py) != crate::board_logic::sq(to.0, to.1));
    assert(b2.grid == b.grid.update(crate::board_logic::sq(from.0, from.1), None).update(
        crate::board_logic::sq(to.0, to.1),
        Some(
            crate::piece_logic::Piece {
                has_moved: true,
                ..b.at(from.0, from.1)->Some_0
            },
        ),
    ));
    assert(0 <= crate::board_logic::sq(px, py) < 64);
    assert(b2.grid[crate::board_logic::sq(px, py)] == b.grid[crate::board_logic::sq(px, py)]);
    assert(b2.at(px, py) == b.at(px, py));
    assert(crate::board_logic::sq(skip.0, skip.1) != crate::board_logic::sq(from.0, from.1));
    assert(crate::board_logic::sq(skip.0, skip.1) != crate::board_logic::sq(to.0, to.1));
    assert(b2.grid[crate::board_logic::sq(skip.0, skip.1)] == b.grid[crate::board_logic::sq(
        skip.0,
        skip.1,
    )]);
    assert(b2.at(skip.0, skip.1) is None);
    assert(b2.at(to.0, to.1) is Some && b2.at(to.0, to.1)->Some_0.color == c);
    assert(b2.link == Some((skip, to)));
    assert(b2.passant_target(skip.0, skip.1, p.color));
    assert(pawn_dir(p.color) == -dy);
    assert(b2.pawn_step_ok(p.color, px, py, skip.0 - px, skip.0, skip.1));
    assert(b2.pawn_move_ok(p, px, py, skip.0, skip.1));
}

/// Once the en-passant link is gone, as it is after every move that is
/// not a double-step, no pawn can move diagonally onto an empty
/// square: the capture opportunity lasts exactly one half-move.
pub proof fn lemma_en_passant_gone(b: BoardModel, pos: (int, int), to: (int, int))
    requires
        b.link is None,
        match b.at(pos.0, pos.1) {
            Some(p) => p.piece_type == PieceType::Pawn,
            None => false,
        },
        to.0 != pos.0,
        b.at(to.0, to.1) is None,
    ensures
        !b.regular_move_ok(pos, to),
{
    let p = b.at(pos.0, pos.1)->Some_0;
    assert(!b.passant_target(to.0, to.1, p.color));
    assert(!b.enemy_at(to.0, to.1, p.color));
}

/// Some entry of the list spells the destination `t` in notation.
pub open spec fn notation_listed(lst: Seq<String>, t: (usize, usize)) -> bool {
    exists|i: int|
        0 <= i < lst.len() && (#[trigger] lst[i])@ == notation_seq(t.0 as int, t.1 as int)
}

/// Entry `i` of the list spells some legal destination in notation.
pub open spec fn entry_is_legal(b: BoardModel, c: (int, int), lst: Seq<String>, i: int) -> bool {
    exists|t: (usize, usize)|
        #[trigger] legal_dest(b, c, t) && (lst[i])@ == notation_seq(t.0 as int, t.1 as int)
}

/// A notation list built entry by entry from a generated move list
/// names exactly the legal destinations.
proof fn lemma_pick_wrapup(
    b: BoardModel,
    c: (int, int),
    moves: Seq<((usize, usize), Option<crate::board_logic::SpecialMove>)>,
    lst: Seq<String>,
)
    requires
        b.wf(),
        in_bounds(c.0, c.1),
        forall|t2: (usize, usize)|
            #[trigger] moves.contains((t2, None::<crate::board_logic::SpecialMove>))
                <==> b.legal_regular(c, ip(t2)),
        forall|t2: (usize, usize)|
            #[trigger] moves.contains((t2, Some(crate::board_logic::SpecialMove::Pawn2Step))) <==> (
            b.legal_double_step(c) && ip(t2) == b.double_step_target(c)),
        forall|t2: (usize, usize)|
            #[trigger] moves.contains((t2, Some(crate::board_logic::SpecialMove::CastlingRight)))
                <==> (b.castle_ok(c, true) && ip(t2) == (6int, b.home_rank(c))),
        forall|t2: (usize, usize)|
            #[trigger] moves.contains((t2, Some(crate::board_logic::SpecialMove::CastlingLeft)))
                <==> (b.castle_ok(c, false) && ip(t2) == (2int, b.home_rank(c))),
        lst.len() == moves.len(),
        forall|j: int|
            0 <= j < moves.len() ==> (#[trigger] lst[j])@ == notation_seq(
                ip(moves[j].0).0,
                ip(moves[j].0).1,
            ),
    ensures
        forall|i: int| 0 <= i < lst.len() ==> #[trigger] entry_is_legal(b, c, lst, i),
        forall|t: (usize, usize)| #[trigger] legal_dest(b, c, t) ==> notation_listed(lst, t),
{
    assert forall|i: int| 0 <= i < lst.len() implies #[trigger] entry_is_legal(b, c, lst, i) by {
        let e = moves[i];
        assert(moves.contains(e));
        match e.1 {
            None => {
                assert(e == (e.0, None::<crate::board_logic::SpecialMove>));
                assert(moves.contains((e.0, None::<crate::board_logic::SpecialMove>)));
            },
            Some(k) => {
                match k {
                    crate::board_logic::SpecialMove::Pawn2Step => {
                        assert(e == (e.0, Some(crate::board_logic::SpecialMove::Pawn2Step)));
                        assert(moves.contains(
                            (e.0, Some(crate::board_logic::SpecialMove::Pawn2Step)),
                        ));
                    },
                    crate::board_logic::SpecialMove::CastlingRight => {
                        assert(e == (e.0, Some(crate::board_logic::SpecialMove::CastlingRight)));
                        assert(moves.contains(
                            (e.0, Some(crate::board_logic::SpecialMove::CastlingRight)),
                        ));
                    },
                    crate::board_logic::SpecialMove::CastlingLeft => {
                        assert(e == (e.0, Some(crate::board_logic::SpecialMove::CastlingLeft)));
                        assert(moves.contains(
                            (e.0, Some(crate::board_logic::SpecialMove::CastlingLeft)),
                        ));
                    },
                }
            },
        }
        lemma_entry_legal_dest(b, c, e);
        assert(legal_dest(b, c, e.0) && (lst[i])@ == notation_seq(e.0.0 as int, e.0.1 as int));
    }
    assert forall|t: (usize, usize)| #[trigger] legal_dest(b, c, t) implies notation_listed(
        lst,
        t,
    ) by {
        lemma_legal_dest_entry(b, c, t, moves);
        let e = choose|e: ((usize, usize), Option<crate::board_logic::SpecialMove>)|
            moves.contains(e) && e.0 == t;
        let j = choose|j: int| 0 <= j < moves.len() && moves[j] == e;
        assert(0 <= j < lst.len() && (lst[j])@ == notation_seq(t.0 as int, t.1 as int));
    }
}

} // verus!
