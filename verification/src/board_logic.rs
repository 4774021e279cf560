//! The board: an 8x8 grid of optional pieces with cached king positions
//! and a one-ply en-passant memory, the move generator over it, and the
//! threat, check and checkmate queries.
//!
//! The grid is stored flat, row by row: the square `(x, y)` lives at
//! index `x + 8 * y`, with `x` the file (a..h) and `y` the rank (1..8),
//! both zero-based, so the origin `(0, 0)` is a1.

use vstd::prelude::*;

use crate::piece_logic::Color;
use crate::piece_logic::Piece;
use crate::piece_logic::PieceType;
use crate::piece_logic::piece_make;
use crate::piece_logic::spec_piece_make;

verus! {

/// The mathematical state of a chess board: the 64 squares, the two
/// cached king positions, and the en-passant link, which pairs the
/// square a double-stepping pawn skipped (capturable by en passant)
/// with the square that pawn landed on.
#[verifier::ext_equal]
pub ghost struct BoardModel {
    pub grid: Seq<Option<Piece>>,
    pub white_king: Option<(int, int)>,
    pub black_king: Option<(int, int)>,
    pub link: Option<((int, int), (int, int))>,
}

/// `(x, y)` lies on the board.
pub open spec fn in_bounds(x: int, y: int) -> bool {
    0 <= x < 8 && 0 <= y < 8
}

/// The flat index of the square `(x, y)`.
pub open spec fn sq(x: int, y: int) -> int {
    x + 8 * y
}

/// The coordinate pair of a position, as mathematical integers.
pub open spec fn ip(p: (usize, usize)) -> (int, int) {
    (p.0 as int, p.1 as int)
}

impl BoardModel {
    /// The occupant of the square `(x, y)`.
    pub open spec fn at(self, x: int, y: int) -> Option<Piece> {
        self.grid[sq(x, y)]
    }

    /// Well-formedness: 64 squares, caches and link on the board, and
    /// every piece carries nonzero, bounded movement templates.
    pub open spec fn wf(self) -> bool {
        &&& self.grid.len() == 64
        &&& match self.white_king {
            Some(k) => in_bounds(k.0, k.1),
            None => true,
        }
        &&& match self.black_king {
            Some(k) => in_bounds(k.0, k.1),
            None => true,
        }
        &&& match self.link {
            Some((cap, pq)) => in_bounds(cap.0, cap.1) && in_bounds(pq.0, pq.1),
            None => true,
        }
        &&& forall|i: int|
            0 <= i < 64 ==> match #[trigger] self.grid[i] {
                Some(p) => p.valid(),
                None => true,
            }
    }

    /// The cached king position of a color.
    pub open spec fn king_pos(self, color: Color) -> Option<(int, int)> {
        match color {
            Color::White => self.white_king,
            Color::Black => self.black_king,
        }
    }

    /// The square `(x, y)` holds a piece of color `c`.
    pub open spec fn own_at(self, x: int, y: int, c: Color) -> bool {
        match self.at(x, y) {
            Some(q) => q.color == c,
            None => false,
        }
    }

    /// The square `(x, y)` holds a piece of the color opposing `c`.
    pub open spec fn enemy_at(self, x: int, y: int, c: Color) -> bool {
        match self.at(x, y) {
            Some(q) => q.color != c,
            None => false,
        }
    }

    /// The same board with the en-passant link replaced.
    pub open spec fn with_link(self, l: Option<((int, int), (int, int))>) -> BoardModel {
        BoardModel { link: l, ..self }
    }

    /// The state after the unconditional relocation of the piece at
    /// `from` to `to`: `from` is emptied, `to` holds the piece with its
    /// `has_moved` flag set, and the matching king cache follows a
    /// relocated king. The en-passant link is untouched.
    pub open spec fn after_force(self, from: (int, int), to: (int, int)) -> BoardModel {
        let p = self.at(from.0, from.1)->Some_0;
        let moved = Piece { has_moved: true, ..p };
        BoardModel {
            grid: self.grid.update(sq(from.0, from.1), None).update(
                sq(to.0, to.1),
                Some(moved),
            ),
            white_king: if p.piece_type == PieceType::King && p.color == Color::White {
                Some(to)
            } else {
                self.white_king
            },
            black_king: if p.piece_type == PieceType::King && p.color == Color::Black {
                Some(to)
            } else {
                self.black_king
            },
            link: self.link,
        }
    }
}

/// The movement template of a piece, as mathematical integers.
pub open spec fn tpl(m: (i8, i8)) -> (int, int) {
    (m.0 as int, m.1 as int)
}

/// The four directions derived from one `(dx, dy)` movement template by
/// mirroring it on both axes: a template with a zero component expands
/// to the four axis rotations, any other to the four sign combinations.
/// This one rule reproduces all 8 queen and king directions, the 4 rook
/// and bishop axes, and the 8 knight offsets from compact templates.
pub open spec fn dir_at(m: (int, int), i: int) -> (int, int) {
    if m.0 == 0 || m.1 == 0 {
        if i == 0 {
            (m.0, m.1)
        } else if i == 1 {
            (m.0, -m.1)
        } else if i == 2 {
            (-m.1, m.0)
        } else {
            (m.1, m.0)
        }
    } else {
        if i == 0 {
            (m.0, m.1)
        } else if i == 1 {
            (m.0, -m.1)
        } else if i == 2 {
            (-m.0, m.1)
        } else {
            (-m.0, -m.1)
        }
    }
}

/// One step from `(x, y)` along `d` reaches the board square `(tx, ty)`.
pub open spec fn step_to(x: int, y: int, d: (int, int), tx: int, ty: int) -> bool {
    tx == x + d.0 && ty == y + d.1 && in_bounds(tx, ty)
}

impl BoardModel {
    /// The first `k - 1` steps from `(x, y)` along `d` all land on
    /// empty board squares.
    pub open spec fn clear_between(self, x: int, y: int, d: (int, int), k: int) -> bool {
        forall|j: int|
            1 <= j < k ==> in_bounds(x + j * d.0, y + j * d.1) && (#[trigger] self.at(
                x + j * d.0,
                y + j * d.1,
            )) is None
    }

    /// A ray from `(x, y)` along `d` reaches `(tx, ty)`: the target is
    /// some positive number of steps out on the board, and every square
    /// strictly between is empty. The target itself may be occupied.
    pub open spec fn ray_to(self, x: int, y: int, d: (int, int), tx: int, ty: int) -> bool {
        exists|k: int|
            1 <= k && tx == x + #[trigger] (k * d.0) && ty == y + k * d.1 && in_bounds(tx, ty)
                && self.clear_between(x, y, d, k)
    }

    /// Movement along `d` reaches `(tx, ty)`: by a ray for a continuous
    /// piece, by a single step otherwise.
    pub open spec fn reach_dir(
        self,
        x: int,
        y: int,
        d: (int, int),
        cont: bool,
        tx: int,
        ty: int,
    ) -> bool {
        if cont {
            self.ray_to(x, y, d, tx, ty)
        } else {
            step_to(x, y, d, tx, ty)
        }
    }

    /// Movement along some direction derived from the template `m`
    /// reaches `(tx, ty)`.
    pub open spec fn reach_tpl(
        self,
        x: int,
        y: int,
        m: (int, int),
        cont: bool,
        tx: int,
        ty: int,
    ) -> bool {
        exists|i: int| 0 <= i < 4 && self.reach_dir(x, y, dir_at(m, i), cont, tx, ty)
    }

    /// `(tx, ty)` is the currently capturable en-passant square for a
    /// pawn of color `c`: the link names it, it is empty, and the pawn
    /// that skipped it belongs to the opponent.
    pub open spec fn passant_target(self, tx: int, ty: int, c: Color) -> bool {
        match self.link {
            Some((cap, pq)) => cap == (tx, ty) && self.at(tx, ty) is None && self.enemy_at(
                pq.0,
                pq.1,
                c,
            ),
            None => false,
        }
    }

    /// A pawn of color `color` standing on `(x, y)` can take the step
    /// with file offset `dx` to `(tx, ty)`: one square forward (for
    /// `dx == 0`, onto an empty square only) or one square diagonally
    /// forward (onto an enemy piece or the en-passant square only).
    pub open spec fn pawn_step_ok(
        self,
        color: Color,
        x: int,
        y: int,
        dx: int,
        tx: int,
        ty: int,
    ) -> bool {
        let dy: int = if color == Color::White {
            1
        } else {
            -1
        };
        &&& tx == x + dx
        &&& ty == y + dy
        &&& in_bounds(tx, ty)
        &&& if dx == 0 {
            self.at(tx, ty) is None
        } else {
            self.enemy_at(tx, ty, color) || self.passant_target(tx, ty, color)
        }
    }

    /// The pawn `p` standing on `(x, y)` can move to `(tx, ty)`: one
    /// step forward onto an empty square, or one step diagonally
    /// forward onto an enemy piece or the en-passant square.
    pub open spec fn pawn_move_ok(self, p: Piece, x: int, y: int, tx: int, ty: int) -> bool {
        ||| self.pawn_step_ok(p.color, x, y, 0, tx, ty)
        ||| self.pawn_step_ok(p.color, x, y, 1, tx, ty)
        ||| self.pawn_step_ok(p.color, x, y, -1, tx, ty)
    }

    /// The piece on `pos` can make the regular (non-special) move to
    /// `to`: the target is geometrically reachable and does not hold a
    /// piece of its own color. Pawns move as `pawn_move_ok` says; every
    /// other piece follows its mirrored templates, single-step or along
    /// rays that stop at the first occupied square.
    pub open spec fn regular_move_ok(self, pos: (int, int), to: (int, int)) -> bool {
        &&& in_bounds(pos.0, pos.1)
        &&& in_bounds(to.0, to.1)
        &&& match self.at(pos.0, pos.1) {
            Some(p) => {
                if p.piece_type == PieceType::Pawn {
                    self.pawn_move_ok(p, pos.0, pos.1, to.0, to.1)
                } else {
                    ({
                        ||| self.reach_tpl(
                            pos.0,
                            pos.1,
                            tpl(p.movement.0),
                            p.moves_continous,
                            to.0,
                            to.1,
                        )
                        ||| match p.movement.1 {
                            Some(m2) => self.reach_tpl(
                                pos.0,
                                pos.1,
                                tpl(m2),
                                p.moves_continous,
                                to.0,
                                to.1,
                            ),
                            None => false,
                        }
                    }) && !self.own_at(to.0, to.1, p.color)
                }
            },
            None => false,
        }
    }
}

/// The discriminated special moves: the pawn double-step, and castling
/// toward either rook (left is queen-side, right is king-side).
#[derive(PartialEq, Eq, Structural, Clone, Copy, Debug)]
pub enum SpecialMove {
    Pawn2Step,
    CastlingLeft,
    CastlingRight,
}

/// The 8x8 grid of optional pieces, with cached king positions and the
/// one-ply en-passant memory.
pub struct ChessBoard {
    board: Vec<Option<Piece>>,
    white_king: Option<(usize, usize)>,
    black_king: Option<(usize, usize)>,
    passant_connection: Option<((usize, usize), (usize, usize))>,
}

impl View for ChessBoard {
    type V = BoardModel;

    closed spec fn view(&self) -> BoardModel {
        BoardModel {
            grid: self.board@,
            white_king: match self.white_king {
                Some(k) => Some(ip(k)),
                None => None,
            },
            black_king: match self.black_king {
                Some(k) => Some(ip(k)),
                None => None,
            },
            link: match self.passant_connection {
                Some((cap, pq)) => Some((ip(cap), ip(pq))),
                None => None,
            },
        }
    }
}

/// An empty board: no pieces, no kings placed, no en-passant link.
pub fn init_board() -> (b: ChessBoard)
    ensures
        b@.wf(),
        b@.grid =~= Seq::new(64, |i: int| None::<Piece>),
        b@.white_king is None,
        b@.black_king is None,
        b@.link is None,
{
    let mut board: Vec<Option<Piece>> = Vec::new();
    let mut i: usize = 0;
    while i < 64
        invariant
            i <= 64,
            board@.len() == i,
            forall|j: int| 0 <= j < i ==> board@[j] is None,
        decreases 64 - i,
    {
        board.push(None);
        i += 1;
    }
    ChessBoard { board, white_king: None, black_king: None, passant_connection: None }
}

impl ChessBoard {
    /// A borrow of the occupant of a square.
    pub fn get_piece(&self, position: (usize, usize)) -> (r: &Option<Piece>)
        requires
            self@.wf(),
            in_bounds(position.0 as int, position.1 as int),
        ensures
            *r == self@.at(position.0 as int, position.1 as int),
    {
        &self.board[position.0 + 8 * position.1]
    }

    /// The occupant of a square, by value.
    pub fn ref_piece(&self, position: (usize, usize)) -> (r: Option<Piece>)
        requires
            self@.wf(),
            in_bounds(position.0 as int, position.1 as int),
        ensures
            r == self@.at(position.0 as int, position.1 as int),
    {
        self.board[position.0 + 8 * position.1]
    }

    /// A borrow of the whole grid, flat, row by row from rank 1:
    /// the square `(x, y)` lives at index `x + 8 * y`.
    pub fn ref_board(&self) -> (r: &Vec<Option<Piece>>)
        ensures
            r@ == self@.grid,
    {
        &self.board
    }

    /// Places a piece on an empty square. Placing a king of a color
    /// that already has one tracked, or placing onto an occupied
    /// square, is internal misuse: callers must establish these
    /// preconditions rather than rely on an error result.
    pub fn add_piece(&mut self, piece: Piece, position: (usize, usize))
        requires
            old(self)@.wf(),
            piece.valid(),
            in_bounds(position.0 as int, position.1 as int),
            old(self)@.at(position.0 as int, position.1 as int) is None,
            piece.piece_type == PieceType::King && piece.color == Color::White ==> old(
                self,
            )@.white_king is None,
            piece.piece_type == PieceType::King && piece.color == Color::Black ==> old(
                self,
            )@.black_king is None,
        ensures
            final(self)@.wf(),
            final(self)@.grid == old(self)@.grid.update(
                sq(position.0 as int, position.1 as int),
                Some(piece),
            ),
            final(self)@.white_king == if piece.piece_type == PieceType::King && piece.color
                == Color::White {
                Some(ip(position))
            } else {
                old(self)@.white_king
            },
            final(self)@.black_king == if piece.piece_type == PieceType::King && piece.color
                == Color::Black {
                Some(ip(position))
            } else {
                old(self)@.black_king
            },
            final(self)@.link == old(self)@.link,
    {
        if piece.piece_type == PieceType::King {
            if piece.color == Color::White {
                self.white_king = Some(position);
            } else {
                self.black_king = Some(position);
            }
        }
        self.board.set(position.0 + 8 * position.1, Some(piece));
    }

    /// Unconditional relocation ignoring legality: the primitive all
    /// legal moves and what-if simulations build on. Marks the piece as
    /// having moved and updates the cached king position if relevant.
    /// Relocating from an empty square is internal misuse.
    pub fn force_move(&mut self, piece_pos: (usize, usize), new_pos: (usize, usize)) -> (r: Result<
        String,
        String,
    >)
        requires
            old(self)@.wf(),
            in_bounds(piece_pos.0 as int, piece_pos.1 as int),
            in_bounds(new_pos.0 as int, new_pos.1 as int),
            old(self)@.at(piece_pos.0 as int, piece_pos.1 as int) is Some,
        ensures
            final(self)@.wf(),
            final(self)@ == old(self)@.after_force(ip(piece_pos), ip(new_pos)),
            r is Ok,
    {
        let p = match self.board[piece_pos.0 + 8 * piece_pos.1] {
            Some(p) => p,
            None => {
                proof {
                    assert(false);
                }
                return Err(String::from_str("no piece"));
            },
        };
        if p.piece_type == PieceType::King {
            if p.color == Color::White {
                self.white_king = Some(new_pos);
            } else {
                self.black_king = Some(new_pos);
            }
        }
        let moved = Piece { has_moved: true, ..p };
        self.board.set(piece_pos.0 + 8 * piece_pos.1, None);
        self.board.set(new_pos.0 + 8 * new_pos.1, Some(moved));
        Ok(String::from_str("moved"))
    }

    /// Replaces the pawn at `position` with a fresh piece of the same
    /// color and the requested kind. Succeeds exactly when the square
    /// holds a pawn standing on its color's promotion rank and the
    /// requested kind is not a king; the board is untouched on failure.
    pub fn promote(&mut self, position: (usize, usize), piece_type: PieceType) -> (r: Result<
        String,
        String,
    >)
        requires
            old(self)@.wf(),
            in_bounds(position.0 as int, position.1 as int),
        ensures
            final(self)@.wf(),
            ({
                let x = position.0 as int;
                let y = position.1 as int;
                match old(self)@.at(x, y) {
                    Some(p) => {
                        if p.piece_type == PieceType::Pawn && y == (
                        if p.color == Color::White {
                            7int
                        } else {
                            0int
                        }) && piece_type != PieceType::King {
                            &&& r is Ok
                            &&& final(self)@ == BoardModel {
                                grid: old(self)@.grid.update(
                                    sq(x, y),
                                    Some(spec_piece_make(p.color, piece_type)),
                                ),
                                ..old(self)@
                            }
                        } else {
                            r is Err && final(self)@ == old(self)@ && (r->Err_0)@
                                == "Tried to promote unit at wrong place or of wrong type"@
                        }
                    },
                    None => r is Err && final(self)@ == old(self)@ && (r->Err_0)@
                        == "Tried to promote an empty space!"@,
                }
            }),
    {
        let x = position.0;
        let y = position.1;
        match self.board[x + 8 * y] {
            Some(p) => {
                let promotion_rank: usize = if p.color == Color::White {
                    7
                } else {
                    0
                };
                if p.piece_type == PieceType::Pawn && y == promotion_rank && piece_type
                    != PieceType::King {
                    self.board.set(x + 8 * y, Some(piece_make(p.color, piece_type)));
                    Ok(String::from_str("promoted"))
                } else {
                    Err(String::from_str("Tried to promote unit at wrong place or of wrong type"))
                }
            },
            None => Err(String::from_str("Tried to promote an empty space!")),
        }
    }

    /// A full copy of the board, used to simulate a move without
    /// touching live state.
    fn clone_chess(&self) -> (r: ChessBoard)
        ensures
            r@ == self@,
    {
        let mut board: Vec<Option<Piece>> = Vec::new();
        let mut i: usize = 0;
        let n = self.board.len();
        while i < n
            invariant
                i <= n,
                n == self.board@.len(),
                board@.len() == i,
                forall|j: int| 0 <= j < i ==> board@[j] == self.board@[j],
            decreases n - i,
        {
            board.push(self.board[i]);
            i += 1;
        }
        proof {
            assert(board@ =~= self.board@);
        }
        ChessBoard {
            board,
            white_king: self.white_king,
            black_king: self.black_king,
            passant_connection: self.passant_connection,
        }
    }
}

impl ChessBoard {
    /// Probes one step from `position` along `moves`: the landing
    /// square and its occupant, or `None` when the step leaves the
    /// board.
    fn check_move(&self, position: (usize, usize), moves: (i8, i8)) -> (r: Option<
        ((usize, usize), Option<Piece>),
    >)
        requires
            self@.wf(),
            in_bounds(position.0 as int, position.1 as int),
            -16 <= moves.0 <= 16,
            -16 <= moves.1 <= 16,
        ensures
            match r {
                Some((np, occ)) => {
                    &&& step_to(
                        position.0 as int,
                        position.1 as int,
                        (moves.0 as int, moves.1 as int),
                        np.0 as int,
                        np.1 as int,
                    )
                    &&& occ == self@.at(np.0 as int, np.1 as int)
                },
                None => !in_bounds(
                    position.0 as int + moves.0 as int,
                    position.1 as int + moves.1 as int,
                ),
            },
    {
        let nx = position.0 as isize + moves.0 as isize;
        let ny = position.1 as isize + moves.1 as isize;
        if nx < 0 || nx >= 8 || ny < 0 || ny >= 8 {
            return None;
        }
        let np = (nx as usize, ny as usize);
        Some((np, self.ref_piece(np)))
    }

    /// Walks outward from `position` along `direction` one step at a
    /// time: every empty square passed, and then the first occupied
    /// square if the walk was stopped by a piece rather than the edge.
    /// The entries are exactly the squares a ray from `position` along
    /// `direction` reaches.
    fn check_continous(&self, position: (usize, usize), direction: (i8, i8)) -> (r: Vec<
        ((usize, usize), Option<Piece>),
    >)
        requires
            self@.wf(),
            in_bounds(position.0 as int, position.1 as int),
            direction != (0i8, 0i8),
            -8 <= direction.0 <= 8,
            -8 <= direction.1 <= 8,
        ensures
            ({
                let x = position.0 as int;
                let y = position.1 as int;
                let d = (direction.0 as int, direction.1 as int);
                &&& forall|idx: int|
                    0 <= idx < r@.len() ==> {
                        &&& in_bounds(ip((#[trigger] r@[idx]).0).0, ip(r@[idx].0).1)
                        &&& r@[idx].1 == self@.at(ip(r@[idx].0).0, ip(r@[idx].0).1)
                        &&& self@.ray_to(x, y, d, ip(r@[idx].0).0, ip(r@[idx].0).1)
                    }
                &&& forall|tx: int, ty: int|
                    #[trigger] self@.ray_to(x, y, d, tx, ty) ==> exists|idx: int|
                        0 <= idx < r@.len() && ip(r@[idx].0) == (tx, ty)
            }),
    {
        let x = position.0;
        let y = position.1;
        let dx = direction.0;
        let dy = direction.1;
        let ghost xi = x as int;
        let ghost yi = y as int;
        let ghost di = (dx as int, dy as int);
        let mut out: Vec<((usize, usize), Option<Piece>)> = Vec::new();
        let mut k: usize = 1;
        loop
            invariant_except_break
                self@.wf(),
                in_bounds(xi, yi),
                x == xi && y == yi,
                dx as int == di.0 && dy as int == di.1,
                di != (0int, 0int),
                -8 <= di.0 <= 8,
                -8 <= di.1 <= 8,
                1 <= k <= 8,
                forall|j: int|
                    1 <= j < k ==> in_bounds(xi + j * di.0, yi + j * di.1) && (#[trigger] self@.at(
                        xi + j * di.0,
                        yi + j * di.1,
                    )) is None,
                out@.len() == k - 1,
                forall|idx: int|
                    0 <= idx < k - 1 ==> {
                        &&& ip((#[trigger] out@[idx]).0) == (xi + (idx + 1) * di.0, yi + (idx + 1)
                            * di.1)
                        &&& out@[idx].1 == self@.at(xi + (idx + 1) * di.0, yi + (idx + 1) * di.1)
                    },
            ensures
                forall|idx: int|
                    0 <= idx < out@.len() ==> {
                        &&& in_bounds(ip((#[trigger] out@[idx]).0).0, ip(out@[idx].0).1)
                        &&& out@[idx].1 == self@.at(ip(out@[idx].0).0, ip(out@[idx].0).1)
                        &&& self@.ray_to(xi, yi, di, ip(out@[idx].0).0, ip(out@[idx].0).1)
                    },
                forall|tx: int, ty: int|
                    #[trigger] self@.ray_to(xi, yi, di, tx, ty) ==> exists|idx: int|
                        0 <= idx < out@.len() && ip(out@[idx].0) == (tx, ty),
            decreases 8 - k,
        {
            proof {
                assert(-64 <= k as int * dx as int <= 64 && -64 <= k as int * dy as int
                    <= 64) by (nonlinear_arith)
                    requires
                        1 <= k <= 8,
                        -8 <= dx as int <= 8,
                        -8 <= dy as int <= 8,
                ;
            }
            let nx = x as isize + (k as isize) * (dx as isize);
            let ny = y as isize + (k as isize) * (dy as isize);
            proof {
                assert(nx as int == xi + k * di.0);
                assert(ny as int == yi + k * di.1);
            }
            if nx < 0 || nx >= 8 || ny < 0 || ny >= 8 {
                proof {
                    lemma_ray_stops_out(self@, xi, yi, di, k as int, out@);
                }
                break;
            }
            let np = (nx as usize, ny as usize);
            let occ = self.ref_piece(np);
            out.push((np, occ));
            match occ {
                Some(_) => {
                    proof {
                        lemma_ray_stops_occupied(self@, xi, yi, di, k as int, out@);
                    }
                    break;
                },
                None => {},
            }
            proof {
                if k == 8 {
                    lemma_eight_steps_leave(xi, yi, di);
                }
            }
            k += 1;
        }
        out
    }
}

/// The eighth step from an on-board square along a nonzero direction
/// leaves the board.
proof fn lemma_eight_steps_leave(x: int, y: int, d: (int, int))
    requires
        in_bounds(x, y),
        d != (0int, 0int),
    ensures
        !in_bounds(x + 8 * d.0, y + 8 * d.1),
{
    if d.0 >= 1 {
        assert(8 * d.0 >= 8);
    } else if d.0 <= -1 {
        assert(8 * d.0 <= -8);
    } else {
        assert(d.1 != 0);
        if d.1 >= 1 {
            assert(8 * d.1 >= 8);
        } else {
            assert(8 * d.1 <= -8);
        }
    }
}

/// Lexicographic order on board positions, file first.
pub open spec fn pos_lt(a: (usize, usize), b: (usize, usize)) -> bool {
    a.0 < b.0 || (a.0 == b.0 && a.1 < b.1)
}

/// The positions are strictly increasing, so also free of duplicates.
pub open spec fn sorted_moves(s: Seq<(usize, usize)>) -> bool {
    forall|i: int, j: int| 0 <= i < j < s.len() ==> pos_lt(#[trigger] s[i], #[trigger] s[j])
}

/// Any target some derived direction of the template reaches lies on
/// the board.
proof fn lemma_reach_tpl_in_bounds(
    m: BoardModel,
    x: int,
    y: int,
    t: (int, int),
    cont: bool,
    tx: int,
    ty: int,
)
    requires
        m.reach_tpl(x, y, t, cont, tx, ty),
    ensures
        in_bounds(tx, ty),
{
    let i = choose|i: int| 0 <= i < 4 && m.reach_dir(x, y, dir_at(t, i), cont, tx, ty);
    if cont {
        let d = dir_at(t, i);
        let kk = choose|kk: int|
            1 <= kk && tx == x + #[trigger] (kk * d.0) && ty == y + kk * d.1 && in_bounds(tx, ty)
                && m.clear_between(x, y, d, kk);
    }
}

/// A square strictly inside a clear stretch of a ray is an empty board
/// square.
proof fn lemma_clear_between_at(m: BoardModel, x: int, y: int, d: (int, int), kk: int, j: int)
    requires
        m.clear_between(x, y, d, kk),
        1 <= j < kk,
    ensures
        in_bounds(x + j * d.0, y + j * d.1),
        m.at(x + j * d.0, y + j * d.1) is None,
{
}

/// When the walk from `(x, y)` along `d` has passed `k - 1` empty
/// squares and the `k`-th step leaves the board, the passed squares are
/// exactly the squares the ray reaches.
proof fn lemma_ray_stops_out(m: BoardModel, x: int, y: int, d: (int, int), k: int, out: Seq<((usize, usize), Option<Piece>)>)
    requires
        1 <= k,
        !in_bounds(x + k * d.0, y + k * d.1),
        forall|j: int|
            1 <= j < k ==> in_bounds(x + j * d.0, y + j * d.1) && (#[trigger] m.at(
                x + j * d.0,
                y + j * d.1,
            )) is None,
        out.len() == k - 1,
        forall|idx: int|
            0 <= idx < k - 1 ==> {
                &&& ip((#[trigger] out[idx]).0) == (x + (idx + 1) * d.0, y + (idx + 1) * d.1)
                &&& out[idx].1 == m.at(x + (idx + 1) * d.0, y + (idx + 1) * d.1)
            },
    ensures
        forall|idx: int|
            0 <= idx < out.len() ==> {
                &&& in_bounds(ip((#[trigger] out[idx]).0).0, ip(out[idx].0).1)
                &&& out[idx].1 == m.at(ip(out[idx].0).0, ip(out[idx].0).1)
                &&& m.ray_to(x, y, d, ip(out[idx].0).0, ip(out[idx].0).1)
            },
        forall|tx: int, ty: int|
            #[trigger] m.ray_to(x, y, d, tx, ty) ==> exists|idx: int|
                0 <= idx < out.len() && ip(out[idx].0) == (tx, ty),
{
    assert forall|idx: int| 0 <= idx < out.len() implies {
        &&& in_bounds(ip((#[trigger] out[idx]).0).0, ip(out[idx].0).1)
        &&& out[idx].1 == m.at(ip(out[idx].0).0, ip(out[idx].0).1)
        &&& m.ray_to(x, y, d, ip(out[idx].0).0, ip(out[idx].0).1)
    } by {
        let j = idx + 1;
        assert(in_bounds(x + j * d.0, y + j * d.1));
        assert(1 <= j && ip(out[idx].0).0 == x + j * d.0 && ip(out[idx].0).1 == y + j * d.1
            && in_bounds(ip(out[idx].0).0, ip(out[idx].0).1) && m.clear_between(x, y, d, j));
    }
    assert forall|tx: int, ty: int| #[trigger] m.ray_to(x, y, d, tx, ty) implies exists|idx: int|
        0 <= idx < out.len() && ip(out[idx].0) == (tx, ty) by {
        let kk = choose|kk: int|
            1 <= kk && tx == x + #[trigger] (kk * d.0) && ty == y + kk * d.1 && in_bounds(tx, ty)
                && m.clear_between(x, y, d, kk);
        if kk < k {
            assert(ip(out[kk - 1].0) == (tx, ty));
        } else {
            assert(m.clear_between(x, y, d, kk));
            assert(1 <= k < kk);
            assert(tx == x + kk * d.0 && ty == y + kk * d.1 && in_bounds(tx, ty));
            lemma_clear_between_at(m, x, y, d, kk, k);
            assert(false);
        }
    }
}

/// When the walk from `(x, y)` along `d` has passed `k - 1` empty
/// squares and step `k` landed on an occupied square, the passed
/// squares together with that square are exactly the squares the ray
/// reaches.
proof fn lemma_ray_stops_occupied(m: BoardModel, x: int, y: int, d: (int, int), k: int, out: Seq<((usize, usize), Option<Piece>)>)
    requires
        1 <= k,
        in_bounds(x + k * d.0, y + k * d.1),
        m.at(x + k * d.0, y + k * d.1) is Some,
        forall|j: int|
            1 <= j < k ==> in_bounds(x + j * d.0, y + j * d.1) && (#[trigger] m.at(
                x + j * d.0,
                y + j * d.1,
            )) is None,
        out.len() == k,
        forall|idx: int|
            0 <= idx < k ==> {
                &&& ip((#[trigger] out[idx]).0) == (x + (idx + 1) * d.0, y + (idx + 1) * d.1)
                &&& out[idx].1 == m.at(x + (idx + 1) * d.0, y + (idx + 1) * d.1)
            },
    ensures
        forall|idx: int|
            0 <= idx < out.len() ==> {
                &&& in_bounds(ip((#[trigger] out[idx]).0).0, ip(out[idx].0).1)
                &&& out[idx].1 == m.at(ip(out[idx].0).0, ip(out[idx].0).1)
                &&& m.ray_to(x, y, d, ip(out[idx].0).0, ip(out[idx].0).1)
            },
        forall|tx: int, ty: int|
            #[trigger] m.ray_to(x, y, d, tx, ty) ==> exists|idx: int|
                0 <= idx < out.len() && ip(out[idx].0) == (tx, ty),
{
    assert forall|idx: int| 0 <= idx < out.len() implies {
        &&& in_bounds(ip((#[trigger] out[idx]).0).0, ip(out[idx].0).1)
        &&& out[idx].1 == m.at(ip(out[idx].0).0, ip(out[idx].0).1)
        &&& m.ray_to(x, y, d, ip(out[idx].0).0, ip(out[idx].0).1)
    } by {
        let j = idx + 1;
        assert(in_bounds(x + j * d.0, y + j * d.1));
        assert(1 <= j && ip(out[idx].0).0 == x + j * d.0 && ip(out[idx].0).1 == y + j * d.1
            && in_bounds(ip(out[idx].0).0, ip(out[idx].0).1) && m.clear_between(x, y, d, j));
    }
    assert forall|tx: int, ty: int| #[trigger] m.ray_to(x, y, d, tx, ty) implies exists|idx: int|
        0 <= idx < out.len() && ip(out[idx].0) == (tx, ty) by {
        let kk = choose|kk: int|
            1 <= kk && tx == x + #[trigger] (kk * d.0) && ty == y + kk * d.1 && in_bounds(tx, ty)
                && m.clear_between(x, y, d, kk);
        if kk <= k {
            assert(ip(out[kk - 1].0) == (tx, ty));
        } else {
            assert(!(m.at(x + k * d.0, y + k * d.1) is None));
            assert(false);
        }
    }
}

/// Inserts a position into a strictly increasing vector, keeping it
/// strictly increasing; inserting a present position changes nothing.
fn insert_move(v: &mut Vec<(usize, usize)>, m: (usize, usize))
    requires
        sorted_moves(old(v)@),
    ensures
        sorted_moves(final(v)@),
        forall|t: (usize, usize)| final(v)@.contains(t) <==> (old(v)@.contains(t) || t == m),
{
    let ghost orig = v@;
    let mut i: usize = 0;
    while i < v.len() && (v[i].0 < m.0 || (v[i].0 == m.0 && v[i].1 < m.1))
        invariant
            v@ == orig,
            sorted_moves(v@),
            i <= v@.len(),
            forall|j: int| 0 <= j < i ==> pos_lt(#[trigger] v@[j], m),
        decreases v@.len() - i,
    {
        i += 1;
    }
    if i < v.len() {
        let a = v[i];
        if a.0 == m.0 && a.1 == m.1 {
            proof {
                assert(v@[i as int] == m);
                assert(v@.contains(m));
            }
            return ;
        }
        proof {
            assert(pos_lt(m, v@[i as int]));
        }
    }
    v.insert(i, m);
    proof {
        orig.insert_ensures(i as int, m);
        assert forall|a: int, b: int| 0 <= a < b < v@.len() implies pos_lt(v@[a], v@[b]) by {
            if b < i {
                assert(v@[a] == orig[a] && v@[b] == orig[b]);
            } else if a < i && b == i {
                assert(v@[a] == orig[a] && v@[b] == m);
            } else if a < i && b > i {
                assert(v@[a] == orig[a] && v@[b] == orig[b - 1]);
                if a < b - 1 {
                    assert(pos_lt(orig[a], orig[b - 1]));
                } else {
                    assert(pos_lt(orig[a], m) && pos_lt(m, orig[i as int]));
                    assert(b - 1 == i);
                }
            } else if a == i {
                assert(v@[a] == m && v@[b] == orig[b - 1]);
                assert(pos_lt(m, orig[i as int]));
                if b - 1 > i {
                    assert(pos_lt(orig[i as int], orig[b - 1]));
                }
            } else {
                assert(v@[a] == orig[a - 1] && v@[b] == orig[b - 1]);
            }
        }
        assert forall|t: (usize, usize)| v@.contains(t) implies (orig.contains(t) || t == m) by {
            let idx = choose|idx: int| 0 <= idx < v@.len() && v@[idx] == t;
            if idx < i {
                assert(orig[idx] == t);
                assert(orig.contains(t));
            } else if idx > i {
                assert(orig[idx - 1] == t);
                assert(orig.contains(t));
            }
        }
        assert forall|t: (usize, usize)| (orig.contains(t) || t == m) implies v@.contains(t) by {
            if t == m {
                assert(v@[i as int] == t);
            } else {
                let idx = choose|idx: int| 0 <= idx < orig.len() && orig[idx] == t;
                if idx < i {
                    assert(v@[idx] == t);
                } else {
                    assert(v@[idx + 1] == t);
                }
            }
        }
    }
}

impl ChessBoard {
    /// Gathers onto `out` the squares reachable from `position` along
    /// the single direction `d`: the one stepped square, or the swept
    /// ray, together with the occupants. Entries already on `out` are
    /// kept in place.
    fn collect_dir(
        &self,
        out: &mut Vec<((usize, usize), Option<Piece>)>,
        position: (usize, usize),
        d: (i8, i8),
        cont: bool,
    )
        requires
            self@.wf(),
            in_bounds(position.0 as int, position.1 as int),
            d != (0i8, 0i8),
            -8 <= d.0 <= 8,
            -8 <= d.1 <= 8,
        ensures
            final(out)@.len() >= old(out)@.len(),
            forall|idx: int| 0 <= idx < old(out)@.len() ==> final(out)@[idx] == old(out)@[idx],
            forall|idx: int|
                old(out)@.len() <= idx < final(out)@.len() ==> {
                    &&& in_bounds(ip((#[trigger] final(out)@[idx]).0).0, ip(final(out)@[idx].0).1)
                    &&& final(out)@[idx].1 == self@.at(
                        ip(final(out)@[idx].0).0,
                        ip(final(out)@[idx].0).1,
                    )
                    &&& self@.reach_dir(
                        position.0 as int,
                        position.1 as int,
                        (d.0 as int, d.1 as int),
                        cont,
                        ip(final(out)@[idx].0).0,
                        ip(final(out)@[idx].0).1,
                    )
                },
            forall|tx: int, ty: int|
                #[trigger] self@.reach_dir(
                    position.0 as int,
                    position.1 as int,
                    (d.0 as int, d.1 as int),
                    cont,
                    tx,
                    ty,
                ) ==> exists|idx: int| 0 <= idx < final(out)@.len() && ip(final(out)@[idx].0) == (tx, ty),
    {
        let ghost x = position.0 as int;
        let ghost y = position.1 as int;
        let ghost di = (d.0 as int, d.1 as int);
        let ghost base = out@.len() as int;
        if cont {
            let mut part = self.check_continous(position, d);
            let ghost pv = part@;
            out.append(&mut part);
            proof {
                assert forall|tx: int, ty: int| #[trigger] self@.ray_to(x, y, di, tx, ty) implies exists|idx: int|
                    0 <= idx < out@.len() && ip(out@[idx].0) == (tx, ty) by {
                    let pidx = choose|pidx: int| 0 <= pidx < pv.len() && ip(pv[pidx].0) == (tx, ty);
                    assert(out@[base + pidx] == pv[pidx]);
                }
            }
        } else {
            match self.check_move(position, d) {
                Some(entry) => {
                    out.push(entry);
                    proof {
                        assert(out@[base] == entry);
                        assert forall|tx: int, ty: int|
                            step_to(x, y, di, tx, ty) implies exists|idx: int|
                            0 <= idx < out@.len() && ip(out@[idx].0) == (tx, ty) by {
                            assert(ip(out@[base].0) == (tx, ty));
                        }
                    }
                },
                None => {},
            }
        }
    }

    /// The squares reachable from `position` by the template `moveset`
    /// mirrored into its four derived directions, swept as rays when
    /// `moves_continous` holds, together with their occupants.
    fn check_around(
        &self,
        position: (usize, usize),
        moveset: (i8, i8),
        moves_continous: bool,
    ) -> (r: Vec<((usize, usize), Option<Piece>)>)
        requires
            self@.wf(),
            in_bounds(position.0 as int, position.1 as int),
            moveset != (0i8, 0i8),
            -8 <= moveset.0 <= 8,
            -8 <= moveset.1 <= 8,
        ensures
            forall|idx: int|
                0 <= idx < r@.len() ==> {
                    &&& in_bounds(ip((#[trigger] r@[idx]).0).0, ip(r@[idx].0).1)
                    &&& r@[idx].1 == self@.at(ip(r@[idx].0).0, ip(r@[idx].0).1)
                    &&& self@.reach_tpl(
                        position.0 as int,
                        position.1 as int,
                        tpl(moveset),
                        moves_continous,
                        ip(r@[idx].0).0,
                        ip(r@[idx].0).1,
                    )
                },
            forall|tx: int, ty: int|
                #[trigger] self@.reach_tpl(
                    position.0 as int,
                    position.1 as int,
                    tpl(moveset),
                    moves_continous,
                    tx,
                    ty,
                ) ==> exists|idx: int| 0 <= idx < r@.len() && ip(r@[idx].0) == (tx, ty),
    {
        let mx = moveset.0;
        let my = moveset.1;
        let ghost x = position.0 as int;
        let ghost y = position.1 as int;
        let ghost m = tpl(moveset);
        let ghost cont = moves_continous;
        let mut out: Vec<((usize, usize), Option<Piece>)> = Vec::new();
        if mx == 0 || my == 0 {
            proof {
                assert(dir_at(m, 0) == (m.0, m.1));
                assert(dir_at(m, 1) == (m.0, -m.1));
                assert(dir_at(m, 2) == (-m.1, m.0));
                assert(dir_at(m, 3) == (m.1, m.0));
            }
            self.collect_dir(&mut out, position, (mx, my), moves_continous);
            self.collect_dir(&mut out, position, (mx, -my), moves_continous);
            self.collect_dir(&mut out, position, (-my, mx), moves_continous);
            self.collect_dir(&mut out, position, (my, mx), moves_continous);
        } else {
            proof {
                assert(dir_at(m, 0) == (m.0, m.1));
                assert(dir_at(m, 1) == (m.0, -m.1));
                assert(dir_at(m, 2) == (-m.0, m.1));
                assert(dir_at(m, 3) == (-m.0, -m.1));
            }
            self.collect_dir(&mut out, position, (mx, my), moves_continous);
            self.collect_dir(&mut out, position, (mx, -my), moves_continous);
            self.collect_dir(&mut out, position, (-mx, my), moves_continous);
            self.collect_dir(&mut out, position, (-mx, -my), moves_continous);
        }
        proof {
            assert forall|tx: int, ty: int|
                #[trigger] self@.reach_tpl(x, y, m, cont, tx, ty) implies exists|idx: int|
                0 <= idx < out@.len() && ip(out@[idx].0) == (tx, ty) by {
                let i = choose|i: int| 0 <= i < 4 && self@.reach_dir(x, y, dir_at(m, i), cont, tx, ty);
                assert(i == 0 || i == 1 || i == 2 || i == 3);
            }
            assert forall|idx: int| 0 <= idx < out@.len() implies {
                &&& in_bounds(ip((#[trigger] out@[idx]).0).0, ip(out@[idx].0).1)
                &&& out@[idx].1 == self@.at(ip(out@[idx].0).0, ip(out@[idx].0).1)
                &&& self@.reach_tpl(x, y, m, cont, ip(out@[idx].0).0, ip(out@[idx].0).1)
            } by {
                assert(exists|i: int|
                    0 <= i < 4 && self@.reach_dir(
                        x,
                        y,
                        dir_at(m, i),
                        cont,
                        ip(out@[idx].0).0,
                        ip(out@[idx].0).1,
                    ));
            }
        }
        out
    }
}

impl ChessBoard {
    /// Whether `np` is the currently capturable en-passant square for a
    /// piece of color `color`.
    fn passant_ok(&self, np: (usize, usize), color: Color) -> (r: bool)
        requires
            self@.wf(),
            in_bounds(np.0 as int, np.1 as int),
        ensures
            r == self@.passant_target(np.0 as int, np.1 as int, color),
    {
        match self.passant_connection {
            Some((cap, pq)) => {
                if cap.0 == np.0 && cap.1 == np.1 {
                    match self.ref_piece(np) {
                        None => match self.ref_piece(pq) {
                            Some(q) => q.color != color,
                            None => false,
                        },
                        Some(_) => false,
                    }
                } else {
                    false
                }
            },
            None => false,
        }
    }

    /// Probes one pawn step with file offset `dx` and gathers the
    /// target onto `results` when the step is available.
    fn pawn_probe(
        &self,
        results: &mut Vec<(usize, usize)>,
        position: (usize, usize),
        color: Color,
        dx: i8,
    )
        requires
            self@.wf(),
            in_bounds(position.0 as int, position.1 as int),
            -1 <= dx <= 1,
            sorted_moves(old(results)@),
        ensures
            sorted_moves(final(results)@),
            forall|t: (usize, usize)|
                final(results)@.contains(t) <==> (old(results)@.contains(t) || self@.pawn_step_ok(
                    color,
                    position.0 as int,
                    position.1 as int,
                    dx as int,
                    t.0 as int,
                    t.1 as int,
                )),
    {
        let c: i8 = if color == Color::White {
            1
        } else {
            -1
        };
        match self.check_move(position, (dx, c)) {
            Some((np, occ)) => {
                let take: bool = if dx == 0 {
                    match occ {
                        None => true,
                        Some(_) => false,
                    }
                } else {
                    match occ {
                        Some(q) => q.color != color,
                        None => self.passant_ok(np, color),
                    }
                };
                if take {
                    insert_move(results, np);
                }
                proof {
                    assert forall|t: (usize, usize)|
                        self@.pawn_step_ok(
                            color,
                            position.0 as int,
                            position.1 as int,
                            dx as int,
                            t.0 as int,
                            t.1 as int,
                        ) implies t == np by {}
                }
            },
            None => {},
        }
    }

    /// Filters the probed squares of `spaces` onto `results`: a square
    /// qualifies unless it holds a piece of the mover's own color.
    fn filter_spaces(
        &self,
        results: &mut Vec<(usize, usize)>,
        spaces: &Vec<((usize, usize), Option<Piece>)>,
        color: Color,
    )
        requires
            self@.wf(),
            sorted_moves(old(results)@),
            forall|idx: int|
                0 <= idx < spaces@.len() ==> {
                    &&& in_bounds(ip((#[trigger] spaces@[idx]).0).0, ip(spaces@[idx].0).1)
                    &&& spaces@[idx].1 == self@.at(ip(spaces@[idx].0).0, ip(spaces@[idx].0).1)
                },
        ensures
            sorted_moves(final(results)@),
            forall|t: (usize, usize)|
                final(results)@.contains(t) <==> (old(results)@.contains(t) || (exists|idx: int|
                    0 <= idx < spaces@.len() && (#[trigger] spaces@[idx]).0 == t && !self@.own_at(
                        t.0 as int,
                        t.1 as int,
                        color,
                    ))),
    {
        let ghost orig = results@;
        let mut i: usize = 0;
        while i < spaces.len()
            invariant
                self@.wf(),
                sorted_moves(results@),
                i <= spaces@.len(),
                forall|idx: int|
                    0 <= idx < spaces@.len() ==> {
                        &&& in_bounds(ip((#[trigger] spaces@[idx]).0).0, ip(spaces@[idx].0).1)
                        &&& spaces@[idx].1 == self@.at(ip(spaces@[idx].0).0, ip(spaces@[idx].0).1)
                    },
                forall|t: (usize, usize)|
                    results@.contains(t) <==> (orig.contains(t) || (exists|idx: int|
                        0 <= idx < i && (#[trigger] spaces@[idx]).0 == t && !self@.own_at(
                            t.0 as int,
                            t.1 as int,
                            color,
                        ))),
            decreases spaces@.len() - i,
        {
            let (mp, occ) = spaces[i];
            let take: bool = match occ {
                None => true,
                Some(q) => q.color != color,
            };
            let ghost pre = results@;
            if take {
                insert_move(results, mp);
            }
            let ghost iold = i as int;
            i += 1;
            proof {
                assert(spaces@[iold].0 == mp);
                assert(take == !self@.own_at(mp.0 as int, mp.1 as int, color));
                assert forall|t: (usize, usize)|
                    results@.contains(t) <==> (orig.contains(t) || (exists|idx: int|
                        0 <= idx < i && (#[trigger] spaces@[idx]).0 == t && !self@.own_at(
                            t.0 as int,
                            t.1 as int,
                            color,
                        ))) by {
                    if results@.contains(t) && !orig.contains(t) {
                        if pre.contains(t) {
                            let idx = choose|idx: int|
                                0 <= idx < iold && (#[trigger] spaces@[idx]).0 == t && !self@.own_at(
                                    t.0 as int,
                                    t.1 as int,
                                    color,
                                );
                            assert(0 <= idx < i && spaces@[idx].0 == t && !self@.own_at(
                                t.0 as int,
                                t.1 as int,
                                color,
                            ));
                        } else {
                            assert(take && t == mp);
                            assert(0 <= iold < i && spaces@[iold].0 == t && !self@.own_at(
                                t.0 as int,
                                t.1 as int,
                                color,
                            ));
                        }
                    }
                    if orig.contains(t) {
                        assert(pre.contains(t));
                        assert(results@.contains(t));
                    } else if exists|idx: int|
                        0 <= idx < i && (#[trigger] spaces@[idx]).0 == t && !self@.own_at(
                            t.0 as int,
                            t.1 as int,
                            color,
                        ) {
                        let idx = choose|idx: int|
                            0 <= idx < i && (#[trigger] spaces@[idx]).0 == t && !self@.own_at(
                                t.0 as int,
                                t.1 as int,
                                color,
                            );
                        if idx < iold {
                            assert(pre.contains(t));
                            assert(results@.contains(t));
                        } else {
                            assert(t == mp && take);
                            assert(results@.contains(t));
                        }
                    }
                }
            }
        }
    }

    /// The deduplicated, lexicographically ordered regular destinations
    /// of the piece at `position`: exactly the squares the board's
    /// geometry lets it move to, self-check not yet considered. An
    /// empty square has no moves.
    pub fn regular_moves(&self, position: (usize, usize)) -> (r: Vec<(usize, usize)>)
        requires
            self@.wf(),
            in_bounds(position.0 as int, position.1 as int),
        ensures
            sorted_moves(r@),
            forall|t: (usize, usize)|
                r@.contains(t) <==> self@.regular_move_ok(ip(position), ip(t)),
    {
        let ghost x = position.0 as int;
        let ghost y = position.1 as int;
        let mut results: Vec<(usize, usize)> = Vec::new();
        let piece = match self.ref_piece(position) {
            Some(p) => p,
            None => {
                return results;
            },
        };
        proof {
            assert(self@.grid[sq(x, y)] == Some(piece));
            assert(piece.valid());
        }
        if piece.piece_type == PieceType::Pawn {
            self.pawn_probe(&mut results, position, piece.color, 0);
            self.pawn_probe(&mut results, position, piece.color, 1);
            self.pawn_probe(&mut results, position, piece.color, -1);
            proof {
                assert forall|t: (usize, usize)|
                    results@.contains(t) <==> self@.regular_move_ok(ip(position), ip(t)) by {
                    if results@.contains(t) {
                        assert(in_bounds(t.0 as int, t.1 as int));
                    }
                }
            }
        } else {
            let cont = piece.moves_continous;
            let spaces = self.check_around(position, piece.movement.0, cont);
            self.filter_spaces(&mut results, &spaces, piece.color);
            let ghost mid = results@;
            match piece.movement.1 {
                Some(m2) => {
                    let spaces2 = self.check_around(position, m2, cont);
                    self.filter_spaces(&mut results, &spaces2, piece.color);
                    proof {
                        assert forall|t: (usize, usize)|
                            results@.contains(t) <==> self@.regular_move_ok(
                                ip(position),
                                ip(t),
                            ) by {
                            let tx = t.0 as int;
                            let ty = t.1 as int;
                            if results@.contains(t) {
                                if mid.contains(t) {
                                    let idx = choose|idx: int|
                                        0 <= idx < spaces@.len() && (#[trigger] spaces@[idx]).0
                                            == t && !self@.own_at(tx, ty, piece.color);
                                    assert(self@.reach_tpl(x, y, tpl(piece.movement.0), cont, tx, ty));
                                } else {
                                    let idx = choose|idx: int|
                                        0 <= idx < spaces2@.len() && (#[trigger] spaces2@[idx]).0
                                            == t && !self@.own_at(tx, ty, piece.color);
                                    assert(self@.reach_tpl(x, y, tpl(m2), cont, tx, ty));
                                }
                            }
                            if self@.regular_move_ok(ip(position), ip(t)) {
                                if self@.reach_tpl(x, y, tpl(piece.movement.0), cont, tx, ty) {
                                    let idx = choose|idx: int|
                                        0 <= idx < spaces@.len() && ip((#[trigger] spaces@[idx]).0)
                                            == (tx, ty);
                                    assert(spaces@[idx].0 == t);
                                    assert(mid.contains(t));
                                } else {
                                    assert(self@.reach_tpl(x, y, tpl(m2), cont, tx, ty));
                                    let idx = choose|idx: int|
                                        0 <= idx < spaces2@.len() && ip(
                                            (#[trigger] spaces2@[idx]).0,
                                        ) == (tx, ty);
                                    assert(spaces2@[idx].0 == t);
                                }
                                assert(results@.contains(t));
                            }
                        }
                    }
                },
                None => {
                    proof {
                        assert forall|t: (usize, usize)|
                            results@.contains(t) <==> self@.regular_move_ok(
                                ip(position),
                                ip(t),
                            ) by {
                            let tx = t.0 as int;
                            let ty = t.1 as int;
                            if results@.contains(t) {
                                let idx = choose|idx: int|
                                    0 <= idx < spaces@.len() && (#[trigger] spaces@[idx]).0 == t
                                        && !self@.own_at(tx, ty, piece.color);
                                assert(self@.reach_tpl(x, y, tpl(piece.movement.0), cont, tx, ty));
                            }
                            if self@.regular_move_ok(ip(position), ip(t)) {
                                assert(self@.reach_tpl(x, y, tpl(piece.movement.0), cont, tx, ty));
                                let idx = choose|idx: int|
                                    0 <= idx < spaces@.len() && ip((#[trigger] spaces@[idx]).0) == (
                                    tx,
                                    ty,
                                );
                                assert(spaces@[idx].0 == t);
                                assert(results@.contains(t));
                            }
                        }
                    }
                },
            }
        }
        results
    }
}

impl BoardModel {
    /// Some enemy piece of `c`'s opponent has a regular move onto
    /// `(tx, ty)`.
    pub open spec fn threatened(self, tx: int, ty: int, c: Color) -> bool {
        exists|px: int, py: int|
            in_bounds(px, py) && #[trigger] self.enemy_at(px, py, c) && self.regular_move_ok(
                (px, py),
                (tx, ty),
            )
    }

    /// The color's tracked king stands on a threatened square. A board
    /// without that king is not in check.
    pub open spec fn checked(self, c: Color) -> bool {
        match self.king_pos(c) {
            Some(k) => self.threatened(k.0, k.1, c),
            None => false,
        }
    }

    /// The move `from -> to` captures en passant: a pawn moves
    /// diagonally onto the linked capturable square.
    pub open spec fn passant_capture(self, from: (int, int), to: (int, int)) -> bool {
        &&& match self.at(from.0, from.1) {
            Some(p) => p.piece_type == PieceType::Pawn,
            None => false,
        }
        &&& match self.link {
            Some((cap, pq)) => to == cap && from.0 != to.0,
            None => false,
        }
    }

    /// The state a regular move `from -> to` leads to: the relocation,
    /// plus the removal of the captured pawn when the move captures en
    /// passant. The link itself is untouched here; move application
    /// replaces it separately.
    pub open spec fn after_sim(self, from: (int, int), to: (int, int)) -> BoardModel {
        let f = self.after_force(from, to);
        if self.passant_capture(from, to) {
            let pq = self.link->Some_0.1;
            BoardModel { grid: f.grid.update(sq(pq.0, pq.1), None), ..f }
        } else {
            f
        }
    }
}

impl ChessBoard {
    /// Whether the piece at `from` has a regular move onto `target`.
    fn reaches(&self, from: (usize, usize), target: (usize, usize)) -> (r: bool)
        requires
            self@.wf(),
            in_bounds(from.0 as int, from.1 as int),
            in_bounds(target.0 as int, target.1 as int),
        ensures
            r == self@.regular_move_ok(ip(from), ip(target)),
    {
        let mvs = self.regular_moves(from);
        let mut i: usize = 0;
        while i < mvs.len()
            invariant
                i <= mvs@.len(),
                sorted_moves(mvs@),
                forall|t: (usize, usize)|
                    mvs@.contains(t) <==> self@.regular_move_ok(ip(from), ip(t)),
                forall|j: int| 0 <= j < i ==> #[trigger] mvs@[j] != target,
            decreases mvs@.len() - i,
        {
            let t = mvs[i];
            if t.0 == target.0 && t.1 == target.1 {
                proof {
                    assert(mvs@[i as int] == target);
                    assert(mvs@.contains(target));
                }
                return true;
            }
            i += 1;
        }
        proof {
            if self@.regular_move_ok(ip(from), ip(target)) {
                assert(mvs@.contains(target));
                let j = choose|j: int| 0 <= j < mvs@.len() && mvs@[j] == target;
                assert(false);
            }
        }
        false
    }

    /// Whether any piece of the color opposing `color` has a regular
    /// move onto `pos`: the square is under threat. Every enemy piece's
    /// own regular move set decides, so the answer follows piece
    /// semantics rather than a hardcoded attack table.
    fn is_threatened(&self, pos: (usize, usize), color: Color) -> (r: bool)
        requires
            self@.wf(),
            in_bounds(pos.0 as int, pos.1 as int),
        ensures
            r == self@.threatened(pos.0 as int, pos.1 as int, color),
    {
        let mut idx: usize = 0;
        while idx < 64
            invariant
                self@.wf(),
                in_bounds(pos.0 as int, pos.1 as int),
                idx <= 64,
                forall|px: int, py: int|
                    in_bounds(px, py) && sq(px, py) < idx ==> !(#[trigger] self@.enemy_at(
                        px,
                        py,
                        color,
                    ) && self@.regular_move_ok((px, py), ip(pos))),
            decreases 64 - idx,
        {
            let px = idx % 8;
            let py = idx / 8;
            proof {
                assert(sq(px as int, py as int) == idx);
            }
            let threat: bool = match self.ref_piece((px, py)) {
                Some(q) => q.color != color,
                None => false,
            };
            if threat {
                if self.reaches((px, py), pos) {
                    proof {
                        assert(in_bounds(px as int, py as int) && self@.enemy_at(
                            px as int,
                            py as int,
                            color,
                        ) && self@.regular_move_ok(
                            (px as int, py as int),
                            (pos.0 as int, pos.1 as int),
                        ));
                    }
                    return true;
                }
            }
            proof {
                assert(!(self@.enemy_at(px as int, py as int, color) && self@.regular_move_ok(
                    (px as int, py as int),
                    ip(pos),
                )));
                assert forall|qx: int, qy: int|
                    in_bounds(qx, qy) && sq(qx, qy) < idx + 1 implies !(#[trigger] self@.enemy_at(
                        qx,
                        qy,
                        color,
                    ) && self@.regular_move_ok((qx, qy), ip(pos))) by {
                    if sq(qx, qy) == idx {
                        assert(qx == px as int && qy == py as int);
                    }
                }
            }
            idx += 1;
        }
        proof {
            if self@.threatened(pos.0 as int, pos.1 as int, color) {
                let (px, py) = choose|px: int, py: int|
                    in_bounds(px, py) && #[trigger] self@.enemy_at(px, py, color)
                        && self@.regular_move_ok((px, py), ip(pos));
                assert(sq(px, py) < 64);
                assert(false);
            }
        }
        false
    }

    /// Whether an enemy piece found by probing outward from `pos` along
    /// the four directions derived from `moveset` (swept as rays when
    /// `check_continous` holds) has a regular move back onto `pos`.
    pub fn is_threatened_by(
        &self,
        pos: (usize, usize),
        color: Color,
        moveset: (i8, i8),
        check_continous: bool,
    ) -> (r: bool)
        requires
            self@.wf(),
            in_bounds(pos.0 as int, pos.1 as int),
            moveset != (0i8, 0i8),
            -8 <= moveset.0 <= 8,
            -8 <= moveset.1 <= 8,
        ensures
            r == exists|qx: int, qy: int|
                in_bounds(qx, qy) && #[trigger] self@.reach_tpl(
                    pos.0 as int,
                    pos.1 as int,
                    tpl(moveset),
                    check_continous,
                    qx,
                    qy,
                ) && self@.enemy_at(qx, qy, color) && self@.regular_move_ok((qx, qy), ip(pos)),
    {
        let spaces = self.check_around(pos, moveset, check_continous);
        let mut i: usize = 0;
        while i < spaces.len()
            invariant
                self@.wf(),
                in_bounds(pos.0 as int, pos.1 as int),
                i <= spaces@.len(),
                forall|idx: int|
                    0 <= idx < spaces@.len() ==> {
                        &&& in_bounds(ip((#[trigger] spaces@[idx]).0).0, ip(spaces@[idx].0).1)
                        &&& spaces@[idx].1 == self@.at(ip(spaces@[idx].0).0, ip(spaces@[idx].0).1)
                        &&& self@.reach_tpl(
                            pos.0 as int,
                            pos.1 as int,
                            tpl(moveset),
                            check_continous,
                            ip(spaces@[idx].0).0,
                            ip(spaces@[idx].0).1,
                        )
                    },
                forall|tx: int, ty: int|
                    #[trigger] self@.reach_tpl(
                        pos.0 as int,
                        pos.1 as int,
                        tpl(moveset),
                        check_continous,
                        tx,
                        ty,
                    ) ==> exists|idx: int| 0 <= idx < spaces@.len() && ip(spaces@[idx].0) == (tx, ty),
                forall|j: int|
                    0 <= j < i ==> !(self@.enemy_at(
                        ip((#[trigger] spaces@[j]).0).0,
                        ip(spaces@[j].0).1,
                        color,
                    ) && self@.regular_move_ok(ip(spaces@[j].0), ip(pos))),
            decreases spaces@.len() - i,
        {
            let (sp, occ) = spaces[i];
            let threat: bool = match occ {
                Some(q) => q.color != color,
                None => false,
            };
            if threat {
                if self.reaches(sp, pos) {
                    proof {
                        assert(self@.enemy_at(ip(spaces@[i as int].0).0, ip(spaces@[i as int].0).1, color));
                    }
                    return true;
                }
            }
            i += 1;
        }
        proof {
            if exists|qx: int, qy: int|
                in_bounds(qx, qy) && #[trigger] self@.reach_tpl(
                    pos.0 as int,
                    pos.1 as int,
                    tpl(moveset),
                    check_continous,
                    qx,
                    qy,
                ) && self@.enemy_at(qx, qy, color) && self@.regular_move_ok((qx, qy), ip(pos)) {
                let (qx, qy) = choose|qx: int, qy: int|
                    in_bounds(qx, qy) && #[trigger] self@.reach_tpl(
                        pos.0 as int,
                        pos.1 as int,
                        tpl(moveset),
                        check_continous,
                        qx,
                        qy,
                    ) && self@.enemy_at(qx, qy, color) && self@.regular_move_ok((qx, qy), ip(pos));
                let idx = choose|idx: int| 0 <= idx < spaces@.len() && ip(spaces@[idx].0) == (qx, qy);
                assert(false);
            }
        }
        false
    }

    /// Whether the color's tracked king is in check. A board without a
    /// tracked king of that color is not in check.
    pub fn is_checked(&self, color: Color) -> (r: bool)
        requires
            self@.wf(),
        ensures
            r == self@.checked(color),
    {
        let king_pos = if color == Color::White {
            self.white_king
        } else {
            self.black_king
        };
        match king_pos {
            Some(k) => self.is_threatened(k, color),
            None => false,
        }
    }

    /// Empties one square, leaving everything else alone.
    fn clear_square(&mut self, position: (usize, usize))
        requires
            old(self)@.wf(),
            in_bounds(position.0 as int, position.1 as int),
        ensures
            final(self)@.wf(),
            final(self)@ == (BoardModel {
                grid: old(self)@.grid.update(sq(position.0 as int, position.1 as int), None),
                ..old(self)@
            }),
    {
        self.board.set(position.0 + 8 * position.1, None);
    }

    /// Simulates the regular move `move_from -> move_to` on a copy of
    /// the board, en-passant capture included, and reports whether the
    /// mover's own king is in check afterwards.
    pub fn self_check(&self, move_from: (usize, usize), move_to: (usize, usize)) -> (r: bool)
        requires
            self@.wf(),
            in_bounds(move_from.0 as int, move_from.1 as int),
            in_bounds(move_to.0 as int, move_to.1 as int),
            self@.at(move_from.0 as int, move_from.1 as int) is Some,
        ensures
            r == self@.after_sim(ip(move_from), ip(move_to)).checked(
                self@.at(move_from.0 as int, move_from.1 as int)->Some_0.color,
            ),
    {
        let mut test = self.clone_chess();
        let piece = match test.ref_piece(move_from) {
            Some(p) => p,
            None => {
                proof {
                    assert(false);
                }
                return false;
            },
        };
        let color = piece.color;
        let _ = test.force_move(move_from, move_to);
        if piece.piece_type == PieceType::Pawn {
            match self.passant_connection {
                Some((cap, pq)) => {
                    if cap.0 == move_to.0 && cap.1 == move_to.1 && move_from.0 != move_to.0 {
                        test.clear_square(pq);
                    }
                },
                None => {},
            }
        }
        proof {
            assert(test@ =~= self@.after_sim(ip(move_from), ip(move_to)));
        }
        test.is_checked(color)
    }
}

impl BoardModel {
    /// A pawn double-step is available from `pos`: an unmoved pawn
    /// stands there and both the one-step and two-step squares ahead
    /// are empty.
    pub open spec fn double_step_ok(self, pos: (int, int)) -> bool {
        match self.at(pos.0, pos.1) {
            Some(p) => {
                let dy: int = if p.color == Color::White {
                    1
                } else {
                    -1
                };
                &&& p.piece_type == PieceType::Pawn
                &&& !p.has_moved
                &&& in_bounds(pos.0, pos.1 + 2 * dy)
                &&& self.at(pos.0, pos.1 + dy) is None
                &&& self.at(pos.0, pos.1 + 2 * dy) is None
            },
            None => false,
        }
    }

    /// Where the double-step from `pos` lands.
    pub open spec fn double_step_target(self, pos: (int, int)) -> (int, int) {
        let p = self.at(pos.0, pos.1)->Some_0;
        let dy: int = if p.color == Color::White {
            1
        } else {
            -1
        };
        (pos.0, pos.1 + 2 * dy)
    }

    /// Castling toward the king-side or queen-side rook is available
    /// for the king on `pos`: king and rook unmoved on their home
    /// squares, every square strictly between them empty, and none of
    /// the king's start, transit and landing squares threatened.
    pub open spec fn castle_ok(self, pos: (int, int), kingside: bool) -> bool {
        match self.at(pos.0, pos.1) {
            Some(p) => {
                let home: int = if p.color == Color::White {
                    0
                } else {
                    7
                };
                let rx: int = if kingside {
                    7
                } else {
                    0
                };
                &&& p.piece_type == PieceType::King
                &&& !p.has_moved
                &&& pos == (4int, home)
                &&& match self.at(rx, home) {
                    Some(r) => r.piece_type == PieceType::Rook && r.color == p.color
                        && !r.has_moved,
                    None => false,
                }
                &&& if kingside {
                    self.at(5, home) is None && self.at(6, home) is None
                } else {
                    self.at(1, home) is None && self.at(2, home) is None && self.at(3, home)
                        is None
                }
                &&& !self.threatened(4, home, p.color)
                &&& if kingside {
                    !self.threatened(5, home, p.color) && !self.threatened(6, home, p.color)
                } else {
                    !self.threatened(3, home, p.color) && !self.threatened(2, home, p.color)
                }
            },
            None => false,
        }
    }

    /// The color's home rank.
    pub open spec fn home_rank(self, pos: (int, int)) -> int {
        if self.at(pos.0, pos.1)->Some_0.color == Color::White {
            0
        } else {
            7
        }
    }
}

/// The special moves available from `pos`, in the order the generator
/// reports them: the pawn double-step, then king-side castling, then
/// queen-side castling, each present exactly when available.
pub open spec fn spec_special_moves(m: BoardModel, pos: (usize, usize)) -> Seq<
    ((usize, usize), SpecialMove),
> {
    let t = m.double_step_target(ip(pos));
    let home = m.home_rank(ip(pos));
    (if m.double_step_ok(ip(pos)) {
        seq![(((t.0 as usize, t.1 as usize)), SpecialMove::Pawn2Step)]
    } else {
        Seq::empty()
    }) + (if m.castle_ok(ip(pos), true) {
        seq![(((6usize, home as usize)), SpecialMove::CastlingRight)]
    } else {
        Seq::empty()
    }) + (if m.castle_ok(ip(pos), false) {
        seq![(((2usize, home as usize)), SpecialMove::CastlingLeft)]
    } else {
        Seq::empty()
    })
}

impl ChessBoard {
    /// The conditionally available special moves of the piece at
    /// `position`: the pawn double-step, and castling to either side,
    /// only ever offered for pieces that have not moved.
    pub fn special_moves(&self, position: (usize, usize)) -> (r: Vec<
        ((usize, usize), SpecialMove),
    >)
        requires
            self@.wf(),
            in_bounds(position.0 as int, position.1 as int),
        ensures
            r@ == spec_special_moves(self@, position),
    {
        let mut out: Vec<((usize, usize), SpecialMove)> = Vec::new();
        let piece = match self.ref_piece(position) {
            Some(p) => p,
            None => {
                proof {
                    assert(out@ =~= spec_special_moves(self@, position));
                }
                return out;
            },
        };
        if !piece.has_moved {
            if piece.piece_type == PieceType::Pawn {
                let c: i8 = if piece.color == Color::White {
                    1
                } else {
                    -1
                };
                let one = self.check_move(position, (0, c));
                let two = self.check_move(position, (0, 2 * c));
                match (one, two) {
                    (Some((_, None)), Some((np, None))) => {
                        out.push((np, SpecialMove::Pawn2Step));
                    },
                    _ => {},
                }
            }
            if piece.piece_type == PieceType::King {
                let home: usize = if piece.color == Color::White {
                    0
                } else {
                    7
                };
                if position.0 == 4 && position.1 == home {
                    if !self.is_threatened(position, piece.color) {
                        // king-side: rook on the h-file, f1/g1 empty and safe
                        let rook_ok: bool = match self.ref_piece((7, home)) {
                            Some(rk) => rk.piece_type == PieceType::Rook && rk.color == piece.color
                                && !rk.has_moved,
                            None => false,
                        };
                        if rook_ok {
                            let f_empty = match self.ref_piece((5, home)) {
                                None => true,
                                Some(_) => false,
                            };
                            let g_empty = match self.ref_piece((6, home)) {
                                None => true,
                                Some(_) => false,
                            };
                            if f_empty && g_empty {
                                if !self.is_threatened((5, home), piece.color) && !self.is_threatened(
                                    (6, home),
                                    piece.color,
                                ) {
                                    out.push(((6, home), SpecialMove::CastlingRight));
                                }
                            }
                        }
                        // queen-side: rook on the a-file, b1/c1/d1 empty, c1/d1 safe
                        let rook_ok2: bool = match self.ref_piece((0, home)) {
                            Some(rk) => rk.piece_type == PieceType::Rook && rk.color == piece.color
                                && !rk.has_moved,
                            None => false,
                        };
                        if rook_ok2 {
                            let b_empty = match self.ref_piece((1, home)) {
                                None => true,
                                Some(_) => false,
                            };
                            let c_empty = match self.ref_piece((2, home)) {
                                None => true,
                                Some(_) => false,
                            };
                            let d_empty = match self.ref_piece((3, home)) {
                                None => true,
                                Some(_) => false,
                            };
                            if b_empty && c_empty && d_empty {
                                if !self.is_threatened((3, home), piece.color) && !self.is_threatened(
                                    (2, home),
                                    piece.color,
                                ) {
                                    out.push(((2, home), SpecialMove::CastlingLeft));
                                }
                            }
                        }
                    }
                }
            }
        }
        proof {
            assert(out@ =~= spec_special_moves(self@, position));
        }
        out
    }
}

impl BoardModel {
    /// The color of the piece standing on `pos`.
    pub open spec fn color_at(self, pos: (int, int)) -> Color {
        self.at(pos.0, pos.1)->Some_0.color
    }

    /// A regular move from `pos` to `to` is legal: geometrically
    /// available and free of self-check once applied.
    pub open spec fn legal_regular(self, pos: (int, int), to: (int, int)) -> bool {
        self.regular_move_ok(pos, to) && !self.after_sim(pos, to).checked(self.color_at(pos))
    }

    /// The double-step from `pos` is legal: available and free of
    /// self-check once applied.
    pub open spec fn legal_double_step(self, pos: (int, int)) -> bool {
        self.double_step_ok(pos) && !self.after_sim(pos, self.double_step_target(pos)).checked(
            self.color_at(pos),
        )
    }

    /// The piece on `pos` has at least one legal move.
    pub open spec fn has_legal_move(self, pos: (int, int)) -> bool {
        ||| exists|tx: int, ty: int| #[trigger] self.legal_regular(pos, (tx, ty))
        ||| self.legal_double_step(pos)
        ||| self.castle_ok(pos, true)
        ||| self.castle_ok(pos, false)
    }
}

impl ChessBoard {
    /// Every legal move of the piece at `position`: its regular moves
    /// and its pawn double-step, each filtered by the self-check test,
    /// and its castling moves, whose availability conditions already
    /// rule self-check out. No destination holds a piece of the
    /// mover's own color, and an empty result means the piece has no
    /// legal move at all.
    pub fn get_moves(&self, position: (usize, usize)) -> (r: Vec<
        ((usize, usize), Option<SpecialMove>),
    >)
        requires
            self@.wf(),
            in_bounds(position.0 as int, position.1 as int),
        ensures
            forall|t: (usize, usize)|
                #[trigger] r@.contains((t, None::<SpecialMove>)) <==> self@.legal_regular(
                    ip(position),
                    ip(t),
                ),
            forall|t: (usize, usize)|
                #[trigger] r@.contains((t, Some(SpecialMove::Pawn2Step))) <==> (self@.legal_double_step(
                    ip(position),
                ) && ip(t) == self@.double_step_target(ip(position))),
            forall|t: (usize, usize)|
                #[trigger] r@.contains((t, Some(SpecialMove::CastlingRight))) <==> (self@.castle_ok(
                    ip(position),
                    true,
                ) && ip(t) == (6int, self@.home_rank(ip(position)))),
            forall|t: (usize, usize)|
                #[trigger] r@.contains((t, Some(SpecialMove::CastlingLeft))) <==> (self@.castle_ok(
                    ip(position),
                    false,
                ) && ip(t) == (2int, self@.home_rank(ip(position)))),
            r@.len() == 0 <==> !self@.has_legal_move(ip(position)),
            forall|i: int|
                0 <= i < r@.len() ==> !self@.own_at(
                    ip((#[trigger] r@[i]).0).0,
                    ip(r@[i].0).1,
                    self@.color_at(ip(position)),
                ),
    {
        let ghost pos = ip(position);
        let mut all: Vec<((usize, usize), Option<SpecialMove>)> = Vec::new();
        let regs = self.regular_moves(position);
        let mut i: usize = 0;
        while i < regs.len()
            invariant
                self@.wf(),
                in_bounds(pos.0, pos.1),
                pos == ip(position),
                i <= regs@.len(),
                forall|t: (usize, usize)|
                    regs@.contains(t) <==> self@.regular_move_ok(ip(position), ip(t)),
                forall|t: (usize, usize)|
                    all@.contains((t, None::<SpecialMove>)) <==> (exists|j: int|
                        0 <= j < i && #[trigger] regs@[j] == t && self@.legal_regular(pos, ip(t))),
                forall|t: (usize, usize), k: SpecialMove| !all@.contains((t, Some(k))),
            decreases regs@.len() - i,
        {
            broadcast use vstd::seq_lib::lemma_seq_contains_after_push;

            let t = regs[i];
            proof {
                assert(regs@.contains(t));
            }
            let ghost pre = all@;
            let sc = self.self_check(position, t);
            if !sc {
                all.push((t, None));
            }
            let ghost iold = i as int;
            i += 1;
            proof {
                assert forall|t2: (usize, usize)|
                    all@.contains((t2, None::<SpecialMove>)) <==> (exists|j: int|
                        0 <= j < i && #[trigger] regs@[j] == t2 && self@.legal_regular(
                            pos,
                            ip(t2),
                        )) by {
                    if all@.contains((t2, None::<SpecialMove>)) {
                        if pre.contains((t2, None::<SpecialMove>)) {
                            let j = choose|j: int|
                                0 <= j < iold && #[trigger] regs@[j] == t2 && self@.legal_regular(
                                    pos,
                                    ip(t2),
                                );
                            assert(0 <= j < i && regs@[j] == t2);
                        } else {
                            assert(t2 == t && !sc);
                            assert(regs@[iold] == t2 && self@.legal_regular(pos, ip(t2)));
                        }
                    }
                    if exists|j: int|
                        0 <= j < i && #[trigger] regs@[j] == t2 && self@.legal_regular(
                            pos,
                            ip(t2),
                        ) {
                        let j = choose|j: int|
                            0 <= j < i && #[trigger] regs@[j] == t2 && self@.legal_regular(
                                pos,
                                ip(t2),
                            );
                        if j < iold {
                            assert(pre.contains((t2, None::<SpecialMove>)));
                        } else {
                            assert(t2 == t && !self@.after_sim(pos, ip(t2)).checked(
                                self@.color_at(pos),
                            ));
                        }
                        assert(all@.contains((t2, None::<SpecialMove>)));
                    }
                }
            }
        }
        proof {
            assert forall|t: (usize, usize)|
                all@.contains((t, None::<SpecialMove>)) <==> self@.legal_regular(
                    pos,
                    ip(t),
                ) by {
                if self@.legal_regular(pos, ip(t)) {
                    assert(regs@.contains(t));
                    let j = choose|j: int| 0 <= j < regs@.len() && regs@[j] == t;
                    assert(0 <= j < i && regs@[j] == t);
                }
            }
        }
        let sps = self.special_moves(position);
        let ghost spsv = sps@;
        let mut si: usize = 0;
        while si < sps.len()
            invariant
                self@.wf(),
                in_bounds(pos.0, pos.1),
                pos == ip(position),
                si <= sps@.len(),
                sps@ == spsv,
                spsv == spec_special_moves(self@, position),
                forall|t: (usize, usize)|
                    all@.contains((t, None::<SpecialMove>)) <==> self@.legal_regular(pos, ip(t)),
                forall|t: (usize, usize), k: SpecialMove|
                    all@.contains((t, Some(k))) <==> (exists|j: int|
                        0 <= j < si && #[trigger] spsv[j] == (t, k) && (k != SpecialMove::Pawn2Step
                            || !self@.after_sim(pos, ip(t)).checked(self@.color_at(pos)))),
            decreases sps@.len() - si,
        {
            broadcast use vstd::seq_lib::lemma_seq_contains_after_push;

            let (mv, kind) = sps[si];
            let skip: bool = match kind {
                SpecialMove::Pawn2Step => {
                    proof {
                        assert(spsv[si as int] == (mv, kind));
                        assert(spsv.contains((mv, kind)));
                        lemma_special_membership(self@, position);
                        assert(self@.double_step_ok(pos));
                        lemma_double_step_target_bounds(self@, pos);
                    }
                    self.self_check(position, mv)
                },
                _ => false,
            };
            let ghost pre = all@;
            if !skip {
                all.push((mv, Some(kind)));
            }
            let ghost siold = si as int;
            si += 1;
            proof {
                assert(spsv[siold] == (mv, kind));
                assert forall|t: (usize, usize), k: SpecialMove|
                    all@.contains((t, Some(k))) <==> (exists|j: int|
                        0 <= j < si && #[trigger] spsv[j] == (t, k) && (k != SpecialMove::Pawn2Step
                            || !self@.after_sim(pos, ip(t)).checked(self@.color_at(pos)))) by {
                    if all@.contains((t, Some(k))) {
                        if pre.contains((t, Some(k))) {
                            let j = choose|j: int|
                                0 <= j < siold && #[trigger] spsv[j] == (t, k) && (k
                                    != SpecialMove::Pawn2Step || !self@.after_sim(
                                    pos,
                                    ip(t),
                                ).checked(self@.color_at(pos)));
                            assert(0 <= j < si && spsv[j] == (t, k));
                        } else {
                            assert((t, Some(k)) == (mv, Some(kind)) && !skip);
                            assert(spsv[siold] == (t, k));
                        }
                    }
                    if exists|j: int|
                        0 <= j < si && #[trigger] spsv[j] == (t, k) && (k != SpecialMove::Pawn2Step
                            || !self@.after_sim(pos, ip(t)).checked(self@.color_at(pos))) {
                        let j = choose|j: int|
                            0 <= j < si && #[trigger] spsv[j] == (t, k) && (k
                                != SpecialMove::Pawn2Step || !self@.after_sim(pos, ip(t)).checked(
                                self@.color_at(pos)));
                        if j < siold {
                            assert(pre.contains((t, Some(k))));
                        } else {
                            assert((t, k) == (mv, kind));
                            assert(!skip);
                        }
                        assert(all@.contains((t, Some(k))));
                    }
                }
                assert forall|t: (usize, usize)|
                    all@.contains((t, None::<SpecialMove>)) <==> self@.legal_regular(
                        pos,
                        ip(t),
                    ) by {
                    if pre.contains((t, None::<SpecialMove>)) {
                        assert(all@.contains((t, None::<SpecialMove>)));
                    }
                }
            }
        }
        proof {
            lemma_special_membership(self@, position);
            let m = self@;
            assert forall|t: (usize, usize)|
                all@.contains((t, Some(SpecialMove::Pawn2Step))) <==> (m.legal_double_step(pos)
                    && ip(t) == m.double_step_target(pos)) by {
                if all@.contains((t, Some(SpecialMove::Pawn2Step))) {
                    let j = choose|j: int|
                        0 <= j < si && #[trigger] spsv[j] == (t, SpecialMove::Pawn2Step) && (
                        SpecialMove::Pawn2Step != SpecialMove::Pawn2Step || !m.after_sim(
                            pos,
                            ip(t),
                        ).checked(m.color_at(pos)));
                    assert(spsv.contains((t, SpecialMove::Pawn2Step)));
                }
                if m.legal_double_step(pos) && ip(t) == m.double_step_target(pos) {
                    assert(spsv.contains((t, SpecialMove::Pawn2Step)));
                    let j = choose|j: int|
                        0 <= j < spsv.len() && spsv[j] == (t, SpecialMove::Pawn2Step);
                    assert(spsv[j] == (t, SpecialMove::Pawn2Step) && (SpecialMove::Pawn2Step
                        != SpecialMove::Pawn2Step || !m.after_sim(pos, ip(t)).checked(
                        m.color_at(pos),
                    )));
                }
            }
            assert forall|t: (usize, usize)|
                all@.contains((t, Some(SpecialMove::CastlingRight))) <==> (m.castle_ok(pos, true)
                    && ip(t) == (6int, m.home_rank(pos))) by {
                if all@.contains((t, Some(SpecialMove::CastlingRight))) {
                    let j = choose|j: int|
                        0 <= j < si && #[trigger] spsv[j] == (t, SpecialMove::CastlingRight) && (
                        SpecialMove::CastlingRight != SpecialMove::Pawn2Step || !m.after_sim(
                            pos,
                            ip(t),
                        ).checked(m.color_at(pos)));
                    assert(spsv.contains((t, SpecialMove::CastlingRight)));
                }
                if m.castle_ok(pos, true) && ip(t) == (6int, m.home_rank(pos)) {
                    assert(spsv.contains((t, SpecialMove::CastlingRight)));
                    let j = choose|j: int|
                        0 <= j < spsv.len() && spsv[j] == (t, SpecialMove::CastlingRight);
                }
            }
            assert forall|t: (usize, usize)|
                all@.contains((t, Some(SpecialMove::CastlingLeft))) <==> (m.castle_ok(pos, false)
                    && ip(t) == (2int, m.home_rank(pos))) by {
                if all@.contains((t, Some(SpecialMove::CastlingLeft))) {
                    let j = choose|j: int|
                        0 <= j < si && #[trigger] spsv[j] == (t, SpecialMove::CastlingLeft) && (
                        SpecialMove::CastlingLeft != SpecialMove::Pawn2Step || !m.after_sim(
                            pos,
                            ip(t),
                        ).checked(m.color_at(pos)));
                    assert(spsv.contains((t, SpecialMove::CastlingLeft)));
                }
                if m.castle_ok(pos, false) && ip(t) == (2int, m.home_rank(pos)) {
                    assert(spsv.contains((t, SpecialMove::CastlingLeft)));
                    let j = choose|j: int|
                        0 <= j < spsv.len() && spsv[j] == (t, SpecialMove::CastlingLeft);
                }
            }
            lemma_get_moves_wrapup(self@, position, all@);
        }
        all
    }
}

/// The double-step target lies on the board.
proof fn lemma_double_step_target_bounds(m: BoardModel, pos: (int, int))
    requires
        m.double_step_ok(pos),
    ensures
        in_bounds(m.double_step_target(pos).0, m.double_step_target(pos).1),
{
}

/// Membership in the special-move list coincides with each move's
/// availability condition.
proof fn lemma_special_membership(m: BoardModel, position: (usize, usize))
    ensures
        forall|t: (usize, usize)|
            #[trigger] spec_special_moves(m, position).contains((t, SpecialMove::Pawn2Step)) <==> (
            m.double_step_ok(ip(position)) && ip(t) == m.double_step_target(ip(position))),
        forall|t: (usize, usize)|
            #[trigger] spec_special_moves(m, position).contains((t, SpecialMove::CastlingRight)) <==> (
            m.castle_ok(ip(position), true) && ip(t) == (6int, m.home_rank(ip(position)))),
        forall|t: (usize, usize)|
            #[trigger] spec_special_moves(m, position).contains((t, SpecialMove::CastlingLeft)) <==> (
            m.castle_ok(ip(position), false) && ip(t) == (2int, m.home_rank(ip(position)))),
{
    let s = spec_special_moves(m, position);
    let pos = ip(position);
    let t0 = m.double_step_target(pos);
    let home = m.home_rank(pos);
    assert forall|t: (usize, usize)|
        s.contains((t, SpecialMove::Pawn2Step)) <==> (m.double_step_ok(pos) && ip(t) == t0) by {
        if s.contains((t, SpecialMove::Pawn2Step)) {
            let j = choose|j: int| 0 <= j < s.len() && s[j] == (t, SpecialMove::Pawn2Step);
            if m.double_step_ok(pos) {
                assert(in_bounds(t0.0, t0.1));
            }
        }
        if m.double_step_ok(pos) && ip(t) == t0 {
            assert(in_bounds(t0.0, t0.1));
            assert(t == ((t0.0 as usize, t0.1 as usize)));
            assert(s[0] == (t, SpecialMove::Pawn2Step));
        }
    }
    assert forall|t: (usize, usize)|
        s.contains((t, SpecialMove::CastlingRight)) <==> (m.castle_ok(pos, true) && ip(t) == (
        6int,
        home,
        )) by {
        if s.contains((t, SpecialMove::CastlingRight)) {
            let j = choose|j: int| 0 <= j < s.len() && s[j] == (t, SpecialMove::CastlingRight);
        }
        if m.castle_ok(pos, true) && ip(t) == (6int, home) {
            assert(0 <= home <= 7);
            assert(t == ((6usize, home as usize)));
            let i0: int = if m.double_step_ok(pos) {
                1
            } else {
                0
            };
            assert(s[i0] == (t, SpecialMove::CastlingRight));
        }
    }
    assert forall|t: (usize, usize)|
        s.contains((t, SpecialMove::CastlingLeft)) <==> (m.castle_ok(pos, false) && ip(t) == (
        2int,
        home,
        )) by {
        if s.contains((t, SpecialMove::CastlingLeft)) {
            let j = choose|j: int| 0 <= j < s.len() && s[j] == (t, SpecialMove::CastlingLeft);
        }
        if m.castle_ok(pos, false) && ip(t) == (2int, home) {
            assert(0 <= home <= 7);
            assert(t == ((2usize, home as usize)));
            let i0: int = (if m.double_step_ok(pos) {
                1int
            } else {
                0int
            }) + (if m.castle_ok(pos, true) {
                1int
            } else {
                0int
            });
            assert(s[i0] == (t, SpecialMove::CastlingLeft));
        }
    }
}

/// From the per-kind membership conditions of a generated move list,
/// the list is empty exactly when no legal move exists, and no listed
/// destination holds a piece of the mover's own color.
proof fn lemma_get_moves_wrapup(
    m: BoardModel,
    position: (usize, usize),
    all: Seq<((usize, usize), Option<SpecialMove>)>,
)
    requires
        m.wf(),
        in_bounds(position.0 as int, position.1 as int),
        forall|t: (usize, usize)|
            #[trigger] all.contains((t, None::<SpecialMove>)) <==> m.legal_regular(ip(position), ip(t)),
        forall|t: (usize, usize)|
            #[trigger] all.contains((t, Some(SpecialMove::Pawn2Step))) <==> (m.legal_double_step(ip(position))
                && ip(t) == m.double_step_target(ip(position))),
        forall|t: (usize, usize)|
            #[trigger] all.contains((t, Some(SpecialMove::CastlingRight))) <==> (m.castle_ok(
                ip(position),
                true,
            ) && ip(t) == (6int, m.home_rank(ip(position)))),
        forall|t: (usize, usize)|
            #[trigger] all.contains((t, Some(SpecialMove::CastlingLeft))) <==> (m.castle_ok(
                ip(position),
                false,
            ) && ip(t) == (2int, m.home_rank(ip(position)))),
    ensures
        all.len() == 0 <==> !m.has_legal_move(ip(position)),
        forall|i: int|
            0 <= i < all.len() ==> !m.own_at(
                ip((#[trigger] all[i]).0).0,
                ip(all[i].0).1,
                m.color_at(ip(position)),
            ),
{
    let pos = ip(position);
    if all.len() > 0 {
        let e = all[0];
        assert(all.contains(e));
        match e.1 {
            None => {
                assert(m.legal_regular(pos, ip(e.0)));
                assert(m.has_legal_move(pos));
            },
            Some(k) => {
                match k {
                    SpecialMove::Pawn2Step => {
                        assert(e == (e.0, Some(SpecialMove::Pawn2Step)));
                        assert(all.contains((e.0, Some(SpecialMove::Pawn2Step))));
                        assert(m.legal_double_step(pos));
                    },
                    SpecialMove::CastlingRight => {
                        assert(e == (e.0, Some(SpecialMove::CastlingRight)));
                        assert(all.contains((e.0, Some(SpecialMove::CastlingRight))));
                        assert(m.castle_ok(pos, true));
                    },
                    SpecialMove::CastlingLeft => {
                        assert(e == (e.0, Some(SpecialMove::CastlingLeft)));
                        assert(all.contains((e.0, Some(SpecialMove::CastlingLeft))));
                        assert(m.castle_ok(pos, false));
                    },
                }
            },
        }
    }
    if m.has_legal_move(pos) {
        if exists|tx: int, ty: int| #[trigger] m.legal_regular(pos, (tx, ty)) {
            let (tx, ty) = choose|tx: int, ty: int| #[trigger] m.legal_regular(pos, (tx, ty));
            assert(in_bounds(tx, ty));
            let t = ((tx as usize, ty as usize));
            assert(m.legal_regular(pos, ip(t)));
            assert(all.contains((t, None::<SpecialMove>)));
            assert(all.len() > 0);
        } else if m.legal_double_step(pos) {
            let t0 = m.double_step_target(pos);
            assert(in_bounds(t0.0, t0.1));
            let t = ((t0.0 as usize, t0.1 as usize));
            assert(ip(t) == t0);
            assert(all.contains((t, Some(SpecialMove::Pawn2Step))));
            assert(all.len() > 0);
        } else if m.castle_ok(pos, true) {
            let home = m.home_rank(pos);
            assert(home == 0 || home == 7);
            let t = ((6usize, home as usize));
            assert(ip(t) == (6int, home));
            assert(all.contains((t, Some(SpecialMove::CastlingRight))));
            assert(all.len() > 0);
        } else {
            let home = m.home_rank(pos);
            assert(home == 0 || home == 7);
            let t = ((2usize, home as usize));
            assert(ip(t) == (2int, home));
            assert(all.contains((t, Some(SpecialMove::CastlingLeft))));
            assert(all.len() > 0);
        }
    }
    assert forall|i: int| 0 <= i < all.len() implies !m.own_at(
        ip((#[trigger] all[i]).0).0,
        ip(all[i].0).1,
        m.color_at(pos),
    ) by {
        let e = all[i];
        assert(all.contains(e));
        let t = e.0;
        match e.1 {
            None => {
                assert(m.legal_regular(pos, ip(t)));
            },
            Some(k) => {
                match k {
                    SpecialMove::Pawn2Step => {
                        assert(e == (t, Some(SpecialMove::Pawn2Step)));
                        assert(all.contains((t, Some(SpecialMove::Pawn2Step))));
                        assert(m.double_step_ok(pos) && ip(t) == m.double_step_target(pos));
                        assert(m.at(ip(t).0, ip(t).1) is None);
                    },
                    SpecialMove::CastlingRight => {
                        assert(e == (t, Some(SpecialMove::CastlingRight)));
                        assert(all.contains((t, Some(SpecialMove::CastlingRight))));
                        assert(m.castle_ok(pos, true) && ip(t) == (6int, m.home_rank(pos)));
                        assert(m.at(6, m.home_rank(pos)) is None);
                    },
                    SpecialMove::CastlingLeft => {
                        assert(e == (t, Some(SpecialMove::CastlingLeft)));
                        assert(all.contains((t, Some(SpecialMove::CastlingLeft))));
                        assert(m.castle_ok(pos, false) && ip(t) == (2int, m.home_rank(pos)));
                        assert(m.at(2, m.home_rank(pos)) is None);
                    },
                }
            },
        }
    }
}

impl BoardModel {
    /// Checkmate: the color's king is in check and no piece of that
    /// color, the king included, has a single legal move.
    pub open spec fn checkmated(self, c: Color) -> bool {
        self.checked(c) && (forall|px: int, py: int|
            in_bounds(px, py) && #[trigger] self.own_at(px, py, c) ==> !self.has_legal_move(
                (px, py),
            ))
    }
}

/// The piece kind that starts on column `x` of each back rank.
pub open spec fn back_rank_kind(x: int) -> PieceType {
    if x == 0 || x == 7 {
        PieceType::Rook
    } else if x == 1 || x == 6 {
        PieceType::Knight
    } else if x == 2 || x == 5 {
        PieceType::Bishop
    } else if x == 3 {
        PieceType::Queen
    } else {
        PieceType::King
    }
}

impl ChessBoard {
    /// Whether the color is checkmated: its king is in check and no
    /// piece of that color, the king included, has a single legal move.
    pub fn is_checkmate(&self, color: Color) -> (r: bool)
        requires
            self@.wf(),
        ensures
            r == self@.checkmated(color),
    {
        if !self.is_checked(color) {
            return false;
        }
        let mut idx: usize = 0;
        while idx < 64
            invariant
                self@.wf(),
                self@.checked(color),
                idx <= 64,
                forall|px: int, py: int|
                    in_bounds(px, py) && sq(px, py) < idx && #[trigger] self@.own_at(px, py, color)
                        ==> !self@.has_legal_move((px, py)),
            decreases 64 - idx,
        {
            let px = idx % 8;
            let py = idx / 8;
            proof {
                assert(sq(px as int, py as int) == idx);
            }
            let mine: bool = match self.ref_piece((px, py)) {
                Some(q) => q.color == color,
                None => false,
            };
            if mine {
                let mv = self.get_moves((px, py));
                if mv.len() > 0 {
                    proof {
                        assert(self@.own_at(px as int, py as int, color));
                        assert(self@.has_legal_move((px as int, py as int)));
                    }
                    return false;
                }
            }
            proof {
                assert forall|qx: int, qy: int|
                    in_bounds(qx, qy) && sq(qx, qy) < idx + 1 && #[trigger] self@.own_at(
                        qx,
                        qy,
                        color,
                    ) implies !self@.has_legal_move((qx, qy)) by {
                    if sq(qx, qy) == idx {
                        assert(qx == px as int && qy == py as int);
                    }
                }
            }
            idx += 1;
        }
        true
    }

    /// Sets up one side's 16 starting pieces: a rank of pawns in front
    /// of the standard back-rank order rook, knight, bishop, queen,
    /// king, bishop, knight, rook.
    pub fn standard_pieces(&mut self, color: Color)
        requires
            old(self)@.wf(),
            old(self)@.king_pos(color) is None,
            forall|x: int, y: int|
                0 <= x < 8 && (y == (if color == Color::White { 1int } else { 6int }) || y == (
                if color == Color::White { 0int } else { 7int })) ==> old(self)@.at(x, y) is None,
        ensures
            final(self)@.wf(),
            ({
                let pawn_rank: int = if color == Color::White { 1 } else { 6 };
                let home: int = if color == Color::White { 0 } else { 7 };
                &&& forall|x: int, y: int|
                    0 <= x < 8 && y == pawn_rank ==> final(self)@.at(x, y) == Some(
                        spec_piece_make(color, PieceType::Pawn),
                    )
                &&& forall|x: int, y: int|
                    0 <= x < 8 && y == home ==> final(self)@.at(x, y) == Some(
                        spec_piece_make(color, back_rank_kind(x)),
                    )
                &&& forall|x: int, y: int|
                    in_bounds(x, y) && y != pawn_rank && y != home ==> final(self)@.at(x, y) == old(
                        self,
                    )@.at(x, y)
                &&& final(self)@.king_pos(color) == Some((4int, home))
                &&& final(self)@.king_pos(color.other_spec()) == old(self)@.king_pos(
                    color.other_spec(),
                )
                &&& final(self)@.link == old(self)@.link
            }),
    {
        let ghost orig = self@;
        let ghost pawn_rank: int = if color == Color::White { 1int } else { 6int };
        let ghost home_g: int = if color == Color::White { 0int } else { 7int };
        let y: usize = if color == Color::White {
            1
        } else {
            6
        };
        let mut x: usize = 0;
        while x < 8
            invariant
                self@.wf(),
                y as int == pawn_rank,
                pawn_rank == (if color == Color::White { 1int } else { 6int }),
                home_g == (if color == Color::White { 0int } else { 7int }),
                x <= 8,
                forall|x2: int|
                    0 <= x2 < x ==> self@.at(x2, pawn_rank) == Some(
                        spec_piece_make(color, PieceType::Pawn),
                    ),
                forall|i2: int|
                    0 <= i2 < 64 && !(8 * pawn_rank <= i2 < 8 * pawn_rank + x)
                        ==> #[trigger] self@.grid[i2] == orig.grid[i2],
                self@.white_king == orig.white_king,
                self@.black_king == orig.black_king,
                self@.link == orig.link,
                orig.wf(),
                orig.king_pos(color) is None,
                forall|x2: int, y2: int|
                    0 <= x2 < 8 && (y2 == pawn_rank || y2 == home_g) ==> orig.at(x2, y2) is None,
            decreases 8 - x,
        {
            proof {
                assert(orig.at(x as int, pawn_rank) is None);
                assert(self@.grid[sq(x as int, pawn_rank)] == orig.grid[sq(x as int, pawn_rank)]);
                assert(self@.at(x as int, y as int) is None);
            }
            let ghost pre = self@;
            self.add_piece(piece_make(color, PieceType::Pawn), (x, y));
            let ghost xo = x as int;
            x += 1;
            proof {
                assert(self@.at(xo, pawn_rank) == Some(spec_piece_make(color, PieceType::Pawn)));
                assert forall|x2: int| 0 <= x2 < x implies self@.at(x2, pawn_rank) == Some(
                    spec_piece_make(color, PieceType::Pawn),
                ) by {
                    if x2 < xo {
                        assert(self@.grid[sq(x2, pawn_rank)] == pre.grid[sq(x2, pawn_rank)]);
                        assert(pre.at(x2, pawn_rank) == Some(spec_piece_make(color, PieceType::Pawn)));
                    }
                }
            }
        }
        let ghost ap = self@;
        let home: usize = if color == Color::White {
            0
        } else {
            7
        };
        proof {
            assert forall|q: int| 0 <= q < 8 implies ap.at(q, home_g) is None by {
                assert(orig.at(q, home_g) is None);
                assert(8 * pawn_rank + 8 <= sq(q, home_g) || sq(q, home_g) < 8 * pawn_rank);
                assert(ap.grid[sq(q, home_g)] == orig.grid[sq(q, home_g)]);
            }
            assert(ap.at(0, home_g) is None);
            assert(ap.at(1, home_g) is None);
            assert(ap.at(2, home_g) is None);
            assert(ap.at(3, home_g) is None);
            assert(ap.at(4, home_g) is None);
            assert(ap.at(5, home_g) is None);
            assert(ap.at(6, home_g) is None);
            assert(ap.at(7, home_g) is None);
        }
        self.add_piece(piece_make(color, PieceType::Rook), (0, home));
        proof {
            assert(self@.at(1, home_g) is None && self@.at(2, home_g) is None && self@.at(
                3,
                home_g,
            ) is None && self@.at(4, home_g) is None && self@.at(5, home_g) is None && self@.at(
                6,
                home_g,
            ) is None && self@.at(7, home_g) is None);
        }
        self.add_piece(piece_make(color, PieceType::Knight), (1, home));
        proof {
            assert(self@.at(2, home_g) is None && self@.at(3, home_g) is None && self@.at(
                4,
                home_g,
            ) is None && self@.at(5, home_g) is None && self@.at(6, home_g) is None && self@.at(
                7,
                home_g,
            ) is None);
        }
        self.add_piece(piece_make(color, PieceType::Bishop), (2, home));
        proof {
            assert(self@.at(3, home_g) is None && self@.at(4, home_g) is None && self@.at(
                5,
                home_g,
            ) is None && self@.at(6, home_g) is None && self@.at(7, home_g) is None);
        }
        self.add_piece(piece_make(color, PieceType::Queen), (3, home));
        proof {
            assert(self@.at(4, home_g) is None && self@.at(5, home_g) is None && self@.at(
                6,
                home_g,
            ) is None && self@.at(7, home_g) is None);
        }
        self.add_piece(piece_make(color, PieceType::King), (4, home));
        proof {
            assert(self@.at(5, home_g) is None && self@.at(6, home_g) is None && self@.at(
                7,
                home_g,
            ) is None);
        }
        self.add_piece(piece_make(color, PieceType::Bishop), (5, home));
        proof {
            assert(self@.at(6, home_g) is None && self@.at(7, home_g) is None);
        }
        self.add_piece(piece_make(color, PieceType::Knight), (6, home));
        proof {
            assert(self@.at(7, home_g) is None);
        }
        self.add_piece(piece_make(color, PieceType::Rook), (7, home));
        proof {
            let f = self@;
            assert(f.at(0, home_g) == Some(spec_piece_make(color, PieceType::Rook)));
            assert(f.at(1, home_g) == Some(spec_piece_make(color, PieceType::Knight)));
            assert(f.at(2, home_g) == Some(spec_piece_make(color, PieceType::Bishop)));
            assert(f.at(3, home_g) == Some(spec_piece_make(color, PieceType::Queen)));
            assert(f.at(4, home_g) == Some(spec_piece_make(color, PieceType::King)));
            assert(f.at(5, home_g) == Some(spec_piece_make(color, PieceType::Bishop)));
            assert(f.at(6, home_g) == Some(spec_piece_make(color, PieceType::Knight)));
            assert(f.at(7, home_g) == Some(spec_piece_make(color, PieceType::Rook)));
            assert forall|x2: int, y2: int|
                0 <= x2 < 8 && y2 == home_g implies f.at(x2, y2) == Some(
                spec_piece_make(color, back_rank_kind(x2)),
            ) by {
                if x2 == 0 {
                } else if x2 == 1 {
                } else if x2 == 2 {
                } else if x2 == 3 {
                } else if x2 == 4 {
                } else if x2 == 5 {
                } else if x2 == 6 {
                }
            }
            assert forall|x2: int, y2: int|
                0 <= x2 < 8 && y2 == pawn_rank implies f.at(x2, y2) == Some(
                spec_piece_make(color, PieceType::Pawn),
            ) by {
                assert(pawn_rank != home_g);
                assert(f.grid[sq(x2, pawn_rank)] == ap.grid[sq(x2, pawn_rank)]);
                assert(ap.at(x2, pawn_rank) == Some(spec_piece_make(color, PieceType::Pawn)));
            }
            assert forall|x2: int, y2: int|
                in_bounds(x2, y2) && y2 != pawn_rank && y2 != home_g implies f.at(x2, y2)
                == orig.at(x2, y2) by {
                assert(sq(x2, y2) != sq(0, home_g) && sq(x2, y2) != sq(1, home_g) && sq(x2, y2)
                    != sq(2, home_g) && sq(x2, y2) != sq(3, home_g) && sq(x2, y2) != sq(4, home_g)
                    && sq(x2, y2) != sq(5, home_g) && sq(x2, y2) != sq(6, home_g) && sq(x2, y2)
                    != sq(7, home_g));
                assert(f.grid[sq(x2, y2)] == ap.grid[sq(x2, y2)]);
                assert(!(8 * pawn_rank <= sq(x2, y2) < 8 * pawn_rank + 8));
                assert(ap.grid[sq(x2, y2)] == orig.grid[sq(x2, y2)]);
            }
        }
    }
}

/// The letter a piece kind is recorded with in move history.
pub open spec fn piece_letter(k: PieceType) -> char {
    match k {
        PieceType::Pawn => 'P',
        PieceType::Rook => 'R',
        PieceType::Knight => 'N',
        PieceType::Bishop => 'B',
        PieceType::King => 'K',
        PieceType::Queen => 'Q',
    }
}

/// The forward direction of a pawn of this color.
pub open spec fn pawn_dir(c: Color) -> int {
    if c == Color::White {
        1
    } else {
        -1
    }
}

/// The record of a pawn double-step: the two squares in notation.
pub open spec fn spec_double_record(from: (int, int), to: (int, int)) -> Seq<char> {
    crate::notation_seq(from.0, from.1) + seq![' '] + crate::notation_seq(to.0, to.1)
}

/// The record of a regular move: piece letter and the two squares, or
/// the two squares with a promotion note when a pawn reaches its final
/// rank.
pub open spec fn spec_move_record(b: BoardModel, from: (int, int), to: (int, int)) -> Seq<char> {
    let p = b.at(from.0, from.1)->Some_0;
    if p.piece_type == PieceType::Pawn && to.1 == (if p.color == Color::White {
        7int
    } else {
        0int
    }) {
        spec_double_record(from, to) + " Promotion"@
    } else {
        seq![piece_letter(p.piece_type)] + spec_double_record(from, to)
    }
}

/// The letter a piece kind is recorded with, as a string slice.
fn piece_letter_str(k: PieceType) -> (r: &'static str)
    ensures
        r@ =~= seq![piece_letter(k)],
{
    proof {
        reveal_strlit("P");
        reveal_strlit("R");
        reveal_strlit("N");
        reveal_strlit("B");
        reveal_strlit("K");
        reveal_strlit("Q");
    }
    match k {
        PieceType::Pawn => "P",
        PieceType::Rook => "R",
        PieceType::Knight => "N",
        PieceType::Bishop => "B",
        PieceType::King => "K",
        PieceType::Queen => "Q",
    }
}

/// "<from> <to>" for two board squares.
fn notation_pair(from: (usize, usize), to: (usize, usize)) -> (r: String)
    requires
        in_bounds(from.0 as int, from.1 as int),
        in_bounds(to.0 as int, to.1 as int),
    ensures
        r@ == spec_double_record(ip(from), ip(to)),
{
    proof {
        reveal_strlit(" ");
    }
    let nf = match crate::to_notation(from) {
        Ok(s) => s,
        Err(_) => {
            proof {
                assert(false);
            }
            String::new()
        },
    };
    let nt = match crate::to_notation(to) {
        Ok(s) => s,
        Err(_) => {
            proof {
                assert(false);
            }
            String::new()
        },
    };
    let mut out = nf;
    out.append(" ");
    out.append(nt.as_str());
    proof {
        assert(out@ =~= spec_double_record(ip(from), ip(to)));
    }
    out
}

impl ChessBoard {
    /// Validates and applies the move of the piece at `position` to
    /// `mov`, along with any special-move side effects: the en-passant
    /// capture removes the captured pawn, a double-step records the
    /// en-passant link, and castling relocates the rook beside the
    /// king. Any previous en-passant link is discarded by the
    /// application. Rejects moves from an empty square and
    /// destinations outside the piece's legal move set, leaving the
    /// board untouched. The returned record names the move in
    /// notation.
    pub fn move_piece(&mut self, position: (usize, usize), mov: (usize, usize)) -> (r: Result<
        String,
        String,
    >)
        requires
            old(self)@.wf(),
            in_bounds(position.0 as int, position.1 as int),
            in_bounds(mov.0 as int, mov.1 as int),
        ensures
            final(self)@.wf(),
            ({
                let b = old(self)@;
                let from = ip(position);
                let to = ip(mov);
                match b.at(from.0, from.1) {
                    None => r is Err && final(self)@ == b && (r->Err_0)@
                        == "Tried to move empty space!"@,
                    Some(p) => {
                        if b.legal_regular(from, to) {
                            &&& r is Ok
                            &&& (r->Ok_0)@ == spec_move_record(b, from, to)
                            &&& final(self)@ == b.after_sim(from, to).with_link(None)
                        } else if b.legal_double_step(from) && to == b.double_step_target(from) {
                            &&& r is Ok
                            &&& (r->Ok_0)@ == spec_double_record(from, to)
                            &&& final(self)@ == b.after_force(from, to).with_link(
                                Some(((to.0, to.1 - pawn_dir(p.color)), to)),
                            )
                        } else if b.castle_ok(from, true) && to == (6int, b.home_rank(from)) {
                            &&& r is Ok
                            &&& (r->Ok_0)@ == "O-O"@
                            &&& final(self)@ == b.after_force(from, to).after_force(
                                (7, b.home_rank(from)),
                                (5, b.home_rank(from)),
                            ).with_link(None)
                        } else if b.castle_ok(from, false) && to == (2int, b.home_rank(from)) {
                            &&& r is Ok
                            &&& (r->Ok_0)@ == "O-O-O"@
                            &&& final(self)@ == b.after_force(from, to).after_force(
                                (0, b.home_rank(from)),
                                (3, b.home_rank(from)),
                            ).with_link(None)
                        } else {
                            r is Err && final(self)@ == b && (r->Err_0)@
                                == "Tried to do illegal move!"@
                        }
                    },
                }
            }),
    {
        let ghost b = self@;
        let ghost from = ip(position);
        let ghost to = ip(mov);
        let from_piece = match self.ref_piece(position) {
            Some(p) => p,
            None => {
                return Err(String::from_str("Tried to move empty space!"));
            },
        };
        let moves = self.get_moves(position);
        let mut has_reg = false;
        let mut has_ds = false;
        let mut has_cr = false;
        let mut has_cl = false;
        let mut i: usize = 0;
        while i < moves.len()
            invariant
                i <= moves@.len(),
                has_reg <==> (exists|j: int|
                    0 <= j < i && #[trigger] moves@[j] == (mov, None::<SpecialMove>)),
                has_ds <==> (exists|j: int|
                    0 <= j < i && #[trigger] moves@[j] == (mov, Some(SpecialMove::Pawn2Step))),
                has_cr <==> (exists|j: int|
                    0 <= j < i && #[trigger] moves@[j] == (mov, Some(SpecialMove::CastlingRight))),
                has_cl <==> (exists|j: int|
                    0 <= j < i && #[trigger] moves@[j] == (mov, Some(SpecialMove::CastlingLeft))),
            decreases moves@.len() - i,
        {
            let (t, k) = moves[i];
            let ghost io = i as int;
            if t.0 == mov.0 && t.1 == mov.1 {
                proof {
                    assert(moves@[io].0 == mov);
                }
                match k {
                    None => has_reg = true,
                    Some(SpecialMove::Pawn2Step) => has_ds = true,
                    Some(SpecialMove::CastlingRight) => has_cr = true,
                    Some(SpecialMove::CastlingLeft) => has_cl = true,
                }
            }
            i += 1;
            proof {
                assert(moves@[io] == (t, k));
            }
        }
        proof {
            assert(has_reg <==> moves@.contains((mov, None::<SpecialMove>)));
            assert(has_ds <==> moves@.contains((mov, Some(SpecialMove::Pawn2Step))));
            assert(has_cr <==> moves@.contains((mov, Some(SpecialMove::CastlingRight))));
            assert(has_cl <==> moves@.contains((mov, Some(SpecialMove::CastlingLeft))));
        }
        if has_reg {
            // the record is written against the state before the move
            let promotion_rank: usize = if from_piece.color == Color::White {
                7
            } else {
                0
            };
            let record: String = if from_piece.piece_type == PieceType::Pawn && mov.1
                == promotion_rank {
                proof {
                    reveal_strlit(" Promotion");
                }
                let mut s = notation_pair(position, mov);
                s.append(" Promotion");
                s
            } else {
                let mut s = String::from_str(piece_letter_str(from_piece.piece_type));
                s.append(notation_pair(position, mov).as_str());
                s
            };
            let mut clear_at: Option<(usize, usize)> = None;
            if from_piece.piece_type == PieceType::Pawn {
                match self.passant_connection {
                    Some((cap, pq)) => {
                        if cap.0 == mov.0 && cap.1 == mov.1 && position.0 != mov.0 {
                            clear_at = Some(pq);
                        }
                    },
                    None => {},
                }
            }
            let _ = self.force_move(position, mov);
            match clear_at {
                Some(pq) => {
                    self.clear_square(pq);
                },
                None => {},
            }
            self.passant_connection = None;
            proof {
                assert((record)@ == spec_move_record(b, from, to));
                assert(self@ =~= b.after_sim(from, to).with_link(None));
            }
            Ok(record)
        } else if has_ds {
            proof {
                assert(b.double_step_ok(from) && ip(mov) == b.double_step_target(from));
            }
            let record = notation_pair(position, mov);
            let _ = self.force_move(position, mov);
            let skipped_y: usize = if from_piece.color == Color::White {
                mov.1 - 1
            } else {
                mov.1 + 1
            };
            self.passant_connection = Some(((mov.0, skipped_y), mov));
            proof {
                assert(self@ =~= b.after_force(from, to).with_link(
                    Some(((to.0, to.1 - pawn_dir(from_piece.color)), to)),
                ));
            }
            Ok(record)
        } else if has_cr {
            proof {
                assert(b.castle_ok(from, true) && ip(mov) == (6int, b.home_rank(from)));
                reveal_strlit("O-O");
            }
            let home: usize = if from_piece.color == Color::White {
                0
            } else {
                7
            };
            let _ = self.force_move(position, mov);
            proof {
                assert(self@.at(7, home as int) == b.at(7, home as int));
            }
            let _ = self.force_move((7, home), (5, home));
            self.passant_connection = None;
            proof {
                assert(self@ =~= b.after_force(from, to).after_force(
                    (7, b.home_rank(from)),
                    (5, b.home_rank(from)),
                ).with_link(None));
            }
            Ok(String::from_str("O-O"))
        } else if has_cl {
            proof {
                assert(b.castle_ok(from, false) && ip(mov) == (2int, b.home_rank(from)));
                reveal_strlit("O-O-O");
            }
            let home: usize = if from_piece.color == Color::White {
                0
            } else {
                7
            };
            let _ = self.force_move(position, mov);
            proof {
                assert(self@.at(0, home as int) == b.at(0, home as int));
            }
            let _ = self.force_move((0, home), (3, home));
            self.passant_connection = None;
            proof {
                assert(self@ =~= b.after_force(from, to).after_force(
                    (0, b.home_rank(from)),
                    (3, b.home_rank(from)),
                ).with_link(None));
            }
            Ok(String::from_str("O-O-O"))
        } else {
            Err(String::from_str("Tried to do illegal move!"))
        }
    }
}

impl BoardModel {
    /// The color's tracked king, if any, stands on an occupied square.
    pub open spec fn king_intact(self, c: Color) -> bool {
        match self.king_pos(c) {
            Some(k) => self.at(k.0, k.1) is Some,
            None => true,
        }
    }
}

/// Geometric reachability reads the grid alone, never the en-passant
/// link: two boards with equal grids agree on it.
proof fn lemma_reach_link_independent(
    m1: BoardModel,
    m2: BoardModel,
    x: int,
    y: int,
    t: (int, int),
    cont: bool,
    tx: int,
    ty: int,
)
    requires
        m1.grid == m2.grid,
    ensures
        m1.reach_tpl(x, y, t, cont, tx, ty) == m2.reach_tpl(x, y, t, cont, tx, ty),
{
    assert forall|a: int, b: int| true implies #[trigger] m1.at(a, b) == m2.at(a, b) by {}
    assert forall|i: int, k: int| true implies #[trigger] m1.clear_between(
        x,
        y,
        dir_at(t, i),
        k,
    ) == m2.clear_between(x, y, dir_at(t, i), k) by {
        let d = dir_at(t, i);
        if m1.clear_between(x, y, d, k) {
            assert forall|j: int| 1 <= j < k implies in_bounds(x + j * d.0, y + j * d.1) && (
            #[trigger] m2.at(x + j * d.0, y + j * d.1)) is None by {
                assert(m1.at(x + j * d.0, y + j * d.1) is None);
            }
        }
        if m2.clear_between(x, y, d, k) {
            assert forall|j: int| 1 <= j < k implies in_bounds(x + j * d.0, y + j * d.1) && (
            #[trigger] m1.at(x + j * d.0, y + j * d.1)) is None by {
                assert(m2.at(x + j * d.0, y + j * d.1) is None);
            }
        }
    }
    if m1.reach_tpl(x, y, t, cont, tx, ty) {
        let i = choose|i: int| 0 <= i < 4 && m1.reach_dir(x, y, dir_at(t, i), cont, tx, ty);
        if cont {
            let d = dir_at(t, i);
            let k = choose|k: int|
                1 <= k && tx == x + #[trigger] (k * d.0) && ty == y + k * d.1 && in_bounds(tx, ty)
                    && m1.clear_between(x, y, d, k);
            assert(m2.clear_between(x, y, d, k));
            assert(m2.ray_to(x, y, d, tx, ty));
        }
        assert(m2.reach_dir(x, y, dir_at(t, i), cont, tx, ty));
    }
    if m2.reach_tpl(x, y, t, cont, tx, ty) {
        let i = choose|i: int| 0 <= i < 4 && m2.reach_dir(x, y, dir_at(t, i), cont, tx, ty);
        if cont {
            let d = dir_at(t, i);
            let k = choose|k: int|
                1 <= k && tx == x + #[trigger] (k * d.0) && ty == y + k * d.1 && in_bounds(tx, ty)
                    && m2.clear_between(x, y, d, k);
            assert(m1.clear_between(x, y, d, k));
            assert(m1.ray_to(x, y, d, tx, ty));
        }
        assert(m1.reach_dir(x, y, dir_at(t, i), cont, tx, ty));
    }
}

/// A regular move onto an occupied square never goes through the
/// en-passant link: two boards that differ only in the link agree on
/// it.
proof fn lemma_regular_move_link_independent(
    m1: BoardModel,
    m2: BoardModel,
    pos: (int, int),
    to: (int, int),
)
    requires
        m1.grid == m2.grid,
        m1.at(to.0, to.1) is Some,
    ensures
        m1.regular_move_ok(pos, to) == m2.regular_move_ok(pos, to),
{
    assert(m2.at(to.0, to.1) is Some);
    match m1.at(pos.0, pos.1) {
        None => {},
        Some(p) => {
            if p.piece_type == PieceType::Pawn {
                assert(!m1.passant_target(to.0, to.1, p.color));
                assert(!m2.passant_target(to.0, to.1, p.color));
            } else {
                lemma_reach_link_independent(
                    m1,
                    m2,
                    pos.0,
                    pos.1,
                    tpl(p.movement.0),
                    p.moves_continous,
                    to.0,
                    to.1,
                );
                match p.movement.1 {
                    Some(m2t) => {
                        lemma_reach_link_independent(
                            m1,
                            m2,
                            pos.0,
                            pos.1,
                            tpl(m2t),
                            p.moves_continous,
                            to.0,
                            to.1,
                        );
                    },
                    None => {},
                }
            }
        },
    }
}

/// Whether a color is in check does not depend on the en-passant link
/// while its king's square is occupied: a check is a capture threat
/// onto an occupied square, and those read the grid alone.
proof fn lemma_checked_link_independent(m1: BoardModel, m2: BoardModel, c: Color)
    requires
        m1.grid == m2.grid,
        m1.white_king == m2.white_king,
        m1.black_king == m2.black_king,
        m1.king_intact(c),
    ensures
        m1.checked(c) == m2.checked(c),
{
    match m1.king_pos(c) {
        None => {},
        Some(k) => {
            assert forall|px: int, py: int| true implies #[trigger] m1.enemy_at(px, py, c)
                == m2.enemy_at(px, py, c) by {
                assert(m1.at(px, py) == m2.at(px, py));
            }
            if m1.threatened(k.0, k.1, c) {
                let (px, py) = choose|px: int, py: int|
                    in_bounds(px, py) && #[trigger] m1.enemy_at(px, py, c) && m1.regular_move_ok(
                        (px, py),
                        (k.0, k.1),
                    );
                lemma_regular_move_link_independent(m1, m2, (px, py), (k.0, k.1));
                assert(m2.enemy_at(px, py, c) && m2.regular_move_ok((px, py), (k.0, k.1)));
            }
            if m2.threatened(k.0, k.1, c) {
                let (px, py) = choose|px: int, py: int|
                    in_bounds(px, py) && #[trigger] m2.enemy_at(px, py, c) && m2.regular_move_ok(
                        (px, py),
                        (k.0, k.1),
                    );
                lemma_regular_move_link_independent(m1, m2, (px, py), (k.0, k.1));
                assert(m1.enemy_at(px, py, c) && m1.regular_move_ok((px, py), (k.0, k.1)));
            }
        },
    }
}

/// An accepted regular move, the en-passant capture included, never
/// leaves the mover's own king in check on the resulting board,
/// whatever en-passant link that board carries: the move generator
/// simulates every candidate and discards the ones that would. This
/// holds even when the danger is a discovered check.
pub proof fn lemma_no_self_check(
    b: BoardModel,
    from: (int, int),
    to: (int, int),
    l: Option<((int, int), (int, int))>,
)
    requires
        b.wf(),
        !b.after_sim(from, to).checked(b.color_at(from)),
        b.after_sim(from, to).king_intact(b.color_at(from)),
    ensures
        !b.after_sim(from, to).with_link(l).checked(b.color_at(from)),
{
    let s = b.after_sim(from, to);
    lemma_checked_link_independent(s, s.with_link(l), b.color_at(from));
}

} // verus!
