//! A rules engine for standard chess.
//!
//! The crate owns the board state, enumerates legal moves per piece,
//! detects check and checkmate, and applies validated moves including the
//! special cases (pawn double-step, en passant, castling, promotion).
//! `chess_game` is the turn-taking wrapper collaborators talk to,
//! `board_logic` holds the geometry and legality rules, `piece_logic` the
//! piece catalog, and `connection_lib` a compact wire encoding of moves.
//! This file holds the coordinate codec: zero-based board coordinates
//! against one-based algebraic notation ("a1".."h8").

use vstd::prelude::*;

pub mod board_logic;
pub mod chess_game;
pub mod connection_lib;
pub mod piece_logic;

verus! {

/// The file letter of column `x`, or `' '` outside `[0, 7]`.
pub open spec fn file_char(x: int) -> char {
    if x == 0 {
        'a'
    } else if x == 1 {
        'b'
    } else if x == 2 {
        'c'
    } else if x == 3 {
        'd'
    } else if x == 4 {
        'e'
    } else if x == 5 {
        'f'
    } else if x == 6 {
        'g'
    } else if x == 7 {
        'h'
    } else {
        ' '
    }
}

/// The rank digit of row `y`, or `' '` outside `[0, 7]`.
pub open spec fn rank_char(y: int) -> char {
    if y == 0 {
        '1'
    } else if y == 1 {
        '2'
    } else if y == 2 {
        '3'
    } else if y == 3 {
        '4'
    } else if y == 4 {
        '5'
    } else if y == 5 {
        '6'
    } else if y == 6 {
        '7'
    } else if y == 7 {
        '8'
    } else {
        ' '
    }
}

/// The column encoded by a file letter, or `-1` if the character is not
/// a lowercase file letter `'a'..'h'`.
pub open spec fn file_of(c: char) -> int {
    if c == 'a' {
        0
    } else if c == 'b' {
        1
    } else if c == 'c' {
        2
    } else if c == 'd' {
        3
    } else if c == 'e' {
        4
    } else if c == 'f' {
        5
    } else if c == 'g' {
        6
    } else if c == 'h' {
        7
    } else {
        -1
    }
}

/// The row encoded by a rank digit, or `-1` if the character is not
/// a digit `'1'..'8'`.
pub open spec fn rank_of(c: char) -> int {
    if c == '1' {
        0
    } else if c == '2' {
        1
    } else if c == '3' {
        2
    } else if c == '4' {
        3
    } else if c == '5' {
        4
    } else if c == '6' {
        5
    } else if c == '7' {
        6
    } else if c == '8' {
        7
    } else {
        -1
    }
}

/// The two-character algebraic notation of the coordinate `(x, y)`.
pub open spec fn notation_seq(x: int, y: int) -> Seq<char> {
    seq![file_char(x), rank_char(y)]
}

/// The coordinate a two-character notation denotes, if well formed:
/// exactly two characters, a lowercase file letter then a rank digit.
pub open spec fn coords_of(s: Seq<char>) -> Option<(int, int)> {
    if s.len() == 2 && file_of(s[0]) >= 0 && rank_of(s[1]) >= 0 {
        Some((file_of(s[0]), rank_of(s[1])))
    } else {
        None
    }
}

/// Parses one-based algebraic notation ("a1".."h8") into a zero-based
/// board coordinate. Rejects any other length or alphabet.
pub fn to_coords(input: String) -> (r: Result<(usize, usize), String>)
    ensures
        match r {
            Ok(c) => {
                &&& coords_of(input@) == Some((c.0 as int, c.1 as int))
                &&& c.0 < 8
                &&& c.1 < 8
            },
            Err(m) => coords_of(input@) is None && m@ == "invalid notation, cannot find coords on board"@,
        },
{
    let s = input.as_str();
    if s.unicode_len() != 2 {
        return Err(String::from_str("invalid notation, cannot find coords on board"));
    }
    let fc = s.get_char(0);
    let rc = s.get_char(1);
    let x: usize = match fc {
        'a' => 0,
        'b' => 1,
        'c' => 2,
        'd' => 3,
        'e' => 4,
        'f' => 5,
        'g' => 6,
        'h' => 7,
        _ => {
            return Err(String::from_str("invalid notation, cannot find coords on board"));
        },
    };
    let y: usize = match rc {
        '1' => 0,
        '2' => 1,
        '3' => 2,
        '4' => 3,
        '5' => 4,
        '6' => 5,
        '7' => 6,
        '8' => 7,
        _ => {
            return Err(String::from_str("invalid notation, cannot find coords on board"));
        },
    };
    Ok((x, y))
}

/// The file letter of column `x` as a string slice.
fn file_str(x: usize) -> (r: &'static str)
    requires
        x < 8,
    ensures
        r@ =~= seq![file_char(x as int)],
{
    proof {
        reveal_strlit("a");
        reveal_strlit("b");
        reveal_strlit("c");
        reveal_strlit("d");
        reveal_strlit("e");
        reveal_strlit("f");
        reveal_strlit("g");
        reveal_strlit("h");
    }
    match x {
        0 => "a",
        1 => "b",
        2 => "c",
        3 => "d",
        4 => "e",
        5 => "f",
        6 => "g",
        _ => "h",
    }
}

/// The rank digit of row `y` as a string slice.
fn rank_str(y: usize) -> (r: &'static str)
    requires
        y < 8,
    ensures
        r@ =~= seq![rank_char(y as int)],
{
    proof {
        reveal_strlit("1");
        reveal_strlit("2");
        reveal_strlit("3");
        reveal_strlit("4");
        reveal_strlit("5");
        reveal_strlit("6");
        reveal_strlit("7");
        reveal_strlit("8");
    }
    match y {
        0 => "1",
        1 => "2",
        2 => "3",
        3 => "4",
        4 => "5",
        5 => "6",
        6 => "7",
        _ => "8",
    }
}

/// Formats a zero-based board coordinate as algebraic notation.
/// Rejects coordinates outside the board, strictly `[0, 7]` on both axes.
pub fn to_notation(position: (usize, usize)) -> (r: Result<String, String>)
    ensures
        match r {
            Ok(s) => position.0 < 8 && position.1 < 8 && s@ == notation_seq(
                position.0 as int,
                position.1 as int,
            ),
            Err(m) => (position.0 >= 8 || position.1 >= 8) && m@
                == "tried to access non-existent boardspace"@,
        },
{
    let (x, y) = position;
    if x >= 8 || y >= 8 {
        return Err(String::from_str("tried to access non-existent boardspace"));
    }
    let fs = file_str(x);
    let rs = rank_str(y);
    let out = String::from_str(fs).concat(rs);
    proof {
        assert(out@ =~= notation_seq(x as int, y as int));
    }
    Ok(out)
}

/// Formatting then parsing gives back every valid coordinate.
pub proof fn lemma_notation_round_trip(x: int, y: int)
    requires
        0 <= x < 8,
        0 <= y < 8,
    ensures
        coords_of(notation_seq(x, y)) == Some((x, y)),
{
}

/// Parsing then formatting gives back every well-formed two-character
/// notation string.
pub proof fn lemma_coords_round_trip(s: Seq<char>)
    requires
        coords_of(s) is Some,
    ensures
        notation_seq(coords_of(s)->Some_0.0, coords_of(s)->Some_0.1) == s,
{
    assert(notation_seq(coords_of(s)->Some_0.0, coords_of(s)->Some_0.1) =~= s);
}

} // verus!
