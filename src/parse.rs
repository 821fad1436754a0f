use vstd::prelude::*;
use vstd::string::StrSliceExecFns;

verus! {

/// A piece as named in board requests; `U` marks an upgraded piece.
#[allow(non_camel_case_types)]
#[derive(Clone, Copy, Debug, PartialEq, Eq, Structural)]
pub enum Piece {
    b,
    B,
    E,
    k,
    K,
    L,
    n,
    N,
    p,
    P,
    q,
    Q,
    r,
    R,
    Ub,
    UB,
    Un,
    UN,
    Uq,
    UQ,
    Ur,
    UR,
}

pub open spec fn single_piece(c: char) -> Option<Piece> {
    if c == 'b' {
        Some(Piece::b)
    } else if c == 'B' {
        Some(Piece::B)
    } else if c == 'E' {
        Some(Piece::E)
    } else if c == 'k' {
        Some(Piece::k)
    } else if c == 'K' {
        Some(Piece::K)
    } else if c == 'L' {
        Some(Piece::L)
    } else if c == 'n' {
        Some(Piece::n)
    } else if c == 'N' {
        Some(Piece::N)
    } else if c == 'p' {
        Some(Piece::p)
    } else if c == 'P' {
        Some(Piece::P)
    } else if c == 'q' {
        Some(Piece::q)
    } else if c == 'Q' {
        Some(Piece::Q)
    } else if c == 'r' {
        Some(Piece::r)
    } else if c == 'R' {
        Some(Piece::R)
    } else {
        None
    }
}

pub open spec fn upgraded_piece(c: char) -> Option<Piece> {
    if c == 'b' {
        Some(Piece::Ub)
    } else if c == 'B' {
        Some(Piece::UB)
    } else if c == 'n' {
        Some(Piece::Un)
    } else if c == 'N' {
        Some(Piece::UN)
    } else if c == 'q' {
        Some(Piece::Uq)
    } else if c == 'Q' {
        Some(Piece::UQ)
    } else if c == 'r' {
        Some(Piece::Ur)
    } else if c == 'R' {
        Some(Piece::UR)
    } else {
        None
    }
}

/// The piece a name denotes: one letter, or `U` and a letter for an upgraded
/// bishop, knight, queen or rook.
pub open spec fn piece_of(s: Seq<char>) -> Option<Piece> {
    if s.len() == 1 {
        single_piece(s[0])
    } else if s.len() == 2 && s[0] == 'U' {
        upgraded_piece(s[1])
    } else {
        None
    }
}

fn parse_single(c: char) -> (r: Option<Piece>)
    ensures
        r == single_piece(c),
{
    match c {
        'b' => Some(Piece::b),
        'B' => Some(Piece::B),
        'E' => Some(Piece::E),
        'k' => Some(Piece::k),
        'K' => Some(Piece::K),
        'L' => Some(Piece::L),
        'n' => Some(Piece::n),
        'N' => Some(Piece::N),
        'p' => Some(Piece::p),
        'P' => Some(Piece::P),
        'q' => Some(Piece::q),
        'Q' => Some(Piece::Q),
        'r' => Some(Piece::r),
        'R' => Some(Piece::R),
        _ => None,
    }
}

fn parse_upgraded(c: char) -> (r: Option<Piece>)
    ensures
        r == upgraded_piece(c),
{
    match c {
        'b' => Some(Piece::Ub),
        'B' => Some(Piece::UB),
        'n' => Some(Piece::Un),
        'N' => Some(Piece::UN),
        'q' => Some(Piece::Uq),
        'Q' => Some(Piece::UQ),
        'r' => Some(Piece::Ur),
        'R' => Some(Piece::UR),
        _ => None,
    }
}

pub fn parse_piece(s: &str) -> (r: Option<Piece>)
    ensures
        r == piece_of(s@),
{
    let len = s.unicode_len();
    if len == 1 {
        parse_single(s.get_char(0))
    } else if len == 2 && s.get_char(0) == 'U' {
        parse_upgraded(s.get_char(1))
    } else {
        None
    }
}

/// A square `(col, row)`: exactly two characters, a column `a`..`h` and a row
/// `0`..`7`.
pub open spec fn square_of(s: Seq<char>) -> Option<(usize, usize)> {
    if s.len() == 2 && 97 <= (s[0] as u32) <= 104 && 48 <= (s[1] as u32) <= 55 {
        Some((((s[0] as u32) - 97) as usize, ((s[1] as u32) - 48) as usize))
    } else {
        None
    }
}

pub fn parse_pos(s: &str) -> (r: Option<(usize, usize)>)
    ensures
        r == square_of(s@),
{
    if s.unicode_len() != 2 {
        return None;
    }
    let col = s.get_char(0) as u32;
    let row = s.get_char(1) as u32;
    if 97 <= col && col <= 104 && 48 <= row && row <= 55 {
        Some(((col - 97) as usize, (row - 48) as usize))
    } else {
        None
    }
}

} // verus!
