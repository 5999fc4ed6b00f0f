use vstd::prelude::*;

verus! {

/// One intersection of a Go board: empty, or occupied by one of the two players.
#[derive(Clone, Copy, Debug, PartialEq, Eq, Structural)]
pub enum Stone {
    Empty,
    Black,
    White,
}

/// The color opposing `c`; `Empty` has no opponent and maps to itself.
pub open spec fn opponent(c: Stone) -> Stone {
    match c {
        Stone::Empty => Stone::Empty,
        Stone::Black => Stone::White,
        Stone::White => Stone::Black,
    }
}

/// The glyph each cell state is drawn with: a dot operator for an empty
/// intersection, a black circle for Black, a white circle for White.
pub open spec fn stone_glyph(c: Stone) -> char {
    match c {
        Stone::Empty => '\u{22C5}',
        Stone::Black => '\u{25CF}',
        Stone::White => '\u{25CB}',
    }
}

impl Stone {
    /// The display glyph for this cell state.
    pub fn char(&self) -> (r: char)
        ensures
            r == stone_glyph(*self),
    {
        match *self {
            Stone::Empty => '\u{22C5}',
            Stone::Black => '\u{25CF}',
            Stone::White => '\u{25CB}',
        }
    }

    /// The opposing color.
    pub fn not(&self) -> (r: Stone)
        ensures
            r == opponent(*self),
    {
        match *self {
            Stone::Empty => Stone::Empty,
            Stone::Black => Stone::White,
            Stone::White => Stone::Black,
        }
    }
}

} // verus!
