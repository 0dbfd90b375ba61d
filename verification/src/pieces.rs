use vstd::prelude::*;

verus! {

/// A board square's contents: a piece of one colour, or nothing.
/// The colour flag is `true` for White and `false` for Black.
#[derive(Copy, Clone, PartialEq, Eq, Structural, Debug)]
pub enum Pieces {
    Pawn(bool),
    Bishop(bool),
    Knight(bool),
    Rook(bool),
    Queen(bool),
    King(bool),
    Empty,
}

impl Pieces {
    /// The colour a non-empty piece carries.
    pub open spec fn colour_spec(self) -> Option<bool> {
        match self {
            Pieces::Pawn(x) => Some(x),
            Pieces::Bishop(x) => Some(x),
            Pieces::Knight(x) => Some(x),
            Pieces::Rook(x) => Some(x),
            Pieces::Queen(x) => Some(x),
            Pieces::King(x) => Some(x),
            Pieces::Empty => None,
        }
    }

    /// The colour of the piece, or `None` for an empty square.
    pub fn colour(&self) -> (r: Option<bool>)
        ensures
            r == self.colour_spec(),
    {
        match self {
            Pieces::Bishop(x) => Some(*x),
            Pieces::Knight(x) => Some(*x),
            Pieces::Pawn(x) => Some(*x),
            Pieces::Rook(x) => Some(*x),
            Pieces::King(x) => Some(*x),
            Pieces::Queen(x) => Some(*x),
            Pieces::Empty => None,
        }
    }

    /// The one-character board symbol: uppercase for White, lowercase for
    /// Black, a space for an empty square.
    pub open spec fn symbol_spec(self) -> Seq<char> {
        match self {
            Pieces::Rook(c) => if c { "R"@ } else { "r"@ },
            Pieces::Bishop(c) => if c { "B"@ } else { "b"@ },
            Pieces::Knight(c) => if c { "N"@ } else { "n"@ },
            Pieces::Queen(c) => if c { "Q"@ } else { "q"@ },
            Pieces::King(c) => if c { "K"@ } else { "k"@ },
            Pieces::Pawn(c) => if c { "P"@ } else { "p"@ },
            Pieces::Empty => " "@,
        }
    }

    /// Renders the piece as its display symbol.
    pub fn symbol(&self) -> (r: String)
        ensures
            r@ == self.symbol_spec(),
    {
        (match self {
            Pieces::Rook(true) => "R",
            Pieces::Rook(false) => "r",
            Pieces::Bishop(true) => "B",
            Pieces::Bishop(false) => "b",
            Pieces::Knight(true) => "N",
            Pieces::Knight(false) => "n",
            Pieces::Queen(true) => "Q",
            Pieces::Queen(false) => "q",
            Pieces::King(true) => "K",
            Pieces::King(false) => "k",
            Pieces::Pawn(true) => "P",
            Pieces::Pawn(false) => "p",
            Pieces::Empty => " ",
        }).to_string()
    }
}

} // verus!
