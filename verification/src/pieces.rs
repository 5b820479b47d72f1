//! Piece kinds, sides, and castling rights.
use vstd::prelude::*;

verus! {

/// The six chess piece kinds. A pure tag: all behaviour lives in the
/// move generator.
#[derive(Clone, Copy, PartialEq, Eq, Structural, Debug)]
pub enum PieceType {
    Pawn,
    Knight,
    Bishop,
    Rook,
    Queen,
    King,
}

/// The four castling moves, tagged by side and wing.
#[derive(Clone, Copy, PartialEq, Eq, Structural, Debug)]
pub enum Castling {
    BlackKingside,
    BlackQueenside,
    WhiteKingside,
    WhiteQueenside,
}

/// A side. White moves first.
#[derive(Clone, Copy, PartialEq, Eq, Structural, Debug)]
pub enum Color {
    Black,
    White,
}

impl Color {
    /// The opposing side.
    pub open spec fn invert_spec(&self) -> Color {
        match self {
            Color::Black => Color::White,
            Color::White => Color::Black,
        }
    }

    /// The opposing side.
    #[verifier::when_used_as_spec(invert_spec)]
    pub fn invert(&self) -> (c: Color)
        ensures
            c == self.invert_spec(),
    {
        match self {
            Color::Black => Color::White,
            Color::White => Color::Black,
        }
    }
}

/// One occupant of a board square: a kind together with its side.
#[derive(Clone, Copy, PartialEq, Eq, Structural, Debug)]
pub struct Piece {
    pub piece_type: PieceType,
    pub color: Color,
}

/// The four independent castling permissions (side times wing). They record
/// what is currently available, never history; a right can be revoked but
/// never re-granted.
#[derive(Clone, Copy, PartialEq, Eq, Structural, Debug)]
pub struct CastlingRights {
    pub white_queenside: bool,
    pub white_kingside: bool,
    pub black_queenside: bool,
    pub black_kingside: bool,
}

impl CastlingRights {
    /// All four rights held, as at the start of a game.
    pub open spec fn full() -> CastlingRights {
        CastlingRights {
            white_queenside: true,
            white_kingside: true,
            black_queenside: true,
            black_kingside: true,
        }
    }

    /// No rights held. Also the empty revocation delta carried by a move
    /// that forfeits nothing.
    pub open spec fn empty() -> CastlingRights {
        CastlingRights {
            white_queenside: false,
            white_kingside: false,
            black_queenside: false,
            black_kingside: false,
        }
    }

    /// Every right held in `self` is also held in `other`.
    pub open spec fn subset_of(self, other: CastlingRights) -> bool {
        &&& (self.white_queenside ==> other.white_queenside)
        &&& (self.white_kingside ==> other.white_kingside)
        &&& (self.black_queenside ==> other.black_queenside)
        &&& (self.black_kingside ==> other.black_kingside)
    }

    /// The rights of `self` with every right in `delta` revoked.
    pub open spec fn minus(self, delta: CastlingRights) -> CastlingRights {
        CastlingRights {
            white_queenside: self.white_queenside && !delta.white_queenside,
            white_kingside: self.white_kingside && !delta.white_kingside,
            black_queenside: self.black_queenside && !delta.black_queenside,
            black_kingside: self.black_kingside && !delta.black_kingside,
        }
    }

    /// The rights of `self` with every right in `delta` granted back.
    pub open spec fn plus(self, delta: CastlingRights) -> CastlingRights {
        CastlingRights {
            white_queenside: self.white_queenside || delta.white_queenside,
            white_kingside: self.white_kingside || delta.white_kingside,
            black_queenside: self.black_queenside || delta.black_queenside,
            black_kingside: self.black_kingside || delta.black_kingside,
        }
    }
}

impl Default for CastlingRights {
    /// All four rights held.
    fn default() -> (r: CastlingRights)
        ensures
            r == CastlingRights::full(),
    {
        CastlingRights {
            white_queenside: true,
            white_kingside: true,
            black_queenside: true,
            black_kingside: true,
        }
    }
}

} // verus!
