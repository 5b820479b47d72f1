//! Board coordinates and the reversible move record.
use vstd::prelude::*;
use crate::pieces::Castling;
use crate::pieces::CastlingRights;
use crate::pieces::PieceType;

verus! {

/// A board coordinate as (row, column). It is valid iff both components lie
/// in [0, 8); validity is checked at every board access and every move-target
/// candidate, and invalid coordinates never enter a move list.
pub type Square = (i8, i8);

/// Both components of `s` lie in [0, 8).
pub open spec fn valid_sq(s: Square) -> bool {
    0 <= s.0 < 8 && 0 <= s.1 < 8
}

/// `Some(*square)` when the coordinate lies on the board, `None` otherwise.
pub fn is_valid_square(square: &Square) -> (r: Option<Square>)
    ensures
        r == (if valid_sq(*square) {
            Some(*square)
        } else {
            None::<Square>
        }),
{
    if 0 <= square.0 && square.0 < 8 && 0 <= square.1 && square.1 < 8 {
        Some(*square)
    } else {
        None
    }
}

/// One fully self-describing ply. A `Move` is a pure value carrying
/// everything needed both to apply it and to reverse it exactly: it never
/// stores a reference into the board.
#[derive(Clone, Copy, PartialEq, Debug)]
pub struct Move {
    /// Source coordinate.
    pub from: Square,
    /// Destination coordinate.
    pub to: Square,
    /// The kind that stood on the destination before the move, if any.
    pub capture: Option<PieceType>,
    /// The castling variant performed, if this move castles.
    pub castle: Option<Castling>,
    /// The rights this move revokes: exactly those still held that moving
    /// this piece forfeits. Default all-false.
    pub losing_castle_rights: CastlingRights,
    /// The kind a pawn promotes to on reaching the last rank, if any.
    pub promotion: Option<PieceType>,
    /// The square whose pawn is removed by an en-passant capture, if any
    /// (distinct from the destination).
    pub en_passant_capture: Option<Square>,
    /// The square vacated by a two-square pawn advance: the new en-passant
    /// target, if any.
    pub en_passant_target_square: Option<Square>,
    /// The half-move clock value that results from this move.
    pub halfmove_clock: u8,
}

impl Move {
    /// The all-empty move template: both squares at the origin, nothing
    /// captured, castled, revoked or promoted, and a zero clock.
    pub open spec fn blank() -> Move {
        Move {
            from: (0i8, 0i8),
            to: (0i8, 0i8),
            capture: None,
            castle: None,
            losing_castle_rights: CastlingRights::empty(),
            promotion: None,
            en_passant_capture: None,
            en_passant_target_square: None,
            halfmove_clock: 0,
        }
    }

    /// `self` with its promotion field cleared.
    pub open spec fn strip_promotion(self) -> Move {
        Move { promotion: None, ..self }
    }

    /// `self` with its promotion field set to `kind`.
    pub open spec fn with_promotion(self, kind: PieceType) -> Move {
        Move { promotion: Some(kind), ..self }
    }
}

impl Default for Move {
    /// The all-empty move template.
    fn default() -> (m: Move)
        ensures
            m == Move::blank(),
    {
        Move {
            from: (0i8, 0i8),
            to: (0i8, 0i8),
            capture: None,
            castle: None,
            losing_castle_rights: CastlingRights {
                white_queenside: false,
                white_kingside: false,
                black_queenside: false,
                black_kingside: false,
            },
            promotion: None,
            en_passant_capture: None,
            en_passant_target_square: None,
            halfmove_clock: 0,
        }
    }
}

} // verus!
