//! Engine-wide laws: the legality invariant of the cached table, the exact
//! apply/undo round trip, promotion pairing, the castling-offer and
//! castling-rights rules, the en-passant window, and the rejection of
//! requests from foreign squares.
use vstd::prelude::*;
use crate::game::first_match;
use crate::game::Game;
use crate::moves::valid_sq;
use crate::moves::Move;
use crate::moves::Square;
use crate::pieces::Color;
use crate::pieces::Piece;
use crate::pieces::PieceType;
use crate::rules::apply_pos;
use crate::rules::at;
use crate::rules::castle_kingside_ok;
use crate::rules::castle_queenside_ok;
use crate::rules::in_check_reply;
use crate::rules::kingside_right;
use crate::rules::move_legal;
use crate::rules::pseudo_move_ok;
use crate::rules::queenside_right;
use crate::rules::sq_index;
use crate::rules::Position;

verus! {

/// The core legality invariant: no move cached for the side to move leaves
/// that side's king capturable on the opponent's immediate reply.
pub proof fn law_table_protects_king(g: Game, s: Square, m: Move)
    requires
        g.inv(),
        valid_sq(s),
        g@.table[sq_index(s)].contains(m),
    ensures
        !in_check_reply(apply_pos(g@.pos(), m)),
{
    assert(move_legal(g@.pos(), s, m));
}

/// Applying any cached legal move and then undoing it restores board, side
/// to move, rights, en-passant target, half-move clock and full-move number
/// to bit-identical prior values — castling, promotion and en-passant
/// captures included. The one excluded input is a full-move number already
/// saturated at its ceiling with the second side to move, where the
/// round trip returns one short of the ceiling.
pub proof fn law_apply_undo_round_trip(g: Game, s: Square, m: Move)
    requires
        g.inv(),
        valid_sq(s),
        g@.table[sq_index(s)].contains(m),
        g.turn == Color::Black ==> g.fullmove_number < 0xffff,
    ensures
        g@.apply(m).undo() == g@,
{
    assert(move_legal(g@.pos(), s, m));
    assert(g@.trimmed().chain_inv());
    assert(g@.trimmed().pos() =~= g@.pos());
    assert(crate::rules::state_inv(g@.pos()));
    crate::rules::lemma_pseudo_move_ok(g@.pos(), s, m);
    crate::game::lemma_apply_undo(g@, m);
    assert(g@.apply(m).undo() =~= g@);
}

/// Every cached move that promotes offers a queen or a knight, and both
/// variants are always cached together: a pawn reaching the last rank
/// yields at least those two legal moves, differing only in promotion kind.
pub proof fn law_promotion_pair(g: Game, s: Square, m: Move)
    requires
        g.inv(),
        valid_sq(s),
        g@.table[sq_index(s)].contains(m),
        m.promotion is Some,
    ensures
        m.promotion == Some(PieceType::Queen) || m.promotion == Some(PieceType::Knight),
        g@.table[sq_index(s)].contains(m.with_promotion(PieceType::Queen)),
        g@.table[sq_index(s)].contains(m.with_promotion(PieceType::Knight)),
{
    let p = g@.pos();
    assert(move_legal(p, s, m));
    assert(g@.trimmed().chain_inv());
    assert(g@.trimmed().pos() =~= p);
    assert(crate::rules::state_inv(p));
    crate::rules::lemma_promotion_kinds(p, s, m);
    crate::rules::lemma_promotion_siblings(p, s, m);
    let mq = m.with_promotion(PieceType::Queen);
    let mn = m.with_promotion(PieceType::Knight);
    crate::rules::lemma_check_same_for_promotions(p, s, m, mq);
    crate::rules::lemma_check_same_for_promotions(p, s, m, mn);
    assert(move_legal(p, s, mq));
    assert(move_legal(p, s, mn));
}

/// No cached move of a pawn onto the last rank is ever unpromoted.
pub proof fn law_no_bare_promotion(g: Game, s: Square, m: Move)
    requires
        g.inv(),
        valid_sq(s),
        g@.table[sq_index(s)].contains(m),
        at(g@.pos(), s) matches Some(pc) && pc.piece_type == PieceType::Pawn,
        crate::rules::last_rank(m.to.0),
    ensures
        m.promotion == Some(PieceType::Queen) || m.promotion == Some(PieceType::Knight),
{
    assert(move_legal(g@.pos(), s, m));
    assert(crate::rules::pawn_move_ok(g@.pos(), g@.turn, s, m));
}

/// Castling is offered iff the relevant right is held and every square
/// strictly between king and rook is empty: exactly then does the
/// generator's move set contain the kingside castling move for the king
/// standing on its home square.
pub proof fn law_castling_offered_iff_kingside(p: Position, m: Move)
    requires
        at(p, crate::rules::king_home(p.turn)) == Some(
            Piece { piece_type: PieceType::King, color: p.turn },
        ),
        m == (Move {
            from: crate::rules::king_home(p.turn),
            to: (crate::rules::king_home(p.turn).0, 6i8),
            castle: Some(crate::rules::kingside_variant(p.turn)),
            losing_castle_rights: crate::rules::lose_all(p.turn, p.rights),
            halfmove_clock: crate::rules::bump_clock(p.clock),
            ..Move::blank()
        }),
    ensures
        pseudo_move_ok(p, crate::rules::king_home(p.turn), m) <==> (kingside_right(
            p.rights,
            p.turn,
        ) && at(p, (crate::rules::king_home(p.turn).0, 5i8)) is None && at(
            p,
            (crate::rules::king_home(p.turn).0, 6i8),
        ) is None),
{
    let s = crate::rules::king_home(p.turn);
    if pseudo_move_ok(p, s, m) {
        assert(crate::rules::king_move_ok(p, p.turn, s, m));
        assert(castle_kingside_ok(p, p.turn, s, m)) by {
            if !castle_kingside_ok(p, p.turn, s, m) {
                crate::rules::lemma_king_castle_form(p, p.turn, s, m);
            }
        }
    }
    if kingside_right(p.rights, p.turn) && at(p, (s.0, 5i8)) is None && at(
        p,
        (s.0, 6i8),
    ) is None {
        assert(castle_kingside_ok(p, p.turn, s, m));
    }
}

/// The queenside form of the same offer rule.
pub proof fn law_castling_offered_iff_queenside(p: Position, m: Move)
    requires
        at(p, crate::rules::king_home(p.turn)) == Some(
            Piece { piece_type: PieceType::King, color: p.turn },
        ),
        m == (Move {
            from: crate::rules::king_home(p.turn),
            to: (crate::rules::king_home(p.turn).0, 2i8),
            castle: Some(crate::rules::queenside_variant(p.turn)),
            losing_castle_rights: crate::rules::lose_all(p.turn, p.rights),
            ..Move::blank()
        }),
    ensures
        pseudo_move_ok(p, crate::rules::king_home(p.turn), m) <==> (queenside_right(
            p.rights,
            p.turn,
        ) && at(p, (crate::rules::king_home(p.turn).0, 1i8)) is None && at(
            p,
            (crate::rules::king_home(p.turn).0, 2i8),
        ) is None && at(p, (crate::rules::king_home(p.turn).0, 3i8)) is None),
{
    let s = crate::rules::king_home(p.turn);
    if pseudo_move_ok(p, s, m) {
        assert(crate::rules::king_move_ok(p, p.turn, s, m));
        assert(castle_queenside_ok(p, p.turn, s, m)) by {
            if !castle_queenside_ok(p, p.turn, s, m) {
                crate::rules::lemma_king_castle_form(p, p.turn, s, m);
            }
        }
    }
    if queenside_right(p.rights, p.turn) && at(p, (s.0, 1i8)) is None && at(p, (s.0, 2i8)) is None
        && at(p, (s.0, 3i8)) is None {
        assert(castle_queenside_ok(p, p.turn, s, m));
    }
}

/// Applying a move never re-grants a castling right.
pub proof fn law_rights_never_regranted(p: Position, m: Move)
    ensures
        apply_pos(p, m).rights.subset_of(p.rights),
{
}

/// Any move of a king forfeits every right its side still holds.
pub proof fn law_king_move_clears_rights(p: Position, s: Square, m: Move)
    requires
        pseudo_move_ok(p, s, m),
        at(p, s) matches Some(pc) && pc.piece_type == PieceType::King,
    ensures
        !kingside_right(apply_pos(p, m).rights, p.turn),
        !queenside_right(apply_pos(p, m).rights, p.turn),
{
    crate::rules::lemma_king_loses_all_pub(p, s, m);
}

/// Any move of a rook standing on a home corner forfeits that wing's right
/// for good, castling or not.
pub proof fn law_rook_move_clears_wing(p: Position, s: Square, m: Move)
    requires
        pseudo_move_ok(p, s, m),
        at(p, s) matches Some(pc) && pc.piece_type == PieceType::Rook,
    ensures
        s == (crate::rules::king_home(p.turn).0, 7i8) ==> !kingside_right(
            apply_pos(p, m).rights,
            p.turn,
        ),
        s == (crate::rules::king_home(p.turn).0, 0i8) ==> !queenside_right(
            apply_pos(p, m).rights,
            p.turn,
        ),
{
    crate::rules::lemma_rook_corner_delta(p, s, m);
}

/// An en-passant capture is generated only when its destination is the
/// current en-passant target: the square stamped by the opposing two-square
/// advance on the immediately preceding ply.
pub proof fn law_en_passant_needs_target(p: Position, s: Square, m: Move)
    requires
        pseudo_move_ok(p, s, m),
        m.en_passant_capture is Some,
    ensures
        p.ep == Some(m.to),
{
    crate::rules::lemma_en_passant_target(p, s, m);
}

/// One ply later the window is shut: every applied move overwrites the
/// en-passant target with its own stamp, which only a two-square pawn
/// advance carries, so after any other reply no en-passant capture exists
/// anywhere on the board.
pub proof fn law_en_passant_expires(p: Position, s: Square, m: Move, s2: Square, m2: Move)
    requires
        pseudo_move_ok(p, s, m),
        m.en_passant_target_square is None,
        pseudo_move_ok(apply_pos(p, m), s2, m2),
    ensures
        m2.en_passant_capture is None,
{
    if m2.en_passant_capture is Some {
        crate::rules::lemma_en_passant_target(apply_pos(p, m), s2, m2);
    }
}

/// A request from a square that does not hold the side to move's piece
/// always fails: no move is cached there, so `request_move` reports failure
/// and leaves position and history untouched.
pub proof fn law_request_from_foreign_square_fails(g: Game, from: Square, to: Square)
    requires
        g.inv(),
        valid_sq(from) ==> !(at(g@.pos(), from) matches Some(pc) && pc.color == g.turn),
    ensures
        !(valid_sq(from) && first_match(g@.table[sq_index(from)], to) is Some),
{
    if valid_sq(from) && first_match(g@.table[sq_index(from)], to) is Some {
        crate::game::lemma_first_match_contains(g@.table[sq_index(from)], to);
        let m = first_match(g@.table[sq_index(from)], to)->Some_0;
        assert(g@.table[sq_index(from)].contains(m));
        assert(move_legal(g@.pos(), from, m));
    }
}

} // verus!
