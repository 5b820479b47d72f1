//! The mathematical model of the engine: positions, the pseudo-legal move
//! relation for every piece kind, move application, check detection, and the
//! conditions under which a move can be reversed exactly.
use vstd::prelude::*;
use crate::moves::valid_sq;
use crate::moves::Move;
use crate::moves::Square;
use crate::pieces::Castling;
use crate::pieces::CastlingRights;
use crate::pieces::Color;
use crate::pieces::Piece;
use crate::pieces::PieceType;

verus! {

/// The part of a game a move generator looks at: occupancy, side to move,
/// castling rights, en-passant target and the half-move clock. The board is
/// a row-major sequence of 64 cells.
#[verifier::ext_equal]
pub struct Position {
    pub board: Seq<Option<Piece>>,
    pub turn: Color,
    pub rights: CastlingRights,
    pub ep: Option<Square>,
    pub clock: u8,
}

/// Row-major index of a square.
pub open spec fn sq_index(s: Square) -> int {
    s.0 * 8 + s.1
}

/// The square with the given (possibly computed) row and column.
pub open spec fn mk_sq(r: int, c: int) -> Square {
    (r as i8, c as i8)
}

/// The occupant of `s`, meaningful only for valid squares.
pub open spec fn at(p: Position, s: Square) -> Option<Piece> {
    p.board[sq_index(s)]
}

/// The half-move clock after one more quiet ply, held at its ceiling rather
/// than wrapping.
pub open spec fn bump_clock(c: u8) -> u8 {
    if c < 255 {
        (c + 1) as u8
    } else {
        255u8
    }
}

/// A non-capturing move with the given resulting clock and nothing else set.
pub open spec fn quiet_move(from: Square, to: Square, clock: u8) -> Move {
    Move { from, to, halfmove_clock: clock, ..Move::blank() }
}

/// A capture of `kind`, resetting the half-move clock.
pub open spec fn capture_move(from: Square, to: Square, kind: PieceType) -> Move {
    Move { from, to, capture: Some(kind), ..Move::blank() }
}

/// `m` with the given rights-revocation delta.
pub open spec fn with_losing(m: Move, delta: CastlingRights) -> Move {
    Move { losing_castle_rights: delta, ..m }
}

/// What a single move-or-capture candidate of a piece of side `col` from
/// `from` to `to` yields: nothing when `to` is off the board or holds a
/// friendly piece, a quiet move (clock bumped) onto an empty square, and a
/// capture (clock reset) onto an enemy piece.
pub open spec fn generic_move_at(p: Position, col: Color, from: Square, to: Square) -> Option<
    Move,
> {
    if !valid_sq(to) {
        None
    } else {
        match at(p, to) {
            None => Some(quiet_move(from, to, bump_clock(p.clock))),
            Some(q) => if q.color != col {
                Some(capture_move(from, to, q.piece_type))
            } else {
                None
            },
        }
    }
}

/// `m` is the candidate one step of (`dr`, `dc`) away from `s`, carrying the
/// given rights-revocation delta.
pub open spec fn step_move_ok(p: Position, col: Color, s: Square, dr: int, dc: int, delta: CastlingRights, m: Move) -> bool {
    match generic_move_at(p, col, s, mk_sq(s.0 + dr, s.1 + dc)) {
        Some(base) => m == with_losing(base, delta),
        None => false,
    }
}

/// The eight knight offsets; a knight move revokes nothing.
pub open spec fn knight_move_ok(p: Position, col: Color, s: Square, m: Move) -> bool {
    ||| step_move_ok(p, col, s, -2, -1, CastlingRights::empty(), m)
    ||| step_move_ok(p, col, s, -1, -2, CastlingRights::empty(), m)
    ||| step_move_ok(p, col, s, -2, 1, CastlingRights::empty(), m)
    ||| step_move_ok(p, col, s, 1, -2, CastlingRights::empty(), m)
    ||| step_move_ok(p, col, s, 2, -1, CastlingRights::empty(), m)
    ||| step_move_ok(p, col, s, -1, 2, CastlingRights::empty(), m)
    ||| step_move_ok(p, col, s, 2, 1, CastlingRights::empty(), m)
    ||| step_move_ok(p, col, s, 1, 2, CastlingRights::empty(), m)
}

/// The eight unit offsets of a king, castling aside. Any king move forfeits
/// every right its side still holds.
pub open spec fn king_step_ok(p: Position, col: Color, s: Square, m: Move) -> bool {
    ||| step_move_ok(p, col, s, -1, -1, lose_all(col, p.rights), m)
    ||| step_move_ok(p, col, s, -1, 0, lose_all(col, p.rights), m)
    ||| step_move_ok(p, col, s, -1, 1, lose_all(col, p.rights), m)
    ||| step_move_ok(p, col, s, 0, -1, lose_all(col, p.rights), m)
    ||| step_move_ok(p, col, s, 0, 1, lose_all(col, p.rights), m)
    ||| step_move_ok(p, col, s, 1, -1, lose_all(col, p.rights), m)
    ||| step_move_ok(p, col, s, 1, 0, lose_all(col, p.rights), m)
    ||| step_move_ok(p, col, s, 1, 1, lose_all(col, p.rights), m)
}

/// The kingside right of `col` within `rights`.
pub open spec fn kingside_right(rights: CastlingRights, col: Color) -> bool {
    match col {
        Color::Black => rights.black_kingside,
        Color::White => rights.white_kingside,
    }
}

/// The queenside right of `col` within `rights`.
pub open spec fn queenside_right(rights: CastlingRights, col: Color) -> bool {
    match col {
        Color::Black => rights.black_queenside,
        Color::White => rights.white_queenside,
    }
}

/// The delta revoking every right of `col` that is still held: what a king
/// move forfeits.
pub open spec fn lose_all(col: Color, rights: CastlingRights) -> CastlingRights {
    CastlingRights {
        white_queenside: col == Color::White && rights.white_queenside,
        white_kingside: col == Color::White && rights.white_kingside,
        black_queenside: col == Color::Black && rights.black_queenside,
        black_kingside: col == Color::Black && rights.black_kingside,
    }
}

/// The delta a rook (or a queen sliding as one) standing on `s` stamps on
/// its moves: the wing of that home corner, if its right is still held.
pub open spec fn corner_delta(col: Color, s: Square, rights: CastlingRights) -> CastlingRights {
    CastlingRights {
        white_queenside: col == Color::White && s.0 == 7 && s.1 == 0 && rights.white_queenside,
        white_kingside: col == Color::White && s.0 == 7 && s.1 == 7 && rights.white_kingside,
        black_queenside: col == Color::Black && s.0 == 0 && s.1 == 0 && rights.black_queenside,
        black_kingside: col == Color::Black && s.0 == 0 && s.1 == 7 && rights.black_kingside,
    }
}

/// The castling variant of `col` on the kingside wing.
pub open spec fn kingside_variant(col: Color) -> Castling {
    match col {
        Color::Black => Castling::BlackKingside,
        Color::White => Castling::WhiteKingside,
    }
}

/// The castling variant of `col` on the queenside wing.
pub open spec fn queenside_variant(col: Color) -> Castling {
    match col {
        Color::Black => Castling::BlackQueenside,
        Color::White => Castling::WhiteQueenside,
    }
}

/// The side performing a castling variant.
pub open spec fn castling_color(ca: Castling) -> Color {
    match ca {
        Castling::BlackKingside => Color::Black,
        Castling::BlackQueenside => Color::Black,
        Castling::WhiteKingside => Color::White,
        Castling::WhiteQueenside => Color::White,
    }
}

/// The rook's square before a castling variant.
pub open spec fn rook_from(ca: Castling) -> Square {
    match ca {
        Castling::BlackKingside => (0i8, 7i8),
        Castling::BlackQueenside => (0i8, 0i8),
        Castling::WhiteKingside => (7i8, 7i8),
        Castling::WhiteQueenside => (7i8, 0i8),
    }
}

/// The rook's square after a castling variant.
pub open spec fn rook_to(ca: Castling) -> Square {
    match ca {
        Castling::BlackKingside => (0i8, 5i8),
        Castling::BlackQueenside => (0i8, 3i8),
        Castling::WhiteKingside => (7i8, 5i8),
        Castling::WhiteQueenside => (7i8, 3i8),
    }
}

/// The home square of the king of `col`.
pub open spec fn king_home(col: Color) -> Square {
    match col {
        Color::Black => (0i8, 4i8),
        Color::White => (7i8, 4i8),
    }
}

/// Kingside castling: offered iff the right is held and both squares between
/// king and rook are empty; king and rook positions are implied by the right.
pub open spec fn castle_kingside_ok(p: Position, col: Color, s: Square, m: Move) -> bool {
    &&& kingside_right(p.rights, col)
    &&& at(p, (s.0, 5i8)) is None
    &&& at(p, (s.0, 6i8)) is None
    &&& m == Move {
        from: s,
        to: (s.0, 6i8),
        castle: Some(kingside_variant(col)),
        losing_castle_rights: lose_all(col, p.rights),
        halfmove_clock: bump_clock(p.clock),
        ..Move::blank()
    }
}

/// Queenside castling: offered iff the right is held and all three squares
/// between king and rook are empty.
pub open spec fn castle_queenside_ok(p: Position, col: Color, s: Square, m: Move) -> bool {
    &&& queenside_right(p.rights, col)
    &&& at(p, (s.0, 1i8)) is None
    &&& at(p, (s.0, 2i8)) is None
    &&& at(p, (s.0, 3i8)) is None
    &&& m == Move {
        from: s,
        to: (s.0, 2i8),
        castle: Some(queenside_variant(col)),
        losing_castle_rights: lose_all(col, p.rights),
        ..Move::blank()
    }
}

/// Every king move: the eight unit steps plus the two castling offers.
pub open spec fn king_move_ok(p: Position, col: Color, s: Square, m: Move) -> bool {
    ||| king_step_ok(p, col, s, m)
    ||| castle_kingside_ok(p, col, s, m)
    ||| castle_queenside_ok(p, col, s, m)
}

/// Pawns of one side only ever advance toward the other side's first row.
pub open spec fn pawn_dir(col: Color) -> int {
    match col {
        Color::Black => 1,
        Color::White => -1,
    }
}

/// The rank a pawn of `col` starts on, the only rank it may advance two from.
pub open spec fn pawn_start_row(col: Color) -> int {
    match col {
        Color::Black => 1,
        Color::White => 6,
    }
}

/// A pawn's diagonal candidate toward column offset `dc`: an ordinary
/// capture of an enemy piece, or an en-passant capture when the diagonal is
/// empty and equals the current en-passant target (the removed pawn then
/// stands beside the mover, not on the destination).
pub open spec fn pawn_capture_at(p: Position, col: Color, s: Square, dc: int) -> Option<Move> {
    let to = mk_sq(s.0 + pawn_dir(col), s.1 + dc);
    if !valid_sq(to) {
        None
    } else {
        match at(p, to) {
            Some(q) => if q.color != col {
                Some(capture_move(s, to, q.piece_type))
            } else {
                None
            },
            None => if p.ep == Some(to) {
                Some(
                    Move {
                        from: s,
                        to,
                        capture: Some(PieceType::Pawn),
                        en_passant_capture: Some(mk_sq(s.0 as int, s.1 + dc)),
                        ..Move::blank()
                    },
                )
            } else {
                None
            },
        }
    }
}

/// A pawn's single advance onto an empty square directly ahead.
pub open spec fn pawn_forward_one(p: Position, col: Color, s: Square) -> Option<Move> {
    let to = mk_sq(s.0 + pawn_dir(col), s.1 as int);
    if valid_sq(to) && at(p, to) is None {
        Some(Move { from: s, to, ..Move::blank() })
    } else {
        None
    }
}

/// A pawn's two-square advance: only from its starting rank, only when both
/// squares ahead are empty; it stamps the square passed over as the new
/// en-passant target.
pub open spec fn pawn_forward_two(p: Position, col: Color, s: Square) -> Option<Move> {
    let mid = mk_sq(s.0 + pawn_dir(col), s.1 as int);
    let to = mk_sq(s.0 + 2 * pawn_dir(col), s.1 as int);
    if s.0 == pawn_start_row(col) && at(p, mid) is None && at(p, to) is None {
        Some(Move { from: s, to, en_passant_target_square: Some(mid), ..Move::blank() })
    } else {
        None
    }
}

/// The pawn candidates before promotion expansion.
pub open spec fn pawn_base_ok(p: Position, col: Color, s: Square, m: Move) -> bool {
    ||| pawn_capture_at(p, col, s, -1) == Some(m)
    ||| pawn_capture_at(p, col, s, 1) == Some(m)
    ||| pawn_forward_one(p, col, s) == Some(m)
    ||| pawn_forward_two(p, col, s) == Some(m)
}

/// A row where a pawn promotes.
pub open spec fn last_rank(row: i8) -> bool {
    row == 0 || row == 7
}

/// Every pawn move: a base candidate, expanded on the last rank into one
/// move per offered promotion kind (queen and knight) and never offered
/// unpromoted there.
pub open spec fn pawn_move_ok(p: Position, col: Color, s: Square, m: Move) -> bool {
    &&& pawn_base_ok(p, col, s, m.strip_promotion())
    &&& if last_rank(m.to.0) {
        m.promotion == Some(PieceType::Queen) || m.promotion == Some(PieceType::Knight)
    } else {
        m.promotion is None
    }
}

/// The square `k` steps along direction (`dr`, `dc`) from `s`.
pub open spec fn ray_sq(s: Square, dr: int, dc: int, k: int) -> Square {
    mk_sq(s.0 + k * dr, s.1 + k * dc)
}

/// Every square strictly between `s` and its `k`-th step is on the board and
/// empty.
pub open spec fn ray_clear(p: Position, s: Square, dr: int, dc: int, k: int) -> bool {
    forall|j: int|
        1 <= j < k ==> valid_sq(#[trigger] ray_sq(s, dr, dc, j)) && at(p, ray_sq(s, dr, dc, j)) is None
}

/// `m` is the sliding move `k` steps along (`dr`, `dc`), with the given
/// rights-revocation delta stamped on it: the ray is clear up to the target,
/// and the target is empty (quiet move) or enemy (capture ending the ray).
pub open spec fn ray_hit(
    p: Position,
    col: Color,
    s: Square,
    dr: int,
    dc: int,
    delta: CastlingRights,
    k: int,
    m: Move,
) -> bool {
    &&& ray_clear(p, s, dr, dc, k)
    &&& match generic_move_at(p, col, s, ray_sq(s, dr, dc, k)) {
        Some(base) => m == with_losing(base, delta),
        None => false,
    }
}

/// `m` lies somewhere along one ray.
pub open spec fn ray_move_ok(
    p: Position,
    col: Color,
    s: Square,
    dr: int,
    dc: int,
    delta: CastlingRights,
    m: Move,
) -> bool {
    exists|k: int| 1 <= k <= 7 && ray_hit(p, col, s, dr, dc, delta, k, m)
}

/// The four orthogonal rays (ranks and files).
pub open spec fn orthogonal_ok(
    p: Position,
    col: Color,
    s: Square,
    delta: CastlingRights,
    m: Move,
) -> bool {
    ||| ray_move_ok(p, col, s, 1, 0, delta, m)
    ||| ray_move_ok(p, col, s, 0, 1, delta, m)
    ||| ray_move_ok(p, col, s, -1, 0, delta, m)
    ||| ray_move_ok(p, col, s, 0, -1, delta, m)
}

/// The four diagonal rays.
pub open spec fn diagonal_ok(
    p: Position,
    col: Color,
    s: Square,
    delta: CastlingRights,
    m: Move,
) -> bool {
    ||| ray_move_ok(p, col, s, 1, 1, delta, m)
    ||| ray_move_ok(p, col, s, -1, 1, delta, m)
    ||| ray_move_ok(p, col, s, 1, -1, delta, m)
    ||| ray_move_ok(p, col, s, -1, -1, delta, m)
}

/// The moves of one piece standing on `s`. Orthogonal slides of a rook, or
/// of a queen acting as one, from a home corner stamp that wing's
/// revocation delta, so that moving the rook disables the wing for good.
pub open spec fn piece_move_ok(p: Position, pc: Piece, s: Square, m: Move) -> bool {
    match pc.piece_type {
        PieceType::Pawn => pawn_move_ok(p, pc.color, s, m),
        PieceType::Knight => knight_move_ok(p, pc.color, s, m),
        PieceType::King => king_move_ok(p, pc.color, s, m),
        PieceType::Rook => orthogonal_ok(p, pc.color, s, corner_delta(pc.color, s, p.rights), m),
        PieceType::Bishop => diagonal_ok(p, pc.color, s, CastlingRights::empty(), m),
        PieceType::Queen => {
            ||| orthogonal_ok(p, pc.color, s, corner_delta(pc.color, s, p.rights), m)
            ||| diagonal_ok(p, pc.color, s, CastlingRights::empty(), m)
        },
    }
}

/// The pseudo-legal move relation: `m` obeys movement and occupancy rules
/// for the piece of the side to move standing on `s`, with no regard yet to
/// the safety of the mover's own king.
pub open spec fn pseudo_move_ok(p: Position, s: Square, m: Move) -> bool {
    &&& valid_sq(s)
    &&& match at(p, s) {
        Some(pc) => pc.color == p.turn && piece_move_ok(p, pc, s, m),
        None => false,
    }
}

/// `b` with the occupant of `f` removed and placed on `t` (overwriting any
/// prior occupant of `t`).
pub open spec fn move_sq(b: Seq<Option<Piece>>, f: Square, t: Square) -> Seq<Option<Piece>> {
    b.update(sq_index(f), None).update(sq_index(t), b[sq_index(f)])
}

/// The board after `m`: clear an en-passant-captured pawn, relocate a
/// castling rook, overwrite a promoting pawn's kind at its source, then
/// relocate the mover.
pub open spec fn apply_board(b: Seq<Option<Piece>>, m: Move) -> Seq<Option<Piece>> {
    let b1 = match m.en_passant_capture {
        Some(c) => b.update(sq_index(c), None),
        None => b,
    };
    let b2 = match m.castle {
        Some(ca) => move_sq(b1, rook_from(ca), rook_to(ca)),
        None => b1,
    };
    let b3 = match m.promotion {
        Some(k) => match b2[sq_index(m.from)] {
            Some(q) => b2.update(sq_index(m.from), Some(Piece { piece_type: k, color: q.color })),
            None => b2,
        },
        None => b2,
    };
    move_sq(b3, m.from, m.to)
}

/// The position after `m`: the new board, the other side to move, the
/// revoked rights subtracted, and the en-passant target and half-move clock
/// taken from the move itself.
pub open spec fn apply_pos(p: Position, m: Move) -> Position {
    Position {
        board: apply_board(p.board, m),
        turn: p.turn.invert_spec(),
        rights: p.rights.minus(m.losing_castle_rights),
        ep: m.en_passant_target_square,
        clock: m.halfmove_clock,
    }
}

/// The side to move can capture the enemy king right now: some pseudo-legal
/// move's capture field names the king. This is the engine's entire notion
/// of check.
pub open spec fn in_check_reply(p: Position) -> bool {
    exists|s: Square, m: Move| pseudo_move_ok(p, s, m) && m.capture == Some(PieceType::King)
}

/// A fully legal move: pseudo-legal, and applying it leaves the opponent
/// without any immediate king-capturing reply.
pub open spec fn move_legal(p: Position, s: Square, m: Move) -> bool {
    pseudo_move_ok(p, s, m) && !in_check_reply(apply_pos(p, m))
}

/// The record of a past ply touches only the board: what undoing it needs in
/// order not to index off the board.
pub open spec fn move_shape_ok(m: Move) -> bool {
    &&& valid_sq(m.from)
    &&& valid_sq(m.to)
    &&& match m.en_passant_capture {
        Some(c) => valid_sq(c),
        None => true,
    }
}

/// The conditions under which applying `m` to `p` can be reversed exactly:
/// the move's record agrees with what stands on the board, a castle starts
/// from the implied home squares with the rook's destination free, a
/// promotion rewrites an actual pawn of the mover, and the revocation delta
/// only revokes rights still held.
pub open spec fn move_ok(p: Position, m: Move) -> bool {
    &&& valid_sq(m.from)
    &&& valid_sq(m.to)
    &&& m.from != m.to
    &&& match at(p, m.from) {
        Some(mover) => mover.color == p.turn,
        None => false,
    }
    &&& match m.en_passant_capture {
        Some(c) => {
            &&& valid_sq(c)
            &&& c != m.from
            &&& c != m.to
            &&& at(p, c) == Some(
                Piece { piece_type: PieceType::Pawn, color: p.turn.invert_spec() },
            )
            &&& at(p, m.to) is None
            &&& m.capture == Some(PieceType::Pawn)
            &&& m.castle is None
        },
        None => match m.capture {
            Some(k) => {
                &&& at(p, m.to) == Some(Piece { piece_type: k, color: p.turn.invert_spec() })
                &&& m.castle is None
            },
            None => at(p, m.to) is None,
        },
    }
    &&& match m.castle {
        Some(ca) => {
            &&& castling_color(ca) == p.turn
            &&& m.from == king_home(p.turn)
            &&& m.to == (king_home(p.turn).0, if ca == kingside_variant(p.turn) {
                6i8
            } else {
                2i8
            })
            &&& (ca == kingside_variant(p.turn) || ca == queenside_variant(p.turn))
            &&& at(p, rook_to(ca)) is None
            &&& m.promotion is None
        },
        None => true,
    }
    &&& match m.promotion {
        Some(k) => at(p, m.from) == Some(Piece { piece_type: PieceType::Pawn, color: p.turn }),
        None => true,
    }
    &&& m.losing_castle_rights.subset_of(p.rights)
}

/// An en-passant target is coherent with the rest of the position: it is the
/// square just passed over by an enemy pawn that advanced two squares on the
/// previous ply, which now stands right behind it.
pub open spec fn ep_coherent(p: Position) -> bool {
    match p.ep {
        None => true,
        Some(t) => {
            &&& valid_sq(t)
            &&& at(p, t) is None
            &&& {
                ||| (t.0 == 2 && p.turn == Color::White && at(p, (3i8, t.1)) == Some(
                    Piece { piece_type: PieceType::Pawn, color: Color::Black },
                ))
                ||| (t.0 == 5 && p.turn == Color::Black && at(p, (4i8, t.1)) == Some(
                    Piece { piece_type: PieceType::Pawn, color: Color::White },
                ))
            }
        },
    }
}

/// While a side still holds a castling right its king has never moved, so
/// any king of that side on the board stands on its home square.
pub open spec fn kings_home_for(p: Position, col: Color) -> bool {
    forall|s: Square|
        valid_sq(s) && #[trigger] at(p, s) == Some(
            Piece { piece_type: PieceType::King, color: col },
        ) ==> s == king_home(col)
}

/// Each held right pins that side's king to its home square.
pub open spec fn rights_coherent(p: Position) -> bool {
    &&& (kingside_right(p.rights, Color::White) || queenside_right(p.rights, Color::White))
        ==> kings_home_for(p, Color::White)
    &&& (kingside_right(p.rights, Color::Black) || queenside_right(p.rights, Color::Black))
        ==> kings_home_for(p, Color::Black)
}

/// The per-position engine invariant.
pub open spec fn state_inv(p: Position) -> bool {
    &&& p.board.len() == 64
    &&& ep_coherent(p)
    &&& rights_coherent(p)
}

/// A sliding move along one ray starts on `s`, ends on a valid square, and
/// records no en-passant capture.
proof fn lemma_ray_shape(p: Position, col: Color, s: Square, dr: int, dc: int, delta: CastlingRights, m: Move)
    requires
        ray_move_ok(p, col, s, dr, dc, delta, m),
    ensures
        m.from == s,
        valid_sq(m.to),
        m.en_passant_capture is None,
        m.promotion is None,
        m.castle is None,
{
    let k = choose|k: int| 1 <= k <= 7 && #[trigger] ray_hit(p, col, s, dr, dc, delta, k, m);
    assert(generic_move_at(p, col, s, ray_sq(s, dr, dc, k)) is Some);
}

/// A one-step candidate starts on `s`, lands on a valid square, and sets
/// none of the special fields.
proof fn lemma_step_shape(p: Position, col: Color, s: Square, dr: int, dc: int, delta: CastlingRights, m: Move)
    requires
        step_move_ok(p, col, s, dr, dc, delta, m),
    ensures
        m.from == s,
        valid_sq(m.to),
        m.en_passant_capture is None,
        m.promotion is None,
        m.castle is None,
{
}

/// A pawn move starts on `s` and keeps its endpoints and any en-passant
/// capture square on the board.
#[verifier::rlimit(60)]
proof fn lemma_pawn_shape(p: Position, col: Color, s: Square, m: Move)
    requires
        valid_sq(s),
        pawn_move_ok(p, col, s, m),
    ensures
        m.from == s,
        valid_sq(m.to),
        (m.en_passant_capture matches Some(c) ==> valid_sq(c)),
{
    let m0 = m.strip_promotion();
    if pawn_capture_at(p, col, s, -1) == Some(m0) {
        assert(valid_sq(mk_sq(s.0 + pawn_dir(col), s.1 - 1)));
    } else if pawn_capture_at(p, col, s, 1) == Some(m0) {
        assert(valid_sq(mk_sq(s.0 + pawn_dir(col), s.1 + 1)));
    } else if pawn_forward_one(p, col, s) == Some(m0) {
        assert(valid_sq(mk_sq(s.0 + pawn_dir(col), s.1 as int)));
    } else {
        assert(pawn_forward_two(p, col, s) == Some(m0));
    }
}

/// A king move starts on `s` and lands on a valid square.
#[verifier::rlimit(60)]
proof fn lemma_king_shape(p: Position, col: Color, s: Square, m: Move)
    requires
        valid_sq(s),
        king_move_ok(p, col, s, m),
    ensures
        m.from == s,
        valid_sq(m.to),
        m.en_passant_capture is None,
{
    let la = lose_all(col, p.rights);
    if step_move_ok(p, col, s, -1, -1, la, m) {
        lemma_step_shape(p, col, s, -1, -1, la, m);
    } else if step_move_ok(p, col, s, -1, 0, la, m) {
        lemma_step_shape(p, col, s, -1, 0, la, m);
    } else if step_move_ok(p, col, s, -1, 1, la, m) {
        lemma_step_shape(p, col, s, -1, 1, la, m);
    } else if step_move_ok(p, col, s, 0, -1, la, m) {
        lemma_step_shape(p, col, s, 0, -1, la, m);
    } else if step_move_ok(p, col, s, 0, 1, la, m) {
        lemma_step_shape(p, col, s, 0, 1, la, m);
    } else if step_move_ok(p, col, s, 1, -1, la, m) {
        lemma_step_shape(p, col, s, 1, -1, la, m);
    } else if step_move_ok(p, col, s, 1, 0, la, m) {
        lemma_step_shape(p, col, s, 1, 0, la, m);
    } else if step_move_ok(p, col, s, 1, 1, la, m) {
        lemma_step_shape(p, col, s, 1, 1, la, m);
    } else {
        assert(castle_kingside_ok(p, col, s, m) || castle_queenside_ok(p, col, s, m));
    }
}

/// A knight move starts on `s` and lands on a valid square.
#[verifier::rlimit(60)]
proof fn lemma_knight_shape(p: Position, col: Color, s: Square, m: Move)
    requires
        knight_move_ok(p, col, s, m),
    ensures
        m.from == s,
        valid_sq(m.to),
        m.en_passant_capture is None,
{
    let no = CastlingRights::empty();
    if step_move_ok(p, col, s, -2, -1, no, m) {
        lemma_step_shape(p, col, s, -2, -1, no, m);
    } else if step_move_ok(p, col, s, -1, -2, no, m) {
        lemma_step_shape(p, col, s, -1, -2, no, m);
    } else if step_move_ok(p, col, s, -2, 1, no, m) {
        lemma_step_shape(p, col, s, -2, 1, no, m);
    } else if step_move_ok(p, col, s, 1, -2, no, m) {
        lemma_step_shape(p, col, s, 1, -2, no, m);
    } else if step_move_ok(p, col, s, 2, -1, no, m) {
        lemma_step_shape(p, col, s, 2, -1, no, m);
    } else if step_move_ok(p, col, s, -1, 2, no, m) {
        lemma_step_shape(p, col, s, -1, 2, no, m);
    } else if step_move_ok(p, col, s, 2, 1, no, m) {
        lemma_step_shape(p, col, s, 2, 1, no, m);
    } else {
        lemma_step_shape(p, col, s, 1, 2, no, m);
    }
}

/// A move along one of a slider's rays, whichever delta it carries.
proof fn lemma_slider_shape(p: Position, col: Color, s: Square, delta: CastlingRights, m: Move)
    requires
        orthogonal_ok(p, col, s, delta, m) || diagonal_ok(p, col, s, delta, m),
    ensures
        m.from == s,
        valid_sq(m.to),
        m.en_passant_capture is None,
{
    if ray_move_ok(p, col, s, 1, 0, delta, m) {
        lemma_ray_shape(p, col, s, 1, 0, delta, m);
    } else if ray_move_ok(p, col, s, 0, 1, delta, m) {
        lemma_ray_shape(p, col, s, 0, 1, delta, m);
    } else if ray_move_ok(p, col, s, -1, 0, delta, m) {
        lemma_ray_shape(p, col, s, -1, 0, delta, m);
    } else if ray_move_ok(p, col, s, 0, -1, delta, m) {
        lemma_ray_shape(p, col, s, 0, -1, delta, m);
    } else if ray_move_ok(p, col, s, 1, 1, delta, m) {
        lemma_ray_shape(p, col, s, 1, 1, delta, m);
    } else if ray_move_ok(p, col, s, -1, 1, delta, m) {
        lemma_ray_shape(p, col, s, -1, 1, delta, m);
    } else if ray_move_ok(p, col, s, 1, -1, delta, m) {
        lemma_ray_shape(p, col, s, 1, -1, delta, m);
    } else {
        lemma_ray_shape(p, col, s, -1, -1, delta, m);
    }
}

/// Every pseudo-legal move starts on the square it was generated for, and
/// both of its endpoints and any en-passant capture square are on the board.
pub proof fn lemma_pseudo_shape(p: Position, s: Square, m: Move)
    requires
        pseudo_move_ok(p, s, m),
    ensures
        m.from == s,
        valid_sq(m.from),
        valid_sq(m.to),
        (m.en_passant_capture matches Some(c) ==> valid_sq(c)),
{
    let pc = at(p, s)->Some_0;
    match pc.piece_type {
        PieceType::Pawn => lemma_pawn_shape(p, pc.color, s, m),
        PieceType::Knight => lemma_knight_shape(p, pc.color, s, m),
        PieceType::King => lemma_king_shape(p, pc.color, s, m),
        PieceType::Rook => lemma_slider_shape(p, pc.color, s, corner_delta(pc.color, s, p.rights), m),
        PieceType::Bishop => lemma_slider_shape(p, pc.color, s, CastlingRights::empty(), m),
        PieceType::Queen => {
            if orthogonal_ok(p, pc.color, s, corner_delta(pc.color, s, p.rights), m) {
                lemma_slider_shape(p, pc.color, s, corner_delta(pc.color, s, p.rights), m);
            } else {
                lemma_slider_shape(p, pc.color, s, CastlingRights::empty(), m);
            }
        },
    }
}

/// A generic one-square-or-ray candidate records exactly what stood on its
/// destination, and none of the special fields.
proof fn lemma_generic_consistent(p: Position, col: Color, s: Square, to: Square, m: Move)
    requires
        generic_move_at(p, col, s, to) == Some(m),
        col == p.turn,
    ensures
        m.from == s,
        m.to == to,
        valid_sq(to),
        m.castle is None,
        m.promotion is None,
        m.en_passant_capture is None,
        m.losing_castle_rights == CastlingRights::empty(),
        match m.capture {
            Some(k) => at(p, m.to) == Some(Piece { piece_type: k, color: p.turn.invert_spec() }),
            None => at(p, m.to) is None,
        },
{
    match at(p, to) {
        None => {},
        Some(q) => {
            assert(q.color != col);
            assert(q.color == p.turn.invert_spec());
        },
    }
}

/// A one-step candidate near `s` satisfies every reversibility condition.
proof fn lemma_step_move_ok(p: Position, col: Color, s: Square, dr: int, dc: int, delta: CastlingRights, m: Move)
    requires
        step_move_ok(p, col, s, dr, dc, delta, m),
        col == p.turn,
        valid_sq(s),
        at(p, s) matches Some(pc) && pc.color == p.turn,
        !(dr == 0 && dc == 0),
        -2 <= dr <= 2,
        -2 <= dc <= 2,
        delta.subset_of(p.rights),
    ensures
        move_ok(p, m),
{
    let to = mk_sq(s.0 + dr, s.1 + dc);
    assert(valid_sq(to)) by {
        lemma_step_shape(p, col, s, dr, dc, delta, m);
    }
    assert(to != s);
    let base = generic_move_at(p, col, s, to)->Some_0;
    lemma_generic_consistent(p, col, s, to, base);
    assert(m == with_losing(base, delta));
}

/// A sliding move along one ray satisfies every reversibility condition,
/// given that its delta only revokes held rights.
proof fn lemma_ray_move_ok(p: Position, col: Color, s: Square, dr: int, dc: int, delta: CastlingRights, m: Move)
    requires
        ray_move_ok(p, col, s, dr, dc, delta, m),
        col == p.turn,
        valid_sq(s),
        at(p, s) matches Some(pc) && pc.color == p.turn,
        !(dr == 0 && dc == 0),
        -1 <= dr <= 1,
        -1 <= dc <= 1,
        delta.subset_of(p.rights),
    ensures
        move_ok(p, m),
{
    let k = choose|k: int| 1 <= k <= 7 && #[trigger] ray_hit(p, col, s, dr, dc, delta, k, m);
    let to = ray_sq(s, dr, dc, k);
    let base = generic_move_at(p, col, s, to)->Some_0;
    lemma_generic_consistent(p, col, s, to, base);
    assert(to != s) by {
        if dr != 0 {
            assert(k * dr != 0) by (nonlinear_arith)
                requires 1 <= k, dr == -1 || dr == 1;
            assert(-7 <= k * dr <= 7) by (nonlinear_arith)
                requires 1 <= k <= 7, -1 <= dr <= 1;
        } else {
            assert(k * dr == 0) by (nonlinear_arith)
                requires dr == 0;
            assert(k * dc != 0) by (nonlinear_arith)
                requires 1 <= k, dc == -1 || dc == 1;
            assert(-7 <= k * dc <= 7) by (nonlinear_arith)
                requires 1 <= k <= 7, -1 <= dc <= 1;
        }
    }
    assert(m == with_losing(base, delta));
}

/// The two pieces of the orthogonal-plus-diagonal split of a slider.
proof fn lemma_slider_move_ok(p: Position, col: Color, s: Square, delta: CastlingRights, m: Move)
    requires
        orthogonal_ok(p, col, s, delta, m) || diagonal_ok(p, col, s, delta, m),
        col == p.turn,
        valid_sq(s),
        at(p, s) matches Some(pc) && pc.color == p.turn,
        delta.subset_of(p.rights),
    ensures
        move_ok(p, m),
{
    if ray_move_ok(p, col, s, 1, 0, delta, m) {
        lemma_ray_move_ok(p, col, s, 1, 0, delta, m);
    } else if ray_move_ok(p, col, s, 0, 1, delta, m) {
        lemma_ray_move_ok(p, col, s, 0, 1, delta, m);
    } else if ray_move_ok(p, col, s, -1, 0, delta, m) {
        lemma_ray_move_ok(p, col, s, -1, 0, delta, m);
    } else if ray_move_ok(p, col, s, 0, -1, delta, m) {
        lemma_ray_move_ok(p, col, s, 0, -1, delta, m);
    } else if ray_move_ok(p, col, s, 1, 1, delta, m) {
        lemma_ray_move_ok(p, col, s, 1, 1, delta, m);
    } else if ray_move_ok(p, col, s, -1, 1, delta, m) {
        lemma_ray_move_ok(p, col, s, -1, 1, delta, m);
    } else if ray_move_ok(p, col, s, 1, -1, delta, m) {
        lemma_ray_move_ok(p, col, s, 1, -1, delta, m);
    } else {
        lemma_ray_move_ok(p, col, s, -1, -1, delta, m);
    }
}

/// A pawn move satisfies every reversibility condition; the en-passant case
/// leans on the coherence of the en-passant target with the board.
#[verifier::rlimit(80)]
proof fn lemma_pawn_move_ok(p: Position, s: Square, m: Move)
    requires
        state_inv(p),
        valid_sq(s),
        at(p, s) == Some(Piece { piece_type: PieceType::Pawn, color: p.turn }),
        pawn_move_ok(p, p.turn, s, m),
    ensures
        move_ok(p, m),
{
    let col = p.turn;
    let m0 = m.strip_promotion();
    let d = pawn_dir(col);
    if pawn_capture_at(p, col, s, -1) == Some(m0) || pawn_capture_at(p, col, s, 1) == Some(m0) {
        let dc: int = if pawn_capture_at(p, col, s, -1) == Some(m0) { -1 } else { 1 };
        assert(pawn_capture_at(p, col, s, dc) == Some(m0));
        let to = mk_sq(s.0 + d, s.1 + dc);
        assert(valid_sq(to));
        match at(p, to) {
            Some(q) => {
                assert(q.color == p.turn.invert_spec());
            },
            None => {
                assert(p.ep == Some(to));
                assert(ep_coherent(p));
                let c = mk_sq(s.0 as int, s.1 + dc);
                assert(c.1 == to.1);
                assert(at(p, c) == Some(
                    Piece { piece_type: PieceType::Pawn, color: p.turn.invert_spec() },
                ));
            },
        }
    } else if pawn_forward_one(p, col, s) == Some(m0) {
        assert(at(p, m0.to) is None);
    } else {
        assert(pawn_forward_two(p, col, s) == Some(m0));
        assert(at(p, m0.to) is None);
    }
}

/// A king move satisfies every reversibility condition; the castling case
/// leans on the held right pinning the king to its home square.
#[verifier::rlimit(80)]
proof fn lemma_king_move_ok(p: Position, s: Square, m: Move)
    requires
        state_inv(p),
        valid_sq(s),
        at(p, s) == Some(Piece { piece_type: PieceType::King, color: p.turn }),
        king_move_ok(p, p.turn, s, m),
    ensures
        move_ok(p, m),
{
    let col = p.turn;
    let la = lose_all(col, p.rights);
    assert(la.subset_of(p.rights));
    if step_move_ok(p, col, s, -1, -1, la, m) {
        lemma_step_move_ok(p, col, s, -1, -1, la, m);
    } else if step_move_ok(p, col, s, -1, 0, la, m) {
        lemma_step_move_ok(p, col, s, -1, 0, la, m);
    } else if step_move_ok(p, col, s, -1, 1, la, m) {
        lemma_step_move_ok(p, col, s, -1, 1, la, m);
    } else if step_move_ok(p, col, s, 0, -1, la, m) {
        lemma_step_move_ok(p, col, s, 0, -1, la, m);
    } else if step_move_ok(p, col, s, 0, 1, la, m) {
        lemma_step_move_ok(p, col, s, 0, 1, la, m);
    } else if step_move_ok(p, col, s, 1, -1, la, m) {
        lemma_step_move_ok(p, col, s, 1, -1, la, m);
    } else if step_move_ok(p, col, s, 1, 0, la, m) {
        lemma_step_move_ok(p, col, s, 1, 0, la, m);
    } else if step_move_ok(p, col, s, 1, 1, la, m) {
        lemma_step_move_ok(p, col, s, 1, 1, la, m);
    } else {
        assert(kings_home_for(p, col)) by {
            assert(kingside_right(p.rights, col) || queenside_right(p.rights, col));
        }
        assert(s == king_home(col));
        if castle_kingside_ok(p, col, s, m) {
            assert(at(p, rook_to(kingside_variant(col))) == at(p, (s.0, 5i8)));
        } else {
            assert(castle_queenside_ok(p, col, s, m));
            assert(at(p, rook_to(queenside_variant(col))) == at(p, (s.0, 3i8)));
        }
    }
}

/// Every pseudo-legal move of a coherent position can be reversed exactly.
#[verifier::rlimit(100)]
#[verifier::spinoff_prover]
pub proof fn lemma_pseudo_move_ok(p: Position, s: Square, m: Move)
    requires
        state_inv(p),
        pseudo_move_ok(p, s, m),
    ensures
        move_ok(p, m),
{
    let pc = at(p, s)->Some_0;
    match pc.piece_type {
        PieceType::Pawn => lemma_pawn_move_ok(p, s, m),
        PieceType::Knight => {
            let no = CastlingRights::empty();
            if step_move_ok(p, pc.color, s, -2, -1, no, m) {
                lemma_step_move_ok(p, pc.color, s, -2, -1, no, m);
            } else if step_move_ok(p, pc.color, s, -1, -2, no, m) {
                lemma_step_move_ok(p, pc.color, s, -1, -2, no, m);
            } else if step_move_ok(p, pc.color, s, -2, 1, no, m) {
                lemma_step_move_ok(p, pc.color, s, -2, 1, no, m);
            } else if step_move_ok(p, pc.color, s, 1, -2, no, m) {
                lemma_step_move_ok(p, pc.color, s, 1, -2, no, m);
            } else if step_move_ok(p, pc.color, s, 2, -1, no, m) {
                lemma_step_move_ok(p, pc.color, s, 2, -1, no, m);
            } else if step_move_ok(p, pc.color, s, -1, 2, no, m) {
                lemma_step_move_ok(p, pc.color, s, -1, 2, no, m);
            } else if step_move_ok(p, pc.color, s, 2, 1, no, m) {
                lemma_step_move_ok(p, pc.color, s, 2, 1, no, m);
            } else {
                lemma_step_move_ok(p, pc.color, s, 1, 2, no, m);
            }
        },
        PieceType::King => lemma_king_move_ok(p, s, m),
        PieceType::Rook => {
            assert(corner_delta(pc.color, s, p.rights).subset_of(p.rights));
            lemma_slider_move_ok(p, pc.color, s, corner_delta(pc.color, s, p.rights), m);
        },
        PieceType::Bishop => {
            lemma_slider_move_ok(p, pc.color, s, CastlingRights::empty(), m);
        },
        PieceType::Queen => {
            if orthogonal_ok(p, pc.color, s, corner_delta(pc.color, s, p.rights), m) {
                assert(corner_delta(pc.color, s, p.rights).subset_of(p.rights));
                lemma_slider_move_ok(p, pc.color, s, corner_delta(pc.color, s, p.rights), m);
            } else {
                lemma_slider_move_ok(p, pc.color, s, CastlingRights::empty(), m);
            }
        },
    }
}

/// Only a two-square pawn advance stamps an en-passant target; such a move
/// is otherwise plain, and its geometry is fixed by the mover's side.
proof fn lemma_pseudo_target_stamp(p: Position, s: Square, m: Move)
    requires
        pseudo_move_ok(p, s, m),
        m.en_passant_target_square is Some,
    ensures
        at(p, s) == Some(Piece { piece_type: PieceType::Pawn, color: p.turn }),
        pawn_forward_two(p, p.turn, s) == Some(m),
{
    let pc = at(p, s)->Some_0;
    match pc.piece_type {
        PieceType::Pawn => {
            let m0 = m.strip_promotion();
            if pawn_capture_at(p, pc.color, s, -1) == Some(m0) {
                assert(false);
            } else if pawn_capture_at(p, pc.color, s, 1) == Some(m0) {
                assert(false);
            } else if pawn_forward_one(p, pc.color, s) == Some(m0) {
                assert(false);
            } else {
                assert(pawn_forward_two(p, pc.color, s) == Some(m0));
                assert(!last_rank(m0.to.0));
                assert(m == m0);
            }
        },
        PieceType::Knight => {
            lemma_knight_shape(p, pc.color, s, m);
            assert(false);
        },
        PieceType::King => {
            lemma_king_shape_target(p, pc.color, s, m);
            assert(false);
        },
        PieceType::Rook => {
            lemma_slider_shape(p, pc.color, s, corner_delta(pc.color, s, p.rights), m);
            assert(false);
        },
        PieceType::Bishop => {
            lemma_slider_shape(p, pc.color, s, CastlingRights::empty(), m);
            assert(false);
        },
        PieceType::Queen => {
            if orthogonal_ok(p, pc.color, s, corner_delta(pc.color, s, p.rights), m) {
                lemma_slider_shape(p, pc.color, s, corner_delta(pc.color, s, p.rights), m);
            } else {
                lemma_slider_shape(p, pc.color, s, CastlingRights::empty(), m);
            }
            assert(false);
        },
    }
}

/// No king move, castling included, stamps an en-passant target.
#[verifier::rlimit(60)]
proof fn lemma_king_shape_target(p: Position, col: Color, s: Square, m: Move)
    requires
        king_move_ok(p, col, s, m),
    ensures
        m.en_passant_target_square is None,
{
    let la = lose_all(col, p.rights);
    if step_move_ok(p, col, s, -1, -1, la, m) {
    } else if step_move_ok(p, col, s, -1, 0, la, m) {
    } else if step_move_ok(p, col, s, -1, 1, la, m) {
    } else if step_move_ok(p, col, s, 0, -1, la, m) {
    } else if step_move_ok(p, col, s, 0, 1, la, m) {
    } else if step_move_ok(p, col, s, 1, -1, la, m) {
    } else if step_move_ok(p, col, s, 1, 0, la, m) {
    } else if step_move_ok(p, col, s, 1, 1, la, m) {
    } else {
        assert(castle_kingside_ok(p, col, s, m) || castle_queenside_ok(p, col, s, m));
    }
}

/// Two distinct valid squares have distinct row-major indices.
proof fn lemma_sq_index_distinct(a: Square, c: Square)
    requires
        valid_sq(a),
        valid_sq(c),
        a != c,
    ensures
        sq_index(a) != sq_index(c),
{
}

/// Applying a pseudo-legal move of a coherent position yields a coherent
/// position: the board keeps its size, a stamped en-passant target is
/// backed by the pawn that just passed it, and every still-held right still
/// pins its king to its home square.
#[verifier::rlimit(100)]
#[verifier::spinoff_prover]
pub proof fn lemma_state_inv_apply(p: Position, s: Square, m: Move)
    requires
        state_inv(p),
        pseudo_move_ok(p, s, m),
    ensures
        state_inv(apply_pos(p, m)),
{
    lemma_pseudo_move_ok(p, s, m);
    lemma_pseudo_shape(p, s, m);
    let p2 = apply_pos(p, m);
    let pc = at(p, s)->Some_0;
    assert(p2.board.len() == 64);
    // The stamped en-passant target of a two-square advance is coherent.
    match m.en_passant_target_square {
        None => {
            assert(ep_coherent(p2));
        },
        Some(t) => {
            lemma_pseudo_target_stamp(p, s, m);
            let d = pawn_dir(p.turn);
            assert(t == mk_sq(s.0 + d, s.1 as int));
            assert(m.to == mk_sq(s.0 + 2 * d, s.1 as int));
            lemma_sq_index_distinct(t, m.from);
            lemma_sq_index_distinct(t, m.to);
            assert(at(p2, t) == at(p, t));
            assert(at(p2, m.to) == p.board[sq_index(m.from)]);
            assert(ep_coherent(p2));
        },
    }
    // Every right still held keeps its king pinned to its home square.
    assert forall|x: Color|
        kingside_right(p2.rights, x) || queenside_right(p2.rights, x) implies kings_home_for(
        p2,
        x,
    ) by {
        assert(kingside_right(p.rights, x) || queenside_right(p.rights, x));
        assert(kings_home_for(p, x));
        if pc.piece_type == PieceType::King && x == p.turn {
            assert(m.losing_castle_rights == lose_all(p.turn, p.rights)) by {
                lemma_king_loses_all(p, s, m);
            }
            assert(false);
        } else {
            assert forall|s2: Square|
                valid_sq(s2) && #[trigger] at(p2, s2) == Some(
                    Piece { piece_type: PieceType::King, color: x },
                ) implies s2 == king_home(x) by {
                let fi = sq_index(m.from);
                let ti = sq_index(m.to);
                if sq_index(s2) == fi || sq_index(s2) == ti {
                    lemma_sq_index_distinct(m.from, m.to);
                    match m.castle {
                        Some(ca) => {
                            lemma_castle_squares(p, s, m, ca);
                        },
                        None => {},
                    }
                    match m.promotion {
                        Some(k) => {
                            assert(k == PieceType::Queen || k == PieceType::Knight) by {
                                lemma_promotion_kinds(p, s, m);
                            }
                        },
                        None => {},
                    }
                    assert(pc.piece_type != PieceType::King || x != p.turn);
                    assert(pc.color == p.turn);
                } else {
                    match m.castle {
                        Some(ca) => {
                            lemma_castle_squares(p, s, m, ca);
                            if sq_index(s2) == sq_index(rook_from(ca)) {
                            } else if sq_index(s2) == sq_index(rook_to(ca)) {
                                assert(at(p, rook_from(ca)) != Some(
                                    Piece { piece_type: PieceType::King, color: x },
                                ));
                            } else {
                                assert(at(p2, s2) == at(p, s2));
                            }
                        },
                        None => {
                            match m.en_passant_capture {
                                Some(c) => {
                                    if sq_index(s2) == sq_index(c) {
                                        assert(at(p2, s2) is None || at(p2, s2) == at(p, s2));
                                    } else {
                                        assert(at(p2, s2) == at(p, s2));
                                    }
                                },
                                None => {
                                    assert(at(p2, s2) == at(p, s2));
                                },
                            }
                        },
                    }
                }
            }
        }
    }
    assert(rights_coherent(p2));
}

/// Any king move, step or castle, carries the delta that forfeits every
/// right its side still holds.
#[verifier::rlimit(60)]
proof fn lemma_king_loses_all(p: Position, s: Square, m: Move)
    requires
        pseudo_move_ok(p, s, m),
        at(p, s) matches Some(pc) && pc.piece_type == PieceType::King,
    ensures
        m.losing_castle_rights == lose_all(p.turn, p.rights),
{
    let col = at(p, s)->Some_0.color;
    let la = lose_all(col, p.rights);
    if step_move_ok(p, col, s, -1, -1, la, m) {
    } else if step_move_ok(p, col, s, -1, 0, la, m) {
    } else if step_move_ok(p, col, s, -1, 1, la, m) {
    } else if step_move_ok(p, col, s, 0, -1, la, m) {
    } else if step_move_ok(p, col, s, 0, 1, la, m) {
    } else if step_move_ok(p, col, s, 1, -1, la, m) {
    } else if step_move_ok(p, col, s, 1, 0, la, m) {
    } else if step_move_ok(p, col, s, 1, 1, la, m) {
    } else {
        assert(castle_kingside_ok(p, col, s, m) || castle_queenside_ok(p, col, s, m));
    }
}

/// The four squares a castling move touches are pairwise distinct, and the
/// mover's endpoints avoid both rook squares.
proof fn lemma_castle_squares(p: Position, s: Square, m: Move, ca: Castling)
    requires
        state_inv(p),
        pseudo_move_ok(p, s, m),
        move_ok(p, m),
        m.castle == Some(ca),
    ensures
        m.from != rook_from(ca),
        m.from != rook_to(ca),
        m.to != rook_from(ca),
        m.to != rook_to(ca),
        rook_from(ca) != rook_to(ca),
        m.en_passant_capture is None,
        m.promotion is None,
{
}

/// A promotion offered by the generator is to a queen or a knight, never to
/// a pawn or a king.
pub proof fn lemma_promotion_kinds(p: Position, s: Square, m: Move)
    requires
        pseudo_move_ok(p, s, m),
        m.promotion is Some,
    ensures
        m.promotion == Some(PieceType::Queen) || m.promotion == Some(PieceType::Knight),
{
    let pc = at(p, s)->Some_0;
    match pc.piece_type {
        PieceType::Pawn => {},
        PieceType::Knight => {
            lemma_knight_shape(p, pc.color, s, m);
        },
        PieceType::King => {
            lemma_king_shape_promotion(p, pc.color, s, m);
        },
        PieceType::Rook => {
            lemma_slider_shape(p, pc.color, s, corner_delta(pc.color, s, p.rights), m);
        },
        PieceType::Bishop => {
            lemma_slider_shape(p, pc.color, s, CastlingRights::empty(), m);
        },
        PieceType::Queen => {
            if orthogonal_ok(p, pc.color, s, corner_delta(pc.color, s, p.rights), m) {
                lemma_slider_shape(p, pc.color, s, corner_delta(pc.color, s, p.rights), m);
            } else {
                lemma_slider_shape(p, pc.color, s, CastlingRights::empty(), m);
            }
        },
    }
}

/// No king move promotes.
#[verifier::rlimit(60)]
proof fn lemma_king_shape_promotion(p: Position, col: Color, s: Square, m: Move)
    requires
        king_move_ok(p, col, s, m),
    ensures
        m.promotion is None,
{
    let la = lose_all(col, p.rights);
    if step_move_ok(p, col, s, -1, -1, la, m) {
    } else if step_move_ok(p, col, s, -1, 0, la, m) {
    } else if step_move_ok(p, col, s, -1, 1, la, m) {
    } else if step_move_ok(p, col, s, 0, -1, la, m) {
    } else if step_move_ok(p, col, s, 0, 1, la, m) {
    } else if step_move_ok(p, col, s, 1, -1, la, m) {
    } else if step_move_ok(p, col, s, 1, 0, la, m) {
    } else if step_move_ok(p, col, s, 1, 1, la, m) {
    } else {
        assert(castle_kingside_ok(p, col, s, m) || castle_queenside_ok(p, col, s, m));
    }
}

/// The piece kind on column `c` of each back rank at the start of a game.
pub open spec fn back_rank_kind(c: int) -> PieceType {
    if c == 0 || c == 7 {
        PieceType::Rook
    } else if c == 1 || c == 6 {
        PieceType::Knight
    } else if c == 2 || c == 5 {
        PieceType::Bishop
    } else if c == 3 {
        PieceType::Queen
    } else {
        PieceType::King
    }
}

/// Cell `i` of the standard starting position, row-major: the second side's
/// back rank and pawns on rows 0 and 1, the first mover's on rows 6 and 7.
pub open spec fn initial_cell(i: int) -> Option<Piece> {
    let r = i / 8;
    let c = i % 8;
    if r == 0 {
        Some(Piece { piece_type: back_rank_kind(c), color: Color::Black })
    } else if r == 1 {
        Some(Piece { piece_type: PieceType::Pawn, color: Color::Black })
    } else if r == 6 {
        Some(Piece { piece_type: PieceType::Pawn, color: Color::White })
    } else if r == 7 {
        Some(Piece { piece_type: back_rank_kind(c), color: Color::White })
    } else {
        None
    }
}

/// The standard starting position: all rights held, no en-passant target,
/// clock zero, the first mover to move.
pub open spec fn initial_pos() -> Position {
    Position {
        board: Seq::new(64, |i: int| initial_cell(i)),
        turn: Color::White,
        rights: CastlingRights::full(),
        ep: None,
        clock: 0u8,
    }
}

/// The starting position satisfies the per-position engine invariant.
pub proof fn lemma_initial_state_inv()
    ensures
        state_inv(initial_pos()),
{
    let p = initial_pos();
    assert(p.board.len() == 64);
    assert forall|x: Color| true implies kings_home_for(p, x) by {
        assert forall|s: Square|
            valid_sq(s) && #[trigger] at(p, s) == Some(
                Piece { piece_type: PieceType::King, color: x },
            ) implies s == king_home(x) by {
            let i = sq_index(s);
            assert(p.board[i] == initial_cell(i));
            assert(i / 8 == s.0 && i % 8 == s.1) by (nonlinear_arith)
                requires i == s.0 * 8 + s.1, 0 <= s.0 < 8, 0 <= s.1 < 8;
        }
    }
}

/// Public face of the king-move rights rule.
pub proof fn lemma_king_loses_all_pub(p: Position, s: Square, m: Move)
    requires
        pseudo_move_ok(p, s, m),
        at(p, s) matches Some(pc) && pc.piece_type == PieceType::King,
    ensures
        m.losing_castle_rights == lose_all(p.turn, p.rights),
{
    lemma_king_loses_all(p, s, m);
}

/// Every move of a rook carries the corner delta of the square it leaves.
#[verifier::rlimit(60)]
pub proof fn lemma_rook_corner_delta(p: Position, s: Square, m: Move)
    requires
        pseudo_move_ok(p, s, m),
        at(p, s) matches Some(pc) && pc.piece_type == PieceType::Rook,
    ensures
        m.losing_castle_rights == corner_delta(at(p, s)->Some_0.color, s, p.rights),
{
    let col = at(p, s)->Some_0.color;
    let d = corner_delta(col, s, p.rights);
    if ray_move_ok(p, col, s, 1, 0, d, m) {
        let k = choose|k: int| 1 <= k <= 7 && #[trigger] ray_hit(p, col, s, 1, 0, d, k, m);
    } else if ray_move_ok(p, col, s, 0, 1, d, m) {
        let k = choose|k: int| 1 <= k <= 7 && #[trigger] ray_hit(p, col, s, 0, 1, d, k, m);
    } else if ray_move_ok(p, col, s, -1, 0, d, m) {
        let k = choose|k: int| 1 <= k <= 7 && #[trigger] ray_hit(p, col, s, -1, 0, d, k, m);
    } else {
        let k = choose|k: int| 1 <= k <= 7 && #[trigger] ray_hit(p, col, s, 0, -1, d, k, m);
    }
}

/// A king move tagged as a castling move meets the full castling
/// conditions of its wing.
#[verifier::rlimit(60)]
pub proof fn lemma_king_castle_form(p: Position, col: Color, s: Square, m: Move)
    requires
        king_move_ok(p, col, s, m),
        m.castle is Some,
    ensures
        m.castle == Some(kingside_variant(col)) ==> castle_kingside_ok(p, col, s, m),
        m.castle == Some(queenside_variant(col)) ==> castle_queenside_ok(p, col, s, m),
{
    let la = lose_all(col, p.rights);
    if step_move_ok(p, col, s, -1, -1, la, m) {
    } else if step_move_ok(p, col, s, -1, 0, la, m) {
    } else if step_move_ok(p, col, s, -1, 1, la, m) {
    } else if step_move_ok(p, col, s, 0, -1, la, m) {
    } else if step_move_ok(p, col, s, 0, 1, la, m) {
    } else if step_move_ok(p, col, s, 1, -1, la, m) {
    } else if step_move_ok(p, col, s, 1, 0, la, m) {
    } else if step_move_ok(p, col, s, 1, 1, la, m) {
    } else {
        assert(castle_kingside_ok(p, col, s, m) || castle_queenside_ok(p, col, s, m));
    }
}

/// An en-passant capture is generated only toward the current target.
#[verifier::rlimit(60)]
pub proof fn lemma_en_passant_target(p: Position, s: Square, m: Move)
    requires
        pseudo_move_ok(p, s, m),
        m.en_passant_capture is Some,
    ensures
        p.ep == Some(m.to),
        at(p, s) matches Some(pc) && pc.piece_type == PieceType::Pawn,
{
    let pc = at(p, s)->Some_0;
    match pc.piece_type {
        PieceType::Pawn => {
            let m0 = m.strip_promotion();
            if pawn_capture_at(p, pc.color, s, -1) == Some(m0) {
            } else if pawn_capture_at(p, pc.color, s, 1) == Some(m0) {
            } else if pawn_forward_one(p, pc.color, s) == Some(m0) {
                assert(false);
            } else {
                assert(pawn_forward_two(p, pc.color, s) == Some(m0));
                assert(false);
            }
        },
        PieceType::Knight => {
            lemma_knight_shape(p, pc.color, s, m);
        },
        PieceType::King => {
            lemma_king_shape(p, pc.color, s, m);
        },
        PieceType::Rook => {
            lemma_slider_shape(p, pc.color, s, corner_delta(pc.color, s, p.rights), m);
        },
        PieceType::Bishop => {
            lemma_slider_shape(p, pc.color, s, CastlingRights::empty(), m);
        },
        PieceType::Queen => {
            if orthogonal_ok(p, pc.color, s, corner_delta(pc.color, s, p.rights), m) {
                lemma_slider_shape(p, pc.color, s, corner_delta(pc.color, s, p.rights), m);
            } else {
                lemma_slider_shape(p, pc.color, s, CastlingRights::empty(), m);
            }
        },
    }
}

/// A promotion move's queen and knight variants are both generated.
pub proof fn lemma_promotion_siblings(p: Position, s: Square, m: Move)
    requires
        pseudo_move_ok(p, s, m),
        m.promotion is Some,
    ensures
        pseudo_move_ok(p, s, m.with_promotion(PieceType::Queen)),
        pseudo_move_ok(p, s, m.with_promotion(PieceType::Knight)),
{
    let pc = at(p, s)->Some_0;
    match pc.piece_type {
        PieceType::Pawn => {
            assert(m.with_promotion(PieceType::Queen).strip_promotion() == m.strip_promotion());
            assert(m.with_promotion(PieceType::Knight).strip_promotion() == m.strip_promotion());
        },
        PieceType::Knight => {
            lemma_knight_shape(p, pc.color, s, m);
        },
        PieceType::King => {
            lemma_king_shape_promotion(p, pc.color, s, m);
        },
        PieceType::Rook => {
            lemma_slider_shape(p, pc.color, s, corner_delta(pc.color, s, p.rights), m);
        },
        PieceType::Bishop => {
            lemma_slider_shape(p, pc.color, s, CastlingRights::empty(), m);
        },
        PieceType::Queen => {
            if orthogonal_ok(p, pc.color, s, corner_delta(pc.color, s, p.rights), m) {
                lemma_slider_shape(p, pc.color, s, corner_delta(pc.color, s, p.rights), m);
            } else {
                lemma_slider_shape(p, pc.color, s, CastlingRights::empty(), m);
            }
        },
    }
}

/// Two positions that agree everywhere except in the kind of one non-king
/// piece of the side that is not to move.
pub open spec fn positions_agree_except(pa: Position, pb: Position, s0: Square) -> bool {
    &&& pa.turn == pb.turn
    &&& pa.rights == pb.rights
    &&& pa.ep == pb.ep
    &&& pa.clock == pb.clock
    &&& pa.board.len() == 64
    &&& pb.board.len() == 64
    &&& valid_sq(s0)
    &&& (forall|i: int| 0 <= i < 64 && i != sq_index(s0) ==> pa.board[i] == pb.board[i])
    &&& (at(pa, s0) matches Some(qa) && qa.piece_type != PieceType::King && qa.color
        != pa.turn)
    &&& (at(pb, s0) matches Some(qb) && qb.piece_type != PieceType::King && qb.color
        != pb.turn)
}

/// In two such positions the same squares are empty.
proof fn lemma_agree_same_emptiness(pa: Position, pb: Position, s0: Square)
    requires
        positions_agree_except(pa, pb, s0),
    ensures
        forall|x: Square|
            valid_sq(x) ==> ((#[trigger] at(pa, x)) is None <==> at(pb, x) is None),
{
    assert forall|x: Square|
        valid_sq(x) implies ((#[trigger] at(pa, x)) is None <==> at(pb, x) is None) by {
        if sq_index(x) != sq_index(s0) {
        } else {
            assert(at(pa, x) == at(pa, s0) && at(pb, x) == at(pb, s0));
        }
    }
}

/// A single candidate transfers between two such positions whenever its
/// destination is not the differing square.
proof fn lemma_generic_transfer(pa: Position, pb: Position, s0: Square, col: Color, s: Square, to: Square)
    requires
        positions_agree_except(pa, pb, s0),
        to != s0 || !valid_sq(to),
    ensures
        generic_move_at(pa, col, s, to) == generic_move_at(pb, col, s, to),
{
    if valid_sq(to) {
        lemma_sq_index_distinct(to, s0);
        assert(at(pa, to) == at(pb, to));
    }
}

/// A king-capturing pseudo-legal move of one position is pseudo-legal in
/// the other: check detection cannot tell the two positions apart.
#[verifier::rlimit(100)]
#[verifier::spinoff_prover]
proof fn lemma_check_transfer(pa: Position, pb: Position, s0: Square, s: Square, m: Move)
    requires
        positions_agree_except(pa, pb, s0),
        pseudo_move_ok(pa, s, m),
        m.capture == Some(PieceType::King),
    ensures
        pseudo_move_ok(pb, s, m),
{
    lemma_agree_same_emptiness(pa, pb, s0);
    lemma_pseudo_shape(pa, s, m);
    assert(s != s0) by {
        if s == s0 {
            assert(at(pa, s)->Some_0.color != pa.turn);
        }
    }
    lemma_sq_index_distinct(s, s0);
    assert(at(pb, s) == at(pa, s));
    let pc = at(pa, s)->Some_0;
    let col = pc.color;
    assert(m.to != s0) by {
        if m.to == s0 {
            lemma_capture_names_target(pa, s, m);
            assert(at(pa, s0)->Some_0.piece_type == PieceType::King);
        }
    }
    match pc.piece_type {
        PieceType::Pawn => {
            let m0 = m.strip_promotion();
            assert(m0.to == m.to);
            if pawn_capture_at(pa, col, s, -1) == Some(m0) {
                lemma_pawn_capture_transfer(pa, pb, s0, col, s, -1, m0);
            } else if pawn_capture_at(pa, col, s, 1) == Some(m0) {
                lemma_pawn_capture_transfer(pa, pb, s0, col, s, 1, m0);
            } else if pawn_forward_one(pa, col, s) == Some(m0) {
                assert(false);
            } else {
                assert(pawn_forward_two(pa, col, s) == Some(m0));
                assert(false);
            }
        },
        PieceType::Knight => {
            lemma_steps_transfer(pa, pb, s0, col, s, m);
        },
        PieceType::King => {
            lemma_steps_transfer(pa, pb, s0, col, s, m);
        },
        PieceType::Rook => {
            lemma_slider_transfer(pa, pb, s0, col, s, corner_delta(col, s, pa.rights), m);
        },
        PieceType::Bishop => {
            lemma_slider_transfer(pa, pb, s0, col, s, CastlingRights::empty(), m);
        },
        PieceType::Queen => {
            if orthogonal_ok(pa, col, s, corner_delta(col, s, pa.rights), m) {
                lemma_slider_transfer(pa, pb, s0, col, s, corner_delta(col, s, pa.rights), m);
            } else {
                lemma_slider_transfer(pa, pb, s0, col, s, CastlingRights::empty(), m);
            }
        },
    }
}

/// A capture's recorded kind is the kind standing on its destination,
/// whatever the position's wider state.
#[verifier::rlimit(60)]
proof fn lemma_capture_names_target(p: Position, s: Square, m: Move)
    requires
        pseudo_move_ok(p, s, m),
        m.capture is Some,
        m.en_passant_capture is None,
    ensures
        at(p, m.to) == Some(
            Piece { piece_type: m.capture->Some_0, color: p.turn.invert_spec() },
        ),
{
    let pc = at(p, s)->Some_0;
    let col = pc.color;
    match pc.piece_type {
        PieceType::Pawn => {
            let m0 = m.strip_promotion();
            if pawn_capture_at(p, col, s, -1) == Some(m0) {
            } else if pawn_capture_at(p, col, s, 1) == Some(m0) {
            } else if pawn_forward_one(p, col, s) == Some(m0) {
                assert(false);
            } else {
                assert(pawn_forward_two(p, col, s) == Some(m0));
                assert(false);
            }
        },
        PieceType::Knight => {
            lemma_capture_steps(p, col, s, m);
        },
        PieceType::King => {
            lemma_capture_steps(p, col, s, m);
        },
        PieceType::Rook => {
            lemma_capture_slider(p, col, s, corner_delta(col, s, p.rights), m);
        },
        PieceType::Bishop => {
            lemma_capture_slider(p, col, s, CastlingRights::empty(), m);
        },
        PieceType::Queen => {
            if orthogonal_ok(p, col, s, corner_delta(col, s, p.rights), m) {
                lemma_capture_slider(p, col, s, corner_delta(col, s, p.rights), m);
            } else {
                lemma_capture_slider(p, col, s, CastlingRights::empty(), m);
            }
        },
    }
}

/// The capture rule for knight and king candidates.
#[verifier::rlimit(60)]
proof fn lemma_capture_steps(p: Position, col: Color, s: Square, m: Move)
    requires
        knight_move_ok(p, col, s, m) || king_move_ok(p, col, s, m),
        col == p.turn,
        m.capture is Some,
    ensures
        at(p, m.to) == Some(
            Piece { piece_type: m.capture->Some_0, color: p.turn.invert_spec() },
        ),
{
}

/// The capture rule along a slider's rays.
#[verifier::rlimit(60)]
proof fn lemma_capture_slider(p: Position, col: Color, s: Square, delta: CastlingRights, m: Move)
    requires
        orthogonal_ok(p, col, s, delta, m) || diagonal_ok(p, col, s, delta, m),
        col == p.turn,
        m.capture is Some,
    ensures
        at(p, m.to) == Some(
            Piece { piece_type: m.capture->Some_0, color: p.turn.invert_spec() },
        ),
{
    if ray_move_ok(p, col, s, 1, 0, delta, m) {
        let k = choose|k: int| 1 <= k <= 7 && #[trigger] ray_hit(p, col, s, 1, 0, delta, k, m);
    } else if ray_move_ok(p, col, s, 0, 1, delta, m) {
        let k = choose|k: int| 1 <= k <= 7 && #[trigger] ray_hit(p, col, s, 0, 1, delta, k, m);
    } else if ray_move_ok(p, col, s, -1, 0, delta, m) {
        let k = choose|k: int| 1 <= k <= 7 && #[trigger] ray_hit(p, col, s, -1, 0, delta, k, m);
    } else if ray_move_ok(p, col, s, 0, -1, delta, m) {
        let k = choose|k: int| 1 <= k <= 7 && #[trigger] ray_hit(p, col, s, 0, -1, delta, k, m);
    } else if ray_move_ok(p, col, s, 1, 1, delta, m) {
        let k = choose|k: int| 1 <= k <= 7 && #[trigger] ray_hit(p, col, s, 1, 1, delta, k, m);
    } else if ray_move_ok(p, col, s, -1, 1, delta, m) {
        let k = choose|k: int| 1 <= k <= 7 && #[trigger] ray_hit(p, col, s, -1, 1, delta, k, m);
    } else if ray_move_ok(p, col, s, 1, -1, delta, m) {
        let k = choose|k: int| 1 <= k <= 7 && #[trigger] ray_hit(p, col, s, 1, -1, delta, k, m);
    } else {
        let k = choose|k: int| 1 <= k <= 7 && #[trigger] ray_hit(p, col, s, -1, -1, delta, k, m);
    }
}

/// A pawn's diagonal capture of a king transfers between agreeing positions.
proof fn lemma_pawn_capture_transfer(pa: Position, pb: Position, s0: Square, col: Color, s: Square, dc: int, m0: Move)
    requires
        positions_agree_except(pa, pb, s0),
        pawn_capture_at(pa, col, s, dc) == Some(m0),
        m0.to != s0,
    ensures
        pawn_capture_at(pb, col, s, dc) == Some(m0),
{
    let to = mk_sq(s.0 + pawn_dir(col), s.1 + dc);
    lemma_sq_index_distinct(to, s0);
    assert(at(pa, to) == at(pb, to));
}

/// One king-capturing step candidate transfers between agreeing positions.
proof fn lemma_step_transfer(pa: Position, pb: Position, s0: Square, col: Color, s: Square, dr: int, dc: int, delta: CastlingRights, m: Move)
    requires
        positions_agree_except(pa, pb, s0),
        step_move_ok(pa, col, s, dr, dc, delta, m),
        m.capture == Some(PieceType::King),
    ensures
        step_move_ok(pb, col, s, dr, dc, delta, m),
{
    let to = mk_sq(s.0 + dr, s.1 + dc);
    assert(to != s0) by {
        if to == s0 {
            assert(at(pa, s0)->Some_0.piece_type == PieceType::King);
        }
    }
    lemma_generic_transfer(pa, pb, s0, col, s, to);
}

/// A king-capturing step candidate transfers between agreeing positions.
#[verifier::rlimit(100)]
proof fn lemma_steps_transfer(pa: Position, pb: Position, s0: Square, col: Color, s: Square, m: Move)
    requires
        positions_agree_except(pa, pb, s0),
        knight_move_ok(pa, col, s, m) || king_move_ok(pa, col, s, m),
        col == pa.turn,
        m.capture == Some(PieceType::King),
        m.to != s0,
        valid_sq(s),
    ensures
        knight_move_ok(pa, col, s, m) ==> knight_move_ok(pb, col, s, m),
        king_move_ok(pa, col, s, m) ==> king_move_ok(pb, col, s, m),
{
    let no = CastlingRights::empty();
    if knight_move_ok(pa, col, s, m) {
        if step_move_ok(pa, col, s, -2, -1, no, m) {
            lemma_step_transfer(pa, pb, s0, col, s, -2, -1, no, m);
        } else if step_move_ok(pa, col, s, -1, -2, no, m) {
            lemma_step_transfer(pa, pb, s0, col, s, -1, -2, no, m);
        } else if step_move_ok(pa, col, s, -2, 1, no, m) {
            lemma_step_transfer(pa, pb, s0, col, s, -2, 1, no, m);
        } else if step_move_ok(pa, col, s, 1, -2, no, m) {
            lemma_step_transfer(pa, pb, s0, col, s, 1, -2, no, m);
        } else if step_move_ok(pa, col, s, 2, -1, no, m) {
            lemma_step_transfer(pa, pb, s0, col, s, 2, -1, no, m);
        } else if step_move_ok(pa, col, s, -1, 2, no, m) {
            lemma_step_transfer(pa, pb, s0, col, s, -1, 2, no, m);
        } else if step_move_ok(pa, col, s, 2, 1, no, m) {
            lemma_step_transfer(pa, pb, s0, col, s, 2, 1, no, m);
        } else {
            lemma_step_transfer(pa, pb, s0, col, s, 1, 2, no, m);
        }
    }
    if king_move_ok(pa, col, s, m) {
        assert(m.castle is None) by {
            if m.castle is Some {
                lemma_king_castle_form(pa, col, s, m);
            }
        }
        let la = lose_all(col, pa.rights);
        assert(lose_all(col, pb.rights) == la);
        if step_move_ok(pa, col, s, -1, -1, la, m) {
            lemma_step_transfer(pa, pb, s0, col, s, -1, -1, la, m);
        } else if step_move_ok(pa, col, s, -1, 0, la, m) {
            lemma_step_transfer(pa, pb, s0, col, s, -1, 0, la, m);
        } else if step_move_ok(pa, col, s, -1, 1, la, m) {
            lemma_step_transfer(pa, pb, s0, col, s, -1, 1, la, m);
        } else if step_move_ok(pa, col, s, 0, -1, la, m) {
            lemma_step_transfer(pa, pb, s0, col, s, 0, -1, la, m);
        } else if step_move_ok(pa, col, s, 0, 1, la, m) {
            lemma_step_transfer(pa, pb, s0, col, s, 0, 1, la, m);
        } else if step_move_ok(pa, col, s, 1, -1, la, m) {
            lemma_step_transfer(pa, pb, s0, col, s, 1, -1, la, m);
        } else if step_move_ok(pa, col, s, 1, 0, la, m) {
            lemma_step_transfer(pa, pb, s0, col, s, 1, 0, la, m);
        } else {
            assert(step_move_ok(pa, col, s, 1, 1, la, m));
            lemma_step_transfer(pa, pb, s0, col, s, 1, 1, la, m);
        }
    }
}

/// A king-capturing slide transfers between agreeing positions.
#[verifier::rlimit(100)]
#[verifier::spinoff_prover]
proof fn lemma_slider_transfer(pa: Position, pb: Position, s0: Square, col: Color, s: Square, delta: CastlingRights, m: Move)
    requires
        positions_agree_except(pa, pb, s0),
        orthogonal_ok(pa, col, s, delta, m) || diagonal_ok(pa, col, s, delta, m),
        col == pa.turn,
        m.capture == Some(PieceType::King),
        m.to != s0,
    ensures
        orthogonal_ok(pa, col, s, delta, m) ==> orthogonal_ok(pb, col, s, delta, m),
        diagonal_ok(pa, col, s, delta, m) ==> diagonal_ok(pb, col, s, delta, m),
{
    lemma_agree_same_emptiness(pa, pb, s0);
    assert forall|dr: int, dc: int|
        -1 <= dr <= 1 && -1 <= dc <= 1 && ray_move_ok(pa, col, s, dr, dc, delta, m) implies
        ray_move_ok(pb, col, s, dr, dc, delta, m) by {
        let k = choose|k: int| 1 <= k <= 7 && #[trigger] ray_hit(pa, col, s, dr, dc, delta, k, m);
        let to = ray_sq(s, dr, dc, k);
        assert(generic_move_at(pa, col, s, to) is Some);
        assert(valid_sq(to));
        assert(to != s0);
        lemma_generic_transfer(pa, pb, s0, col, s, to);
        assert(ray_clear(pb, s, dr, dc, k)) by {
            assert forall|j: int|
                1 <= j < k implies valid_sq(#[trigger] ray_sq(s, dr, dc, j)) && at(
                pb,
                ray_sq(s, dr, dc, j),
            ) is None by {
                assert(at(pa, ray_sq(s, dr, dc, j)) is None);
            }
        }
        assert(ray_hit(pb, col, s, dr, dc, delta, k, m));
    }
}

/// Which promotion kind a pawn takes cannot change whether the opponent can
/// capture the mover's king on the immediate reply: the two variants of one
/// promotion yield positions that check detection cannot tell apart.
#[verifier::rlimit(100)]
#[verifier::spinoff_prover]
pub proof fn lemma_check_same_for_promotions(p: Position, s: Square, m: Move, m2: Move)
    requires
        state_inv(p),
        pseudo_move_ok(p, s, m),
        pseudo_move_ok(p, s, m2),
        m.promotion is Some,
        m2.promotion is Some,
        m2.strip_promotion() == m.strip_promotion(),
    ensures
        in_check_reply(apply_pos(p, m)) == in_check_reply(apply_pos(p, m2)),
{
    lemma_promotion_is_plain(p, s, m);
    lemma_promotion_is_plain(p, s, m2);
    lemma_pseudo_shape(p, s, m);
    lemma_pseudo_shape(p, s, m2);
    lemma_promotion_kinds(p, s, m);
    lemma_promotion_kinds(p, s, m2);
    let pa = apply_pos(p, m);
    let pb = apply_pos(p, m2);
    let pc = at(p, s)->Some_0;
    let fi = sq_index(m.from);
    let ti = sq_index(m.to);
    lemma_sq_index_distinct(m.from, m.to);
    assert(pa.board =~= p.board.update(fi, None).update(
        ti,
        Some(Piece { piece_type: m.promotion->Some_0, color: pc.color }),
    ));
    assert(pb.board =~= p.board.update(fi, None).update(
        ti,
        Some(Piece { piece_type: m2.promotion->Some_0, color: pc.color }),
    ));
    if m.promotion == m2.promotion {
        assert(pa =~= pb);
    } else {
        assert(positions_agree_except(pa, pb, m.to));
        assert(positions_agree_except(pb, pa, m.to));
        if in_check_reply(pa) {
            let (s2, mr) = choose|s2: Square, mr: Move|
                pseudo_move_ok(pa, s2, mr) && mr.capture == Some(PieceType::King);
            lemma_check_transfer(pa, pb, m.to, s2, mr);
        }
        if in_check_reply(pb) {
            let (s2, mr) = choose|s2: Square, mr: Move|
                pseudo_move_ok(pb, s2, mr) && mr.capture == Some(PieceType::King);
            lemma_check_transfer(pb, pa, m.to, s2, mr);
        }
    }
}

/// A promoting move is a plain pawn step or capture: no castle, no
/// en-passant, and the mover is a pawn of the side to move.
#[verifier::rlimit(60)]
proof fn lemma_promotion_is_plain(p: Position, s: Square, m: Move)
    requires
        p.board.len() == 64,
        ep_coherent(p),
        pseudo_move_ok(p, s, m),
        m.promotion is Some,
    ensures
        at(p, s) == Some(Piece { piece_type: PieceType::Pawn, color: p.turn }),
        m.castle is None,
        m.en_passant_capture is None,
        m.en_passant_target_square is None,
        apply_board(p.board, m) == p.board.update(sq_index(m.from), None).update(
            sq_index(m.to),
            Some(Piece { piece_type: m.promotion->Some_0, color: p.turn }),
        ),
{
    lemma_pseudo_shape(p, s, m);
    let pc = at(p, s)->Some_0;
    match pc.piece_type {
        PieceType::Pawn => {},
        PieceType::Knight => {
            lemma_knight_shape(p, pc.color, s, m);
        },
        PieceType::King => {
            lemma_king_shape_promotion(p, pc.color, s, m);
        },
        PieceType::Rook => {
            lemma_slider_shape(p, pc.color, s, corner_delta(pc.color, s, p.rights), m);
        },
        PieceType::Bishop => {
            lemma_slider_shape(p, pc.color, s, CastlingRights::empty(), m);
        },
        PieceType::Queen => {
            if orthogonal_ok(p, pc.color, s, corner_delta(pc.color, s, p.rights), m) {
                lemma_slider_shape(p, pc.color, s, corner_delta(pc.color, s, p.rights), m);
            } else {
                lemma_slider_shape(p, pc.color, s, CastlingRights::empty(), m);
            }
        },
    }
    let m0 = m.strip_promotion();
    assert(pawn_base_ok(p, p.turn, s, m0));
    if pawn_capture_at(p, p.turn, s, -1) == Some(m0) || pawn_capture_at(p, p.turn, s, 1) == Some(
        m0,
    ) {
        let dc: int = if pawn_capture_at(p, p.turn, s, -1) == Some(m0) {
            -1
        } else {
            1
        };
        assert(pawn_capture_at(p, p.turn, s, dc) == Some(m0));
        match at(p, mk_sq(s.0 + pawn_dir(p.turn), s.1 + dc)) {
            Some(q) => {
                assert(m0.en_passant_capture is None);
            },
            None => {
                assert(p.ep == Some(m0.to));
                assert(m0.to.0 == 2 || m0.to.0 == 5);
                assert(false) by {
                    assert(last_rank(m.to.0));
                }
            },
        }
    } else if pawn_forward_one(p, p.turn, s) == Some(m0) {
    } else {
        assert(pawn_forward_two(p, p.turn, s) == Some(m0));
        assert(false) by {
            assert(last_rank(m.to.0));
            assert(s.0 == pawn_start_row(p.turn));
        }
    }
    lemma_sq_index_distinct(m.from, m.to);
    assert(apply_board(p.board, m) =~= p.board.update(sq_index(m.from), None).update(
        sq_index(m.to),
        Some(Piece { piece_type: m.promotion->Some_0, color: p.turn }),
    ));
}

} // verus!
