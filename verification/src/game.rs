//! The game aggregate: board, side to move, rights, clocks, history and the
//! cached legal-move table, together with the reversible apply/undo protocol
//! and the public move-request surface.
use vstd::prelude::*;
use vstd::pervasive::VecAdditionalExecFns;
use vstd::string::StringExecFns;
use crate::moves::valid_sq;
use crate::moves::Move;
use crate::moves::Square;
use crate::pieces::CastlingRights;
use crate::pieces::Color;
use crate::pieces::Piece;
use crate::pieces::PieceType;
use crate::rules::apply_board;
use crate::rules::apply_pos;
use crate::rules::at;
use crate::rules::generic_move_at;
use crate::rules::move_shape_ok;
use crate::rules::move_sq;
use crate::rules::rook_from;
use crate::rules::rook_to;
use crate::rules::sq_index;
use crate::rules::state_inv;
use crate::rules::Position;

verus! {

broadcast use vstd::seq_lib::lemma_seq_contains_after_push;

/// The mathematical image of a whole game.
#[verifier::ext_equal]
pub struct GameView {
    pub board: Seq<Option<Piece>>,
    pub turn: Color,
    pub rights: CastlingRights,
    pub ep: Option<Square>,
    pub clock: u8,
    pub fullmove: u16,
    pub hist: Seq<Move>,
    pub table: Seq<Seq<Move>>,
}

/// The full-move number after one more ply by the second side, held at its
/// ceiling rather than wrapping.
pub open spec fn bump_fullmove(n: u16) -> u16 {
    if n < 0xffff {
        (n + 1) as u16
    } else {
        0xffffu16
    }
}

/// The full-move number after taking one ply by the second side back.
pub open spec fn drop_fullmove(n: u16) -> u16 {
    if n > 0 {
        (n - 1) as u16
    } else {
        0u16
    }
}

impl GameView {
    /// The position part of the game.
    pub open spec fn pos(self) -> Position {
        Position { board: self.board, turn: self.turn, rights: self.rights, ep: self.ep, clock: self.clock }
    }

    /// The game after applying `m`: the new position, the full-move number
    /// advanced after the second side's ply, and `m` appended to the history.
    /// The cached table is untouched.
    pub open spec fn apply(self, m: Move) -> GameView {
        GameView {
            board: apply_board(self.board, m),
            turn: self.turn.invert_spec(),
            rights: self.rights.minus(m.losing_castle_rights),
            ep: m.en_passant_target_square,
            clock: m.halfmove_clock,
            fullmove: if self.turn == Color::Black {
                bump_fullmove(self.fullmove)
            } else {
                self.fullmove
            },
            hist: self.hist.push(m),
            table: self.table,
        }
    }

    /// The board after taking the last recorded ply `m` (made by `mover`)
    /// back: the mover returns to its source, a captured piece or
    /// en-passant-captured pawn is rebuilt, a castling rook returns home and
    /// a promoted pawn's kind is reset.
    pub open spec fn undo_board(b: Seq<Option<Piece>>, m: Move, mover: Color) -> Seq<
        Option<Piece>,
    > {
        let b1 = move_sq(b, m.to, m.from);
        let b2 = match m.en_passant_capture {
            Some(c) => b1.update(
                sq_index(c),
                Some(Piece { piece_type: PieceType::Pawn, color: mover.invert_spec() }),
            ),
            None => match m.capture {
                Some(k) => b1.update(
                    sq_index(m.to),
                    Some(Piece { piece_type: k, color: mover.invert_spec() }),
                ),
                None => b1,
            },
        };
        let b3 = match m.castle {
            Some(ca) => move_sq(b2, rook_to(ca), rook_from(ca)),
            None => b2,
        };
        match m.promotion {
            Some(k) => match b3[sq_index(m.from)] {
                Some(q) => b3.update(
                    sq_index(m.from),
                    Some(Piece { piece_type: PieceType::Pawn, color: q.color }),
                ),
                None => b3,
            },
            None => b3,
        }
    }

    /// The game after taking the last recorded ply back: the exact inverse of
    /// `apply`. The en-passant target and half-move clock are restored from
    /// the move that is last in the shortened history, or from their empty
    /// and zero defaults. The cached table is untouched.
    pub open spec fn undo(self) -> GameView
        recommends
            self.hist.len() > 0,
    {
        let m = self.hist.last();
        let rest = self.hist.drop_last();
        let mover = self.turn.invert_spec();
        GameView {
            board: GameView::undo_board(self.board, m, mover),
            turn: mover,
            rights: self.rights.plus(m.losing_castle_rights),
            ep: if rest.len() == 0 {
                None
            } else {
                rest.last().en_passant_target_square
            },
            clock: if rest.len() == 0 {
                0u8
            } else {
                rest.last().halfmove_clock
            },
            fullmove: if mover == Color::Black {
                drop_fullmove(self.fullmove)
            } else {
                self.fullmove
            },
            hist: rest,
            table: self.table,
        }
    }

    /// The game with its cached table and full-move number blanked: the part
    /// that the undo chain reasons about.
    pub open spec fn trimmed(self) -> GameView {
        GameView { fullmove: 0u16, table: Seq::empty(), ..self }
    }

    /// The en-passant target and half-move clock always equal what the last
    /// recorded ply stamped, or their defaults with no history.
    pub open spec fn history_synced(self) -> bool {
        &&& self.ep == (if self.hist.len() == 0 {
            None::<Square>
        } else {
            self.hist.last().en_passant_target_square
        })
        &&& self.clock == (if self.hist.len() == 0 {
            0u8
        } else {
            self.hist.last().halfmove_clock
        })
    }

    /// Every recorded ply touches only the board.
    pub open spec fn history_shaped(self) -> bool {
        forall|i: int| 0 <= i < self.hist.len() ==> move_shape_ok(#[trigger] self.hist[i])
    }

    /// The engine invariant along the whole undo chain: the current position
    /// is internally coherent, the clocks agree with the history, and the
    /// same holds of every state the history can be unwound to.
    pub open spec fn chain_inv(self) -> bool
        decreases self.hist.len(),
    {
        &&& state_inv(self.pos())
        &&& self.history_synced()
        &&& (self.hist.len() > 0 ==> self.undo().trimmed().chain_inv())
    }
}

/// The aggregate root. It is constructed once into the standard starting
/// position and mutated only through `request_move` and
/// `unmake_move_and_recalculate`; the cached legal-move table is consistent
/// with the rest of the state whenever a public operation returns.
pub struct Game {
    /// Row-major 8 by 8 occupancy, 64 cells.
    pub board: Vec<Option<Piece>>,
    /// The side to move.
    pub turn: Color,
    /// The rights currently available.
    pub castling_rights: CastlingRights,
    /// The square a two-square pawn advance just passed over, if any.
    pub en_passant_target_square: Option<Square>,
    /// Plies since the last capture or pawn move, as stamped by each move.
    pub halfmove_clock: u8,
    /// Full moves completed, advanced after each of the second side's plies.
    pub fullmove_number: u16,
    /// The ordered history of applied moves: the undo stack.
    pub moves: Vec<Move>,
    /// One legal-move list per origin square, row-major, 64 lists.
    pub legal_moves: Vec<Vec<Move>>,
}

impl View for Game {
    type V = GameView;

    open spec fn view(&self) -> GameView {
        GameView {
            board: self.board@,
            turn: self.turn,
            rights: self.castling_rights,
            ep: self.en_passant_target_square,
            clock: self.halfmove_clock,
            fullmove: self.fullmove_number,
            hist: self.moves@,
            table: self.legal_moves@.map_values(|v: Vec<Move>| v@),
        }
    }
}

impl Game {
    /// The board and the cached table have their fixed sizes.
    pub open spec fn wf(self) -> bool {
        &&& self.board@.len() == 64
        &&& self.legal_moves@.len() == 64
    }

    /// Every internal invariant except the freshness of the cached table.
    pub open spec fn coherent(self) -> bool {
        &&& self.wf()
        &&& self@.history_shaped()
        &&& self@.trimmed().chain_inv()
    }

    /// The cached table lists, for every origin square, exactly the fully
    /// legal moves of the current position.
    pub open spec fn synced(self) -> bool {
        forall|s: Square, m: Move|
            valid_sq(s) ==> (#[trigger] self@.table[sq_index(s)].contains(m) <==> crate::rules::move_legal(
                self@.pos(),
                s,
                m,
            ))
    }

    /// The full engine invariant, held between any two public operations.
    pub open spec fn inv(self) -> bool {
        self.coherent() && self.synced()
    }

    /// The letter a board cell is drawn with: lower case for the second
    /// side, upper case for the first, a space for an empty cell.
    pub open spec fn cell_letter(cell: Option<Piece>) -> char {
        match cell {
            None => ' ',
            Some(p) => match (p.color, p.piece_type) {
                (Color::Black, PieceType::Pawn) => 'p',
                (Color::Black, PieceType::Knight) => 'n',
                (Color::Black, PieceType::Bishop) => 'b',
                (Color::Black, PieceType::Rook) => 'r',
                (Color::Black, PieceType::Queen) => 'q',
                (Color::Black, PieceType::King) => 'k',
                (Color::White, PieceType::Pawn) => 'P',
                (Color::White, PieceType::Knight) => 'N',
                (Color::White, PieceType::Bishop) => 'B',
                (Color::White, PieceType::Rook) => 'R',
                (Color::White, PieceType::Queen) => 'Q',
                (Color::White, PieceType::King) => 'K',
            },
        }
    }

    /// The 64 cells as letters, row-major: one character per square.
    pub fn board_string(&self) -> (r: String)
        requires
            self.board@.len() == 64,
        ensures
            r@.len() == 64,
            forall|i: int| 0 <= i < 64 ==> r@[i] == Game::cell_letter(self.board@[i]),
    {
        let mut r = String::new();
        let mut i: usize = 0;
        while i < 64
            invariant
                self.board@.len() == 64,
                i <= 64,
                r@.len() == i,
                forall|j: int| 0 <= j < i ==> r@[j] == Game::cell_letter(self.board@[j]),
            decreases 64 - i,
        {
            let letter: &str = cell_letter_str(self.board[i]);
            r.append(letter);
            i = i + 1;
        }
        r
    }

    /// The piece occupying `square`, or nothing: out-of-range coordinates are
    /// a normal query outcome, answered with an empty cell.
    pub fn piece_at_square(&self, square: &Square) -> (r: Option<Piece>)
        requires
            self.board@.len() == 64,
        ensures
            r == (if valid_sq(*square) {
                at(self@.pos(), *square)
            } else {
                None::<Piece>
            }),
    {
        if 0 <= square.0 && square.0 < 8 && 0 <= square.1 && square.1 < 8 {
            self.board[(square.0 as usize) * 8 + (square.1 as usize)]
        } else {
            None
        }
    }

    /// Unconditionally relocates whatever occupies `from` onto `to`,
    /// overwriting any prior occupant of `to` and emptying `from`. A raw
    /// primitive with no notion of legality: callers own all validity.
    fn move_piece(&mut self, from: &Square, to: &Square)
        requires
            old(self).board@.len() == 64,
            valid_sq(*from),
            valid_sq(*to),
        ensures
            final(self).board@ == move_sq(old(self).board@, *from, *to),
            final(self).turn == old(self).turn,
            final(self).castling_rights == old(self).castling_rights,
            final(self).en_passant_target_square == old(self).en_passant_target_square,
            final(self).halfmove_clock == old(self).halfmove_clock,
            final(self).fullmove_number == old(self).fullmove_number,
            final(self).moves == old(self).moves,
            final(self).legal_moves == old(self).legal_moves,
    {
        let fi: usize = (from.0 as usize) * 8 + (from.1 as usize);
        let ti: usize = (to.0 as usize) * 8 + (to.1 as usize);
        let moved: Option<Piece> = self.board[fi];
        self.board.set(fi, None);
        self.board.set(ti, moved);
        proof {
            assert(final(self).board@ =~= move_sq(old(self).board@, *from, *to));
        }
    }

    /// The move-or-capture candidate from `from` to `to` for the piece on
    /// `from`: nothing when `to` is off the board or friendly, a quiet move
    /// onto an empty square, a capture onto an enemy piece.
    fn generic_move(&self, from: &Square, to: Square) -> (r: Option<Move>)
        requires
            self.board@.len() == 64,
            valid_sq(*from),
            at(self@.pos(), *from) is Some,
        ensures
            r == generic_move_at(
                self@.pos(),
                at(self@.pos(), *from)->Some_0.color,
                *from,
                to,
            ),
    {
        if !(0 <= to.0 && to.0 < 8 && 0 <= to.1 && to.1 < 8) {
            return None;
        }
        let color: Color = self.board[(from.0 as usize) * 8 + (from.1 as usize)].unwrap().color;
        match self.board[(to.0 as usize) * 8 + (to.1 as usize)] {
            None => Some(
                Move {
                    from: *from,
                    to,
                    halfmove_clock: if self.halfmove_clock < 255 {
                        self.halfmove_clock + 1
                    } else {
                        255
                    },
                    ..Move::default()
                },
            ),
            Some(capture_piece) => {
                if capture_piece.color != color {
                    Some(
                        Move { from: *from, to, capture: Some(capture_piece.piece_type), ..Move::default() },
                    )
                } else {
                    None
                }
            },
        }
    }
}

/// The one-letter text of a board cell.
fn cell_letter_str(cell: Option<Piece>) -> (r: &'static str)
    ensures
        r@.len() == 1,
        r@[0] == Game::cell_letter(cell),
{
    proof {
        reveal_strlit(" ");
        reveal_strlit("p");
        reveal_strlit("n");
        reveal_strlit("b");
        reveal_strlit("r");
        reveal_strlit("q");
        reveal_strlit("k");
        reveal_strlit("P");
        reveal_strlit("N");
        reveal_strlit("B");
        reveal_strlit("R");
        reveal_strlit("Q");
        reveal_strlit("K");
    }
    match cell {
        None => " ",
        Some(p) => match (p.color, p.piece_type) {
            (Color::Black, PieceType::Pawn) => "p",
            (Color::Black, PieceType::Knight) => "n",
            (Color::Black, PieceType::Bishop) => "b",
            (Color::Black, PieceType::Rook) => "r",
            (Color::Black, PieceType::Queen) => "q",
            (Color::Black, PieceType::King) => "k",
            (Color::White, PieceType::Pawn) => "P",
            (Color::White, PieceType::Knight) => "N",
            (Color::White, PieceType::Bishop) => "B",
            (Color::White, PieceType::Rook) => "R",
            (Color::White, PieceType::Queen) => "Q",
            (Color::White, PieceType::King) => "K",
        },
    }
}

/// Appends `m0`, expanded on the last rank into one move per offered
/// promotion kind (queen and knight), and appended unchanged elsewhere.
fn push_pawn_candidate(ms: &mut Vec<Move>, m0: Move)
    requires
        m0.promotion is None,
    ensures
        forall|m: Move|
            final(ms)@.contains(m) <==> old(ms)@.contains(m) || (if crate::rules::last_rank(m0.to.0) {
                m == m0.with_promotion(PieceType::Queen) || m == m0.with_promotion(PieceType::Knight)
            } else {
                m == m0
            }),
{
    if m0.to.0 == 0 || m0.to.0 == 7 {
        ms.push(Move { promotion: Some(PieceType::Queen), ..m0 });
        ms.push(Move { promotion: Some(PieceType::Knight), ..m0 });
    } else {
        ms.push(m0);
    }
}

impl Game {
    /// Appends the one-step candidate (`dr`, `dc`) away, if any, carrying
    /// the caller's rights-revocation delta.
    fn push_step_move(&self, ms: &mut Vec<Move>, from: &Square, dr: i8, dc: i8, delta: CastlingRights)
        requires
            self.board@.len() == 64,
            valid_sq(*from),
            at(self@.pos(), *from) is Some,
            -2 <= dr <= 2,
            -2 <= dc <= 2,
        ensures
            forall|m: Move|
                final(ms)@.contains(m) <==> old(ms)@.contains(m) || crate::rules::step_move_ok(
                    self@.pos(),
                    at(self@.pos(), *from)->Some_0.color,
                    *from,
                    dr as int,
                    dc as int,
                    delta,
                    m,
                ),
    {
        let to: Square = (from.0 + dr, from.1 + dc);
        match self.generic_move(from, to) {
            Some(base) => ms.push(Move { losing_castle_rights: delta, ..base }),
            None => (),
        }
    }

    /// Walks one sliding ray from `from`, appending a quiet move for every
    /// empty square, one final capture if an enemy piece ends the ray, and
    /// stopping at the first occupied square or the board's edge. Every
    /// appended move carries the caller's rights-revocation delta.
    fn push_ray_moves(&self, ms: &mut Vec<Move>, from: &Square, dr: i8, dc: i8, delta: CastlingRights)
        requires
            self.board@.len() == 64,
            valid_sq(*from),
            at(self@.pos(), *from) is Some,
            -1 <= dr <= 1,
            -1 <= dc <= 1,
            !(dr == 0 && dc == 0),
        ensures
            forall|m: Move|
                final(ms)@.contains(m) <==> old(ms)@.contains(m) || crate::rules::ray_move_ok(
                    self@.pos(),
                    at(self@.pos(), *from)->Some_0.color,
                    *from,
                    dr as int,
                    dc as int,
                    delta,
                    m,
                ),
    {
        let ghost p = self@.pos();
        let ghost col = at(p, *from)->Some_0.color;
        let ghost entry = ms@;
        let mut rr: i8 = from.0 + dr;
        let mut cc: i8 = from.1 + dc;
        let mut k: i8 = 1;
        loop
            invariant_except_break
                self.board@.len() == 64,
                valid_sq(*from),
                at(p, *from) is Some,
                p == self@.pos(),
                col == at(p, *from)->Some_0.color,
                -1 <= dr <= 1,
                -1 <= dc <= 1,
                !(dr == 0 && dc == 0),
                1 <= k <= 8,
                rr as int == from.0 + (k as int) * (dr as int),
                cc as int == from.1 + (k as int) * (dc as int),
                crate::rules::ray_clear(p, *from, dr as int, dc as int, k as int),
                forall|m: Move| #![trigger ms@.contains(m)]
                    ms@.contains(m) <==> entry.contains(m) || (exists|j: int|
                        1 <= j < k && crate::rules::ray_hit(
                            p,
                            col,
                            *from,
                            dr as int,
                            dc as int,
                            delta,
                            j,
                            m,
                        )),
            ensures
                forall|m: Move|
                    ms@.contains(m) <==> entry.contains(m) || crate::rules::ray_move_ok(
                        p,
                        col,
                        *from,
                        dr as int,
                        dc as int,
                        delta,
                        m,
                    ),
            decreases 9 - k,
        {
            if !(0 <= rr && rr < 8 && 0 <= cc && cc < 8) {
                proof {
                    assert forall|m: Move, j: int| k <= j <= 7 implies !crate::rules::ray_hit(
                        p, col, *from, dr as int, dc as int, delta, j, m,
                    ) by {
                        assert(crate::rules::ray_sq(*from, dr as int, dc as int, k as int) == (rr, cc));
                        if j > k {
                            assert(!(valid_sq(crate::rules::ray_sq(*from, dr as int, dc as int, k as int))
                                && at(p, crate::rules::ray_sq(*from, dr as int, dc as int, k as int)) is None));
                        }
                    }
                    assert forall|m: Move|
                        ms@.contains(m) <==> entry.contains(m) || crate::rules::ray_move_ok(
                            p, col, *from, dr as int, dc as int, delta, m,
                        ) by {
                        if crate::rules::ray_move_ok(p, col, *from, dr as int, dc as int, delta, m) {
                            let j = choose|j: int|
                                1 <= j <= 7 && crate::rules::ray_hit(
                                    p, col, *from, dr as int, dc as int, delta, j, m,
                                );
                            assert(j < k);
                            assert(exists|j2: int| 1 <= j2 < k && crate::rules::ray_hit(p, col, *from, dr as int, dc as int, delta, j2, m));
                            assert(ms@.contains(m));
                        }
                        if ms@.contains(m) && !entry.contains(m) {
                            let j = choose|j: int|
                                1 <= j < k && crate::rules::ray_hit(
                                    p, col, *from, dr as int, dc as int, delta, j, m,
                                );
                            assert(1 <= j <= 7 && crate::rules::ray_hit(
                                p, col, *from, dr as int, dc as int, delta, j, m,
                            ));
                        }
                    }
                }
                break;
            }
            let to: Square = (rr, cc);
            proof {
                assert(crate::rules::ray_sq(*from, dr as int, dc as int, k as int) == to);
                assert(k < 8) by {
                    if k == 8 {
                        if dr == 1 {
                            assert(rr as int == from.0 + 8) by (nonlinear_arith)
                                requires rr as int == from.0 + (k as int) * (dr as int), k == 8, dr == 1;
                        } else if dr == -1 {
                            assert(rr as int == from.0 - 8) by (nonlinear_arith)
                                requires rr as int == from.0 + (k as int) * (dr as int), k == 8, dr == -1;
                        } else if dc == 1 {
                            assert(cc as int == from.1 + 8) by (nonlinear_arith)
                                requires cc as int == from.1 + (k as int) * (dc as int), k == 8, dc == 1;
                        } else {
                            assert(cc as int == from.1 - 8) by (nonlinear_arith)
                                requires cc as int == from.1 + (k as int) * (dc as int), k == 8, dc == -1;
                        }
                    }
                }
            }
            match self.generic_move(from, to) {
                None => {
                    proof {
                        assert(at(p, to) is Some);
                        assert forall|m: Move, j: int| k <= j <= 7 implies !crate::rules::ray_hit(
                            p, col, *from, dr as int, dc as int, delta, j, m,
                        ) by {
                            if j > k {
                                assert(!(at(p, crate::rules::ray_sq(*from, dr as int, dc as int, k as int)) is None));
                            }
                        }
                        assert forall|m: Move|
                            ms@.contains(m) <==> entry.contains(m) || crate::rules::ray_move_ok(
                                p, col, *from, dr as int, dc as int, delta, m,
                            ) by {
                            if crate::rules::ray_move_ok(p, col, *from, dr as int, dc as int, delta, m) {
                                let j = choose|j: int|
                                    1 <= j <= 7 && crate::rules::ray_hit(
                                        p, col, *from, dr as int, dc as int, delta, j, m,
                                    );
                                assert(j < k);
                                assert(exists|j2: int| 1 <= j2 < k && crate::rules::ray_hit(p, col, *from, dr as int, dc as int, delta, j2, m));
                                assert(ms@.contains(m));
                            }
                            if ms@.contains(m) && !entry.contains(m) {
                                let j = choose|j: int|
                                    1 <= j < k && crate::rules::ray_hit(
                                        p, col, *from, dr as int, dc as int, delta, j, m,
                                    );
                                assert(1 <= j <= 7 && crate::rules::ray_hit(
                                    p, col, *from, dr as int, dc as int, delta, j, m,
                                ));
                            }
                        }
                    }
                    break;
                },
                Some(base) => {
                    let is_capture = base.capture.is_some();
                    let mv = Move { losing_castle_rights: delta, ..base };
                    let ghost before = ms@;
                    ms.push(mv);
                    proof {
                        assert(crate::rules::ray_hit(p, col, *from, dr as int, dc as int, delta, k as int, mv));
                        assert forall|m: Move|
                            crate::rules::ray_hit(p, col, *from, dr as int, dc as int, delta, k as int, m)
                            implies m == mv by {}
                    }
                    if is_capture {
                        proof {
                            assert forall|m: Move, j: int| k < j <= 7 implies !crate::rules::ray_hit(
                                p, col, *from, dr as int, dc as int, delta, j, m,
                            ) by {
                                assert(!(at(p, crate::rules::ray_sq(*from, dr as int, dc as int, k as int)) is None));
                            }
                            assert forall|m: Move|
                                ms@.contains(m) <==> entry.contains(m) || crate::rules::ray_move_ok(
                                    p, col, *from, dr as int, dc as int, delta, m,
                                ) by {
                                if crate::rules::ray_move_ok(p, col, *from, dr as int, dc as int, delta, m) {
                                    let j = choose|j: int|
                                        1 <= j <= 7 && crate::rules::ray_hit(
                                            p, col, *from, dr as int, dc as int, delta, j, m,
                                        );
                                    if j == k {
                                        assert(m == mv);
                                        assert(ms@.contains(m));
                                    } else {
                                        assert(j < k);
                                        assert(exists|j2: int| 1 <= j2 < k && crate::rules::ray_hit(p, col, *from, dr as int, dc as int, delta, j2, m));
                                        assert(before.contains(m));
                                        assert(ms@.contains(m));
                                    }
                                }
                                if ms@.contains(m) && !entry.contains(m) {
                                    if before.contains(m) {
                                        let j = choose|j: int|
                                            1 <= j < k && crate::rules::ray_hit(
                                                p, col, *from, dr as int, dc as int, delta, j, m,
                                            );
                                        assert(1 <= j <= 7 && crate::rules::ray_hit(
                                            p, col, *from, dr as int, dc as int, delta, j, m,
                                        ));
                                    } else {
                                        assert(m == mv);
                                        assert(crate::rules::ray_hit(
                                            p, col, *from, dr as int, dc as int, delta, k as int, m,
                                        ));
                                    }
                                }
                            }
                        }
                        break;
                    }
                    proof {
                        assert((k as int + 1) * (dr as int) == (k as int) * (dr as int) + dr as int)
                            by (nonlinear_arith);
                        assert((k as int + 1) * (dc as int) == (k as int) * (dc as int) + dc as int)
                            by (nonlinear_arith);
                        assert(at(p, to) is None);
                        assert forall|j: int|
                            1 <= j < k + 1 implies valid_sq(#[trigger] crate::rules::ray_sq(*from, dr as int, dc as int, j))
                            && at(p, crate::rules::ray_sq(*from, dr as int, dc as int, j)) is None by {
                            if j == k {
                                assert(crate::rules::ray_sq(*from, dr as int, dc as int, j) == to);
                            }
                        }
                        assert forall|m: Move|
                            ms@.contains(m) <==> entry.contains(m) || (exists|j: int|
                                1 <= j < k + 1 && crate::rules::ray_hit(
                                    p, col, *from, dr as int, dc as int, delta, j, m,
                                )) by {
                            if ms@.contains(m) && !entry.contains(m) {
                                if before.contains(m) {
                                    let j = choose|j: int|
                                        1 <= j < k && crate::rules::ray_hit(
                                            p, col, *from, dr as int, dc as int, delta, j, m,
                                        );
                                    assert(1 <= j < k + 1 && crate::rules::ray_hit(
                                        p, col, *from, dr as int, dc as int, delta, j, m,
                                    ));
                                } else {
                                    assert(crate::rules::ray_hit(
                                        p, col, *from, dr as int, dc as int, delta, k as int, m,
                                    ));
                                    assert(1 <= k as int && (k as int) < k + 1);
                                }
                            }
                            if exists|j: int|
                                1 <= j < k + 1 && crate::rules::ray_hit(
                                    p, col, *from, dr as int, dc as int, delta, j, m,
                                ) {
                                let j = choose|j: int|
                                    1 <= j < k + 1 && crate::rules::ray_hit(
                                        p, col, *from, dr as int, dc as int, delta, j, m,
                                    );
                                if j == k {
                                    assert(m == mv);
                                    assert(ms@.contains(m));
                                } else {
                                    assert(1 <= j < k && crate::rules::ray_hit(
                                        p, col, *from, dr as int, dc as int, delta, j, m,
                                    ));
                                    assert(before.contains(m));
                                    assert(ms@.contains(m));
                                }
                            }
                        }
                    }
                    rr = rr + dr;
                    cc = cc + dc;
                    k = k + 1;
                },
            }
        }
    }

    /// A pawn's diagonal candidate toward column offset `dc`: an ordinary
    /// capture, or an en-passant capture of the pawn standing beside the
    /// mover when the empty diagonal equals the en-passant target.
    fn pawn_capture(&self, col: Color, s: &Square, dc: i8) -> (r: Option<Move>)
        requires
            self.board@.len() == 64,
            valid_sq(*s),
            dc == 1 || dc == -1,
        ensures
            r == crate::rules::pawn_capture_at(self@.pos(), col, *s, dc as int),
    {
        let dir: i8 = match col {
            Color::Black => 1,
            Color::White => -1,
        };
        let tr: i8 = s.0 + dir;
        let tc: i8 = s.1 + dc;
        if !(0 <= tr && tr < 8 && 0 <= tc && tc < 8) {
            return None;
        }
        let to: Square = (tr, tc);
        match self.board[(tr as usize) * 8 + (tc as usize)] {
            Some(q) => {
                if q.color != col {
                    Some(Move { from: *s, to, capture: Some(q.piece_type), ..Move::default() })
                } else {
                    None
                }
            },
            None => {
                let is_target = match self.en_passant_target_square {
                    Some(t) => t.0 == tr && t.1 == tc,
                    None => false,
                };
                if is_target {
                    Some(
                        Move {
                            from: *s,
                            to,
                            capture: Some(PieceType::Pawn),
                            en_passant_capture: Some((s.0, tc)),
                            ..Move::default()
                        },
                    )
                } else {
                    None
                }
            },
        }
    }

    /// A pawn's single advance onto an empty square directly ahead.
    fn pawn_forward_one(&self, col: Color, s: &Square) -> (r: Option<Move>)
        requires
            self.board@.len() == 64,
            valid_sq(*s),
        ensures
            r == crate::rules::pawn_forward_one(self@.pos(), col, *s),
    {
        let dir: i8 = match col {
            Color::Black => 1,
            Color::White => -1,
        };
        let tr: i8 = s.0 + dir;
        if !(0 <= tr && tr < 8) {
            return None;
        }
        if self.board[(tr as usize) * 8 + (s.1 as usize)].is_none() {
            Some(Move { from: *s, to: (tr, s.1), ..Move::default() })
        } else {
            None
        }
    }

    /// A pawn's two-square advance from its starting rank over two empty
    /// squares, stamping the square passed over as the new en-passant target.
    fn pawn_forward_two(&self, col: Color, s: &Square) -> (r: Option<Move>)
        requires
            self.board@.len() == 64,
            valid_sq(*s),
        ensures
            r == crate::rules::pawn_forward_two(self@.pos(), col, *s),
    {
        let dir: i8 = match col {
            Color::Black => 1,
            Color::White => -1,
        };
        let start: i8 = match col {
            Color::Black => 1,
            Color::White => 6,
        };
        if s.0 != start {
            return None;
        }
        let mr: i8 = s.0 + dir;
        let tr: i8 = s.0 + 2 * dir;
        if self.board[(mr as usize) * 8 + (s.1 as usize)].is_none() && self.board[(tr as usize) * 8
            + (s.1 as usize)].is_none() {
            Some(
                Move {
                    from: *s,
                    to: (tr, s.1),
                    en_passant_target_square: Some((mr, s.1)),
                    ..Move::default()
                },
            )
        } else {
            None
        }
    }

    /// The rights-revocation delta a rook or queen standing on `square`
    /// stamps on its orthogonal slides.
    fn corner_delta_now(&self, col: Color, square: &Square) -> (d: CastlingRights)
        ensures
            d == crate::rules::corner_delta(col, *square, self.castling_rights),
    {
        CastlingRights {
            white_queenside: col == Color::White && square.0 == 7 && square.1 == 0
                && self.castling_rights.white_queenside,
            white_kingside: col == Color::White && square.0 == 7 && square.1 == 7
                && self.castling_rights.white_kingside,
            black_queenside: col == Color::Black && square.0 == 0 && square.1 == 0
                && self.castling_rights.black_queenside,
            black_kingside: col == Color::Black && square.0 == 0 && square.1 == 7
                && self.castling_rights.black_kingside,
        }
    }

    /// Every pseudo-legal move of the piece on `square`: structurally legal
    /// for its movement pattern and the occupancy, ignorant of check. Empty
    /// at once for an off-board or empty square or an opponent's piece.
    fn compute_legal_moves_on_square(&self, square: Square) -> (ms: Vec<Move>)
        requires
            self.board@.len() == 64,
        ensures
            forall|m: Move| #![trigger ms@.contains(m)]
                ms@.contains(m) <==> crate::rules::pseudo_move_ok(self@.pos(), square, m),
    {
        let ghost p = self@.pos();
        let mut ms: Vec<Move> = Vec::new();
        if !(0 <= square.0 && square.0 < 8 && 0 <= square.1 && square.1 < 8) {
            return ms;
        }
        let cell: Option<Piece> = self.board[(square.0 as usize) * 8 + (square.1 as usize)];
        proof {
            assert(cell == at(p, square));
        }
        let piece_some: Piece = match cell {
            Some(pc) => pc,
            None => {
                return ms;
            },
        };
        if piece_some.color != self.turn {
            return ms;
        }
        let col: Color = piece_some.color;
        let row: i8 = square.0;
        match piece_some.piece_type {
            PieceType::Pawn => {
                match self.pawn_capture(col, &square, -1) {
                    Some(m0) => push_pawn_candidate(&mut ms, m0),
                    None => (),
                }
                match self.pawn_capture(col, &square, 1) {
                    Some(m0) => push_pawn_candidate(&mut ms, m0),
                    None => (),
                }
                match self.pawn_forward_one(col, &square) {
                    Some(m0) => push_pawn_candidate(&mut ms, m0),
                    None => (),
                }
                match self.pawn_forward_two(col, &square) {
                    Some(m0) => push_pawn_candidate(&mut ms, m0),
                    None => (),
                }
                proof {
                    assert forall|m: Move| #![trigger ms@.contains(m)]
                        ms@.contains(m) <==> crate::rules::pseudo_move_ok(p, square, m) by {
                        assert(crate::rules::pseudo_move_ok(p, square, m)
                            == crate::rules::pawn_move_ok(p, col, square, m));
                    }
                }
            },
            PieceType::Knight => {
                let none_delta = CastlingRights {
                    white_queenside: false,
                    white_kingside: false,
                    black_queenside: false,
                    black_kingside: false,
                };
                self.push_step_move(&mut ms, &square, -2, -1, none_delta);
                self.push_step_move(&mut ms, &square, -1, -2, none_delta);
                self.push_step_move(&mut ms, &square, -2, 1, none_delta);
                self.push_step_move(&mut ms, &square, 1, -2, none_delta);
                self.push_step_move(&mut ms, &square, 2, -1, none_delta);
                self.push_step_move(&mut ms, &square, -1, 2, none_delta);
                self.push_step_move(&mut ms, &square, 2, 1, none_delta);
                self.push_step_move(&mut ms, &square, 1, 2, none_delta);
            },
            PieceType::King => {
                let lose_all_castling = CastlingRights {
                    white_queenside: col == Color::White && self.castling_rights.white_queenside,
                    white_kingside: col == Color::White && self.castling_rights.white_kingside,
                    black_queenside: col == Color::Black && self.castling_rights.black_queenside,
                    black_kingside: col == Color::Black && self.castling_rights.black_kingside,
                };
                self.push_step_move(&mut ms, &square, -1, -1, lose_all_castling);
                self.push_step_move(&mut ms, &square, -1, 0, lose_all_castling);
                self.push_step_move(&mut ms, &square, -1, 1, lose_all_castling);
                self.push_step_move(&mut ms, &square, 0, -1, lose_all_castling);
                self.push_step_move(&mut ms, &square, 0, 1, lose_all_castling);
                self.push_step_move(&mut ms, &square, 1, -1, lose_all_castling);
                self.push_step_move(&mut ms, &square, 1, 0, lose_all_castling);
                self.push_step_move(&mut ms, &square, 1, 1, lose_all_castling);
                let castling_kingside: bool = match col {
                    Color::Black => self.castling_rights.black_kingside,
                    Color::White => self.castling_rights.white_kingside,
                };
                let castling_queenside: bool = match col {
                    Color::Black => self.castling_rights.black_queenside,
                    Color::White => self.castling_rights.white_queenside,
                };
                if castling_kingside {
                    if self.board[(row as usize) * 8 + 5].is_none() && self.board[(row as usize) * 8
                        + 6].is_none() {
                        ms.push(
                            Move {
                                from: square,
                                to: (row, 6),
                                castle: Some(
                                    match col {
                                        Color::Black => crate::pieces::Castling::BlackKingside,
                                        Color::White => crate::pieces::Castling::WhiteKingside,
                                    },
                                ),
                                losing_castle_rights: lose_all_castling,
                                halfmove_clock: if self.halfmove_clock < 255 {
                                    self.halfmove_clock + 1
                                } else {
                                    255
                                },
                                ..Move::default()
                            },
                        );
                    }
                }
                if castling_queenside {
                    if self.board[(row as usize) * 8 + 1].is_none() && self.board[(row as usize) * 8
                        + 2].is_none() && self.board[(row as usize) * 8 + 3].is_none() {
                        ms.push(
                            Move {
                                from: square,
                                to: (row, 2),
                                castle: Some(
                                    match col {
                                        Color::Black => crate::pieces::Castling::BlackQueenside,
                                        Color::White => crate::pieces::Castling::WhiteQueenside,
                                    },
                                ),
                                losing_castle_rights: lose_all_castling,
                                ..Move::default()
                            },
                        );
                    }
                }
            },
            PieceType::Rook => {
                let delta = self.corner_delta_now(col, &square);
                self.push_ray_moves(&mut ms, &square, 1, 0, delta);
                self.push_ray_moves(&mut ms, &square, 0, 1, delta);
                self.push_ray_moves(&mut ms, &square, -1, 0, delta);
                self.push_ray_moves(&mut ms, &square, 0, -1, delta);
            },
            PieceType::Bishop => {
                let none_delta = CastlingRights {
                    white_queenside: false,
                    white_kingside: false,
                    black_queenside: false,
                    black_kingside: false,
                };
                self.push_ray_moves(&mut ms, &square, 1, 1, none_delta);
                self.push_ray_moves(&mut ms, &square, -1, 1, none_delta);
                self.push_ray_moves(&mut ms, &square, 1, -1, none_delta);
                self.push_ray_moves(&mut ms, &square, -1, -1, none_delta);
            },
            PieceType::Queen => {
                let delta = self.corner_delta_now(col, &square);
                self.push_ray_moves(&mut ms, &square, 1, 0, delta);
                self.push_ray_moves(&mut ms, &square, 0, 1, delta);
                self.push_ray_moves(&mut ms, &square, -1, 0, delta);
                self.push_ray_moves(&mut ms, &square, 0, -1, delta);
                let none_delta = CastlingRights {
                    white_queenside: false,
                    white_kingside: false,
                    black_queenside: false,
                    black_kingside: false,
                };
                self.push_ray_moves(&mut ms, &square, 1, 1, none_delta);
                self.push_ray_moves(&mut ms, &square, -1, 1, none_delta);
                self.push_ray_moves(&mut ms, &square, 1, -1, none_delta);
                self.push_ray_moves(&mut ms, &square, -1, -1, none_delta);
            },
        }
        ms
    }

    /// Applies a fully resolved move: advance the full-move number after the
    /// second side's ply, stamp the move's half-move clock and en-passant
    /// target, clear an en-passant-captured pawn, relocate a castling rook,
    /// subtract the revoked rights, rewrite a promoting pawn's kind at its
    /// source, relocate the mover, append the move to the history and flip
    /// the side to move. Nothing here re-validates legality.
    #[verifier::rlimit(80)]
    fn make_move(&mut self, mov: &Move)
        requires
            old(self).board@.len() == 64,
            valid_sq(mov.from),
            valid_sq(mov.to),
            (mov.en_passant_capture matches Some(c) ==> valid_sq(c)),
        ensures
            final(self)@ == old(self)@.apply(*mov),
            final(self).legal_moves == old(self).legal_moves,
    {
        if self.turn == Color::Black {
            if self.fullmove_number < 0xffff {
                self.fullmove_number = self.fullmove_number + 1;
            }
        }
        self.halfmove_clock = mov.halfmove_clock;
        self.en_passant_target_square = mov.en_passant_target_square;
        if let Some(c) = mov.en_passant_capture {
            self.board.set((c.0 as usize) * 8 + (c.1 as usize), None);
        }
        if let Some(c) = mov.castle {
            match c {
                crate::pieces::Castling::BlackKingside => self.move_piece(&(0i8, 7i8), &(0i8, 5i8)),
                crate::pieces::Castling::BlackQueenside => self.move_piece(&(0i8, 0i8), &(0i8, 3i8)),
                crate::pieces::Castling::WhiteKingside => self.move_piece(&(7i8, 7i8), &(7i8, 5i8)),
                crate::pieces::Castling::WhiteQueenside => self.move_piece(&(7i8, 0i8), &(7i8, 3i8)),
            }
        }
        self.castling_rights = CastlingRights {
            white_queenside: self.castling_rights.white_queenside
                && !mov.losing_castle_rights.white_queenside,
            white_kingside: self.castling_rights.white_kingside
                && !mov.losing_castle_rights.white_kingside,
            black_queenside: self.castling_rights.black_queenside
                && !mov.losing_castle_rights.black_queenside,
            black_kingside: self.castling_rights.black_kingside
                && !mov.losing_castle_rights.black_kingside,
        };
        if let Some(pk) = mov.promotion {
            let fi: usize = (mov.from.0 as usize) * 8 + (mov.from.1 as usize);
            match self.board[fi] {
                Some(q) => self.board.set(fi, Some(Piece { piece_type: pk, color: q.color })),
                None => (),
            }
        }
        self.move_piece(&mov.from, &mov.to);
        self.moves.push(*mov);
        self.turn = self.turn.invert();
        proof {
            assert(self@.board =~= apply_board(old(self)@.board, *mov));
            assert(self@ =~= old(self)@.apply(*mov));
        }
    }

    /// Restores the board after taking ply `mov` back, `self.turn` being
    /// the side that made it: the mover returns to its source, a captured
    /// piece or en-passant-captured pawn is rebuilt, a castling rook returns
    /// home and a promoted pawn's kind is reset.
    #[verifier::rlimit(60)]
    fn restore_board(&mut self, mov: &Move)
        requires
            old(self).board@.len() == 64,
            move_shape_ok(*mov),
        ensures
            final(self).board@ == GameView::undo_board(old(self).board@, *mov, old(self).turn),
            final(self).turn == old(self).turn,
            final(self).castling_rights == old(self).castling_rights,
            final(self).en_passant_target_square == old(self).en_passant_target_square,
            final(self).halfmove_clock == old(self).halfmove_clock,
            final(self).fullmove_number == old(self).fullmove_number,
            final(self).moves == old(self).moves,
            final(self).legal_moves == old(self).legal_moves,
    {
        let ghost b0 = self.board@;
        let ghost mover = self.turn;
        self.move_piece(&mov.to, &mov.from);
        let ghost b1 = self.board@;
        proof {
            assert(b1 == move_sq(b0, mov.to, mov.from));
        }
        if let Some(c) = mov.en_passant_capture {
            self.board.set(
                (c.0 as usize) * 8 + (c.1 as usize),
                Some(Piece { piece_type: PieceType::Pawn, color: self.turn.invert() }),
            );
        } else if let Some(k) = mov.capture {
            self.board.set(
                (mov.to.0 as usize) * 8 + (mov.to.1 as usize),
                Some(Piece { piece_type: k, color: self.turn.invert() }),
            );
        }
        let ghost b2 = self.board@;
        if let Some(c) = mov.castle {
            match c {
                crate::pieces::Castling::BlackKingside => self.move_piece(&(0i8, 5i8), &(0i8, 7i8)),
                crate::pieces::Castling::BlackQueenside => self.move_piece(&(0i8, 3i8), &(0i8, 0i8)),
                crate::pieces::Castling::WhiteKingside => self.move_piece(&(7i8, 5i8), &(7i8, 7i8)),
                crate::pieces::Castling::WhiteQueenside => self.move_piece(&(7i8, 3i8), &(7i8, 0i8)),
            }
        }
        let ghost b3 = self.board@;
        if mov.promotion.is_some() {
            let fi: usize = (mov.from.0 as usize) * 8 + (mov.from.1 as usize);
            match self.board[fi] {
                Some(q) => self.board.set(
                    fi,
                    Some(Piece { piece_type: PieceType::Pawn, color: q.color }),
                ),
                None => (),
            }
        }
        proof {
            assert(final(self).board@ == GameView::undo_board(b0, *mov, mover));
        }
    }

    /// Pops the last recorded ply and reverses it exactly, restoring board,
    /// side to move, rights, en-passant target and both clocks bit for bit.
    /// Fails without touching anything when the history is empty.
    #[verifier::rlimit(60)]
    fn unmake_move(&mut self) -> (r: bool)
        requires
            old(self).board@.len() == 64,
            old(self)@.history_shaped(),
        ensures
            old(self)@.hist.len() == 0 ==> r == false && final(self)@ == old(self)@
                && final(self).legal_moves == old(self).legal_moves,
            old(self)@.hist.len() > 0 ==> r == true && final(self)@ == old(self)@.undo()
                && final(self).legal_moves == old(self).legal_moves,
    {
        let last_mov = self.moves.pop();
        if last_mov.is_none() {
            proof {
                assert(self@ =~= old(self)@);
            }
            return false;
        }
        let mov = last_mov.unwrap();
        proof {
            assert(mov == old(self)@.hist.last());
            assert(self.moves@ =~= old(self)@.hist.drop_last());
            assert(move_shape_ok(mov));
        }
        self.turn = self.turn.invert();
        self.restore_board(&mov);
        if self.turn == Color::Black {
            if self.fullmove_number > 0 {
                self.fullmove_number = self.fullmove_number - 1;
            }
        }
        if self.moves.len() == 0 {
            self.halfmove_clock = 0;
            self.en_passant_target_square = None;
        } else {
            let prev: Move = self.moves[self.moves.len() - 1];
            self.halfmove_clock = prev.halfmove_clock;
            self.en_passant_target_square = prev.en_passant_target_square;
        }
        self.castling_rights = CastlingRights {
            white_queenside: self.castling_rights.white_queenside
                || mov.losing_castle_rights.white_queenside,
            white_kingside: self.castling_rights.white_kingside
                || mov.losing_castle_rights.white_kingside,
            black_queenside: self.castling_rights.black_queenside
                || mov.losing_castle_rights.black_queenside,
            black_kingside: self.castling_rights.black_kingside
                || mov.losing_castle_rights.black_kingside,
        };
        proof {
            assert(self@ =~= old(self)@.undo());
        }
        true
    }

    /// A fresh copy of the 64 board cells.
    fn clone_board(&self) -> (b: Vec<Option<Piece>>)
        requires
            self.board@.len() == 64,
        ensures
            b@ == self.board@,
    {
        let mut b: Vec<Option<Piece>> = Vec::new();
        let mut i: usize = 0;
        while i < 64
            invariant
                self.board@.len() == 64,
                i <= 64,
                b@ == self.board@.take(i as int),
            decreases 64 - i,
        {
            b.push(self.board[i]);
            i = i + 1;
            proof {
                assert(b@ =~= self.board@.take(i as int));
            }
        }
        proof {
            assert(self.board@.take(64) =~= self.board@);
        }
        b
    }

    /// Whether any pseudo-legal move of the side to move captures the enemy
    /// king right now: the engine's entire notion of check, regenerated
    /// square by square.
    fn any_king_captures(&self) -> (r: bool)
        requires
            self.board@.len() == 64,
        ensures
            r == crate::rules::in_check_reply(self@.pos()),
    {
        let ghost p = self@.pos();
        let mut row: i8 = 0;
        while row < 8
            invariant
                self.board@.len() == 64,
                p == self@.pos(),
                0 <= row <= 8,
                forall|s: Square, m: Move|
                    0 <= s.0 < row && #[trigger] crate::rules::pseudo_move_ok(p, s, m)
                        ==> m.capture != Some(PieceType::King),
            decreases 8 - row,
        {
            let mut col: i8 = 0;
            while col < 8
                invariant
                    self.board@.len() == 64,
                    p == self@.pos(),
                    0 <= row < 8,
                    0 <= col <= 8,
                    forall|s: Square, m: Move|
                        (0 <= s.0 < row || (s.0 == row && 0 <= s.1 < col))
                            && #[trigger] crate::rules::pseudo_move_ok(p, s, m)
                            ==> m.capture != Some(PieceType::King),
                decreases 8 - col,
            {
                let ms = self.compute_legal_moves_on_square((row, col));
                let mut i: usize = 0;
                while i < ms.len()
                    invariant
                        forall|j: int|
                            0 <= j < i ==> (#[trigger] ms@[j]).capture != Some(PieceType::King),
                        i <= ms@.len(),
                        self.board@.len() == 64,
                        p == self@.pos(),
                        0 <= row < 8,
                        0 <= col < 8,
                        forall|m: Move| #![trigger ms@.contains(m)]
                            ms@.contains(m) <==> crate::rules::pseudo_move_ok(p, (row, col), m),
                    decreases ms@.len() - i,
                {
                    let cap = ms[i].capture;
                    match cap {
                        Some(PieceType::King) => {
                            proof {
                                assert(ms@.contains(ms@[i as int]));
                                assert(crate::rules::pseudo_move_ok(p, (row, col), ms@[i as int]));
                            }
                            return true;
                        },
                        _ => (),
                    }
                    i = i + 1;
                }
                proof {
                    assert forall|m: Move|
                        crate::rules::pseudo_move_ok(p, (row, col), m) implies m.capture != Some(
                        PieceType::King,
                    ) by {
                        assert(ms@.contains(m));
                        let j = choose|j: int| 0 <= j < ms@.len() && ms@[j] == m;
                        assert(ms@[j].capture != Some(PieceType::King));
                    }
                }
                col = col + 1;
            }
            row = row + 1;
        }
        proof {
            assert forall|s: Square, m: Move|
                #[trigger] crate::rules::pseudo_move_ok(p, s, m) implies m.capture != Some(
                PieceType::King,
            ) by {
                assert(valid_sq(s));
            }
        }
        false
    }

    /// Decides whether a pseudo-legal candidate is fully legal: applies it
    /// to a throwaway copy of the position and asks whether the opponent
    /// then has any immediate king-capturing reply.
    fn validate_move(&self, mov: &Move) -> (r: bool)
        requires
            self.board@.len() == 64,
            valid_sq(mov.from),
            valid_sq(mov.to),
            (mov.en_passant_capture matches Some(c) ==> valid_sq(c)),
        ensures
            r == !crate::rules::in_check_reply(apply_pos(self@.pos(), *mov)),
    {
        let mut probe = Game {
            board: self.clone_board(),
            turn: self.turn,
            castling_rights: self.castling_rights,
            en_passant_target_square: self.en_passant_target_square,
            halfmove_clock: self.halfmove_clock,
            fullmove_number: self.fullmove_number,
            moves: Vec::new(),
            legal_moves: Vec::new(),
        };
        probe.make_move(mov);
        proof {
            assert(probe@.pos() =~= apply_pos(self@.pos(), *mov));
        }
        let caps = probe.any_king_captures();
        !caps
    }

    /// Recomputes the cached table from scratch: for every origin square,
    /// the pseudo-legal moves that survive the legality filter. Touches
    /// nothing but the table.
    fn compute_legal_moves(&mut self)
        requires
            old(self).board@.len() == 64,
        ensures
            final(self).board == old(self).board,
            final(self).turn == old(self).turn,
            final(self).castling_rights == old(self).castling_rights,
            final(self).en_passant_target_square == old(self).en_passant_target_square,
            final(self).halfmove_clock == old(self).halfmove_clock,
            final(self).fullmove_number == old(self).fullmove_number,
            final(self).moves == old(self).moves,
            final(self).legal_moves@.len() == 64,
            forall|s: Square, m: Move|
                valid_sq(s) ==> (#[trigger] final(self)@.table[sq_index(s)].contains(m)
                    <==> crate::rules::move_legal(old(self)@.pos(), s, m)),
    {
        let ghost p = self@.pos();
        let mut table: Vec<Vec<Move>> = Vec::new();
        let mut row: i8 = 0;
        while row < 8
            invariant
                self.board@.len() == 64,
                p == self@.pos(),
                0 <= row <= 8,
                table@.len() == 8 * row,
                forall|s: Square, m: Move|
                    valid_sq(s) && sq_index(s) < 8 * row ==> (#[trigger] table@[sq_index(s)]@.contains(
                        m,
                    ) <==> crate::rules::move_legal(p, s, m)),
            decreases 8 - row,
        {
            let mut col: i8 = 0;
            while col < 8
                invariant
                    self.board@.len() == 64,
                    p == self@.pos(),
                    0 <= row < 8,
                    0 <= col <= 8,
                    table@.len() == 8 * row + col,
                    forall|s: Square, m: Move|
                        valid_sq(s) && sq_index(s) < 8 * row + col ==> (#[trigger] table@[sq_index(
                            s,
                        )]@.contains(m) <==> crate::rules::move_legal(p, s, m)),
                decreases 8 - col,
            {
                let ghost sq = (row, col);
                let pseudo = self.compute_legal_moves_on_square((row, col));
                let mut kept: Vec<Move> = Vec::new();
                let mut i: usize = 0;
                while i < pseudo.len()
                    invariant
                        self.board@.len() == 64,
                        p == self@.pos(),
                        sq == (row, col),
                        i <= pseudo@.len(),
                        forall|m: Move| #![trigger pseudo@.contains(m)]
                            pseudo@.contains(m) <==> crate::rules::pseudo_move_ok(p, sq, m),
                        forall|m: Move| #![trigger kept@.contains(m)]
                            kept@.contains(m) <==> (pseudo@.take(i as int).contains(m)
                                && crate::rules::move_legal(p, sq, m)),
                    decreases pseudo@.len() - i,
                {
                    let mov: Move = pseudo[i];
                    proof {
                        assert(pseudo@.contains(mov));
                        crate::rules::lemma_pseudo_shape(p, sq, mov);
                    }
                    let keep = self.validate_move(&mov);
                    if keep {
                        kept.push(mov);
                    }
                    i = i + 1;
                    proof {
                        assert(pseudo@.take(i as int) =~= pseudo@.take(i - 1).push(
                            pseudo@[i - 1],
                        ));
                    }
                }
                proof {
                    assert(pseudo@.take(pseudo@.len() as int) =~= pseudo@);
                }
                table.push(kept);
                proof {
                    assert forall|s: Square, m: Move|
                        valid_sq(s) && sq_index(s) < 8 * row + col + 1 implies (
                    #[trigger] table@[sq_index(s)]@.contains(m)
                        <==> crate::rules::move_legal(p, s, m)) by {
                        if sq_index(s) == 8 * row + col {
                            assert(s.0 == row && s.1 == col);
                            assert(table@[sq_index(s)]@ == kept@);
                        }
                    }
                }
                col = col + 1;
            }
            row = row + 1;
        }
        self.legal_moves = table;
        proof {
            assert forall|s: Square, m: Move|
                valid_sq(s) implies (#[trigger] self@.table[sq_index(s)].contains(m)
                <==> crate::rules::move_legal(p, s, m)) by {
                assert(sq_index(s) < 64);
                assert(self@.table[sq_index(s)] == table@[sq_index(s)]@);
            }
        }
    }

    /// The cached, already validated legal-move list for one origin square:
    /// empty for an empty square, an opponent's piece, or a side with no
    /// legal replies. Read-only; never triggers recomputation.
    pub fn legal_moves_on_square(&self, square: Square) -> (ms: &Vec<Move>)
        requires
            self.wf(),
            valid_sq(square),
        ensures
            ms@ == self@.table[sq_index(square)],
    {
        &self.legal_moves[(square.0 as usize) * 8 + (square.1 as usize)]
    }
}

/// The first entry of `list` from index `i` on whose destination is `to`.
pub open spec fn first_match_from(list: Seq<Move>, to: Square, i: int) -> Option<Move>
    decreases list.len() - i,
{
    if i < 0 || i >= list.len() {
        None
    } else if list[i].to == to {
        Some(list[i])
    } else {
        first_match_from(list, to, i + 1)
    }
}

/// The first entry of `list` whose destination is `to`: the move that a
/// request for that destination commits.
pub open spec fn first_match(list: Seq<Move>, to: Square) -> Option<Move> {
    first_match_from(list, to, 0)
}

/// A found first match is an entry of the list, and its destination is the
/// requested one.
pub proof fn lemma_first_match_contains(list: Seq<Move>, to: Square)
    requires
        first_match(list, to) is Some,
    ensures
        list.contains(first_match(list, to)->Some_0),
        first_match(list, to)->Some_0.to == to,
{
    lemma_first_match_from_contains(list, to, 0);
}

/// The same, for the search that starts at index `i`.
proof fn lemma_first_match_from_contains(list: Seq<Move>, to: Square, i: int)
    requires
        first_match_from(list, to, i) is Some,
    ensures
        list.contains(first_match_from(list, to, i)->Some_0),
        first_match_from(list, to, i)->Some_0.to == to,
    decreases list.len() - i,
{
    if i < 0 || i >= list.len() {
    } else if list[i].to == to {
        assert(list.contains(list[i]));
    } else {
        lemma_first_match_from_contains(list, to, i + 1);
    }
}

/// Undoing a just-applied move restores the board exactly, provided the
/// move's record agrees with what stood on the board.
#[verifier::rlimit(100)]
#[verifier::spinoff_prover]
proof fn lemma_board_round_trip(p: Position, m: Move)
    requires
        p.board.len() == 64,
        crate::rules::move_ok(p, m),
    ensures
        GameView::undo_board(apply_board(p.board, m), m, p.turn) == p.board,
{
    let b = p.board;
    let fi = sq_index(m.from);
    let ti = sq_index(m.to);
    assert(fi != ti) by {
        assert(valid_sq(m.from) && valid_sq(m.to) && m.from != m.to);
    }
    let applied = apply_board(b, m);
    let back = GameView::undo_board(applied, m, p.turn);
    match m.castle {
        Some(ca) => {
            assert(m.from != rook_from(ca) && m.from != rook_to(ca) && m.to != rook_from(ca)
                && m.to != rook_to(ca) && rook_from(ca) != rook_to(ca));
            assert(m.en_passant_capture is None && m.promotion is None && m.capture is None);
        },
        None => {},
    }
    assert forall|x: int| 0 <= x < 64 implies back[x] == b[x] by {
        if x == fi {
        } else if x == ti {
        } else {
            match m.en_passant_capture {
                Some(c) => {
                    if x == sq_index(c) {
                    }
                },
                None => {},
            }
            match m.castle {
                Some(ca) => {
                    if x == sq_index(rook_from(ca)) {
                    } else if x == sq_index(rook_to(ca)) {
                    }
                },
                None => {},
            }
        }
    }
    assert(back =~= b);
}

/// Applying a move and then undoing it restores the whole game exactly,
/// with the one reservation that a full-move number already at its ceiling
/// comes back one lower.
pub proof fn lemma_apply_undo(g: GameView, m: Move)
    requires
        g.board.len() == 64,
        g.history_synced(),
        crate::rules::move_ok(g.pos(), m),
    ensures
        g.apply(m).undo().board == g.board,
        g.apply(m).undo().turn == g.turn,
        g.apply(m).undo().rights == g.rights,
        g.apply(m).undo().ep == g.ep,
        g.apply(m).undo().clock == g.clock,
        g.apply(m).undo().hist == g.hist,
        g.apply(m).undo().table == g.table,
        g.apply(m).undo().fullmove == (if g.turn == Color::Black && g.fullmove == 0xffff {
            0xfffeu16
        } else {
            g.fullmove
        }),
{
    let a = g.apply(m);
    assert(a.hist.last() == m);
    assert(a.hist.drop_last() =~= g.hist);
    lemma_board_round_trip(g.pos(), m);
    assert(a.undo().rights == g.rights) by {
        assert(m.losing_castle_rights.subset_of(g.rights));
    }
}

/// Applying a pseudo-legal move preserves the whole undo-chain invariant.
pub proof fn lemma_chain_apply(g: GameView, s: Square, m: Move)
    requires
        g.trimmed().chain_inv(),
        crate::rules::pseudo_move_ok(g.pos(), s, m),
    ensures
        g.apply(m).trimmed().chain_inv(),
{
    let y = g.trimmed();
    assert(y.pos() =~= g.pos());
    assert(state_inv(g.pos()) && y.history_synced());
    crate::rules::lemma_pseudo_move_ok(g.pos(), s, m);
    crate::rules::lemma_state_inv_apply(g.pos(), s, m);
    let z = g.apply(m).trimmed();
    assert(z.pos() =~= apply_pos(g.pos(), m));
    assert(state_inv(z.pos()));
    assert(z.hist == g.hist.push(m));
    assert(z.history_synced());
    lemma_apply_undo(y, m);
    assert(z.undo().trimmed() =~= y.apply(m).undo().trimmed());
    assert(y.apply(m).undo().trimmed() =~= y);
    assert(z.undo().trimmed().chain_inv());
    assert(z.chain_inv());
}

/// Taking the last ply back preserves the whole undo-chain invariant.
pub proof fn lemma_chain_undo(g: GameView)
    requires
        g.trimmed().chain_inv(),
        g.hist.len() > 0,
    ensures
        g.undo().trimmed().chain_inv(),
{
    let y = g.trimmed();
    assert(y.undo().trimmed().chain_inv());
    assert(g.undo().trimmed() =~= y.undo().trimmed());
}

impl Game {
    /// Resolves a move request against the cached legal-move table. The
    /// request fails, leaving everything untouched, when the source square
    /// is off the board, empty, holds the opponent's piece, or has no legal
    /// move to `to`; otherwise the first cached move to `to` is committed
    /// and the table is recomputed for the new position.
    pub fn request_move(&mut self, from: &Square, to: &Square) -> (r: bool)
        requires
            old(self).inv(),
        ensures
            final(self).inv(),
            r == (valid_sq(*from) && first_match(old(self)@.table[sq_index(*from)], *to) is Some),
            !r ==> final(self)@ == old(self)@,
            r ==> {
                let m = first_match(old(self)@.table[sq_index(*from)], *to)->Some_0;
                &&& crate::rules::move_legal(old(self)@.pos(), *from, m)
                &&& final(self)@.pos() == apply_pos(old(self)@.pos(), m)
                &&& final(self)@.hist == old(self)@.hist.push(m)
                &&& final(self)@.fullmove == (if old(self)@.turn == Color::Black {
                    bump_fullmove(old(self)@.fullmove)
                } else {
                    old(self)@.fullmove
                })
            },
    {
        if !(0 <= from.0 && from.0 < 8 && 0 <= from.1 && from.1 < 8) {
            return false;
        }
        let ghost list = self@.table[sq_index(*from)];
        let fi: usize = (from.0 as usize) * 8 + (from.1 as usize);
        let n: usize = self.legal_moves[fi].len();
        let mut i: usize = 0;
        while i < n
            invariant
                *self == *old(self),
                self.inv(),
                valid_sq(*from),
                fi == sq_index(*from),
                fi < 64,
                list == self@.table[fi as int],
                n == list.len(),
                i <= n,
                first_match(list, *to) == first_match_from(list, *to, i as int),
            decreases n - i,
        {
            let mov: Move = self.legal_moves[fi][i];
            if mov.to.0 == to.0 && mov.to.1 == to.1 {
                proof {
                    assert(mov.to == *to);
                    assert(first_match(list, *to) == Some(mov));
                    assert(list.contains(mov)) by {
                        assert(list[i as int] == mov);
                    }
                    assert(crate::rules::move_legal(self@.pos(), *from, mov));
                    crate::rules::lemma_pseudo_shape(self@.pos(), *from, mov);
                }
                let ghost before = self@;
                self.make_move(&mov);
                proof {
                    lemma_chain_apply(before, *from, mov);
                    assert(self@.trimmed().chain_inv());
                    assert(self@.board.len() == 64) by {
                        assert(self@.pos() =~= apply_pos(before.pos(), mov));
                    }
                }
                let ghost mid = self@;
                self.compute_legal_moves();
                proof {
                    assert(self@.trimmed() =~= mid.trimmed());
                    assert(self@.history_shaped()) by {
                        assert forall|j: int| 0 <= j < self@.hist.len() implies move_shape_ok(
                            #[trigger] self@.hist[j],
                        ) by {
                            if j < before.hist.len() {
                                assert(self@.hist[j] == before.hist[j]);
                            } else {
                                assert(self@.hist[j] == mov);
                            }
                        }
                    }
                    assert(self@.pos() =~= mid.pos());
                    assert(self.synced());
                    assert(self@.pos() =~= apply_pos(before.pos(), mov));
                }
                return true;
            }
            i = i + 1;
        }
        false
    }

    /// Pops and reverses the most recent ply, then recomputes the
    /// fully validated legal-move table for the resulting side to move.
    /// With no history only the table is recomputed; nothing else changes.
    pub fn unmake_move_and_recalculate(&mut self)
        requires
            old(self).inv(),
        ensures
            final(self).inv(),
            old(self)@.hist.len() == 0 ==> final(self)@.pos() == old(self)@.pos()
                && final(self)@.hist == old(self)@.hist
                && final(self)@.fullmove == old(self)@.fullmove,
            old(self)@.hist.len() > 0 ==> final(self)@.pos() == old(self)@.undo().pos()
                && final(self)@.hist == old(self)@.hist.drop_last()
                && final(self)@.fullmove == old(self)@.undo().fullmove,
    {
        let popped = self.unmake_move();
        proof {
            if popped {
                lemma_chain_undo(old(self)@);
                assert(self@.trimmed().chain_inv());
                assert(self@.board.len() == 64) by {
                    assert(state_inv(self@.trimmed().pos()));
                    assert(self@.trimmed().pos() =~= self@.pos());
                }
                assert(self@.history_shaped()) by {
                    assert forall|j: int| 0 <= j < self@.hist.len() implies move_shape_ok(
                        #[trigger] self@.hist[j],
                    ) by {
                        assert(self@.hist[j] == old(self)@.hist[j]);
                    }
                }
            }
        }
        let ghost mid = self@;
        self.compute_legal_moves();
        proof {
            assert(self@.trimmed() =~= mid.trimmed());
            assert(self@.pos() =~= mid.pos());
            assert(self.synced());
        }
    }
}

impl Default for Game {
    /// A fresh game in the standard starting position, its legal-move table
    /// computed before first use.
    fn default() -> (g: Game)
        ensures
            g.inv(),
            g@.pos() == crate::rules::initial_pos(),
            g@.hist == Seq::<Move>::empty(),
            g@.fullmove == 0u16,
    {
        let mut board: Vec<Option<Piece>> = Vec::new();
        let mut i: usize = 0;
        while i < 64
            invariant
                i <= 64,
                board@.len() == i,
                forall|j: int| 0 <= j < i ==> board@[j] == crate::rules::initial_cell(j),
            decreases 64 - i,
        {
            let row: usize = i / 8;
            let c: usize = i % 8;
            let cell: Option<Piece> = if row == 0 || row == 7 {
                let color = if row == 0 {
                    Color::Black
                } else {
                    Color::White
                };
                let kind = if c == 0 || c == 7 {
                    PieceType::Rook
                } else if c == 1 || c == 6 {
                    PieceType::Knight
                } else if c == 2 || c == 5 {
                    PieceType::Bishop
                } else if c == 3 {
                    PieceType::Queen
                } else {
                    PieceType::King
                };
                Some(Piece { piece_type: kind, color })
            } else if row == 1 {
                Some(Piece { piece_type: PieceType::Pawn, color: Color::Black })
            } else if row == 6 {
                Some(Piece { piece_type: PieceType::Pawn, color: Color::White })
            } else {
                None
            };
            board.push(cell);
            i = i + 1;
        }
        let mut game = Game {
            board,
            turn: Color::White,
            castling_rights: CastlingRights {
                white_queenside: true,
                white_kingside: true,
                black_queenside: true,
                black_kingside: true,
            },
            en_passant_target_square: None,
            halfmove_clock: 0,
            fullmove_number: 0,
            moves: Vec::new(),
            legal_moves: Vec::new(),
        };
        proof {
            assert(game@.pos().board =~= crate::rules::initial_pos().board);
            assert(game@.pos() =~= crate::rules::initial_pos());
            crate::rules::lemma_initial_state_inv();
            assert(game@.trimmed().pos() =~= game@.pos());
            assert(game@.trimmed().chain_inv());
        }
        game.compute_legal_moves();
        proof {
            assert(game@.trimmed().pos() =~= game@.pos());
            assert(game@.trimmed().chain_inv());
            assert(game.synced());
        }
        game
    }
}

} // verus!
