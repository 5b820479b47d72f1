use chess_engine::Castling;
use chess_engine::Color;
use chess_engine::Game;
use chess_engine::Piece;
use chess_engine::PieceType;
use chess_engine::Square;

fn board_snapshot(g: &Game) -> Vec<Option<Piece>> {
    let mut cells = Vec::new();
    for row in 0..8i8 {
        for col in 0..8i8 {
            cells.push(g.piece_at_square(&(row, col)));
        }
    }
    cells
}

fn full_snapshot(
    g: &Game,
) -> (Vec<Option<Piece>>, Color, chess_engine::CastlingRights, Option<Square>, u8, u16, usize) {
    (
        board_snapshot(g),
        g.turn,
        g.castling_rights,
        g.en_passant_target_square,
        g.halfmove_clock,
        g.fullmove_number,
        g.moves.len(),
    )
}

fn must_move(g: &mut Game, from: Square, to: Square) {
    assert!(g.request_move(&from, &to), "move {:?} -> {:?} was refused", from, to);
}

/// Italian-opening skeleton that frees the first mover's kingside.
fn open_white_kingside(g: &mut Game) {
    must_move(g, (6, 4), (4, 4)); // pawn to the centre
    must_move(g, (1, 4), (3, 4));
    must_move(g, (7, 6), (5, 5)); // knight out
    must_move(g, (0, 1), (2, 2));
    must_move(g, (7, 5), (4, 2)); // bishop out
    must_move(g, (0, 5), (3, 2));
}

fn kingside_castle_offered(g: &Game) -> bool {
    g.legal_moves_on_square((7, 4)).iter().any(|m| {
        m.to == (7, 6) && m.castle == Some(Castling::WhiteKingside)
    })
}

#[test]
fn castling_is_offered_when_right_held_and_path_clear() {
    let mut g = Game::default();
    assert!(!kingside_castle_offered(&g)); // path still blocked
    open_white_kingside(&mut g);
    assert!(kingside_castle_offered(&g));
}

#[test]
fn castling_moves_king_and_rook_together_and_undoes_exactly() {
    let mut g = Game::default();
    open_white_kingside(&mut g);
    let before = full_snapshot(&g);
    must_move(&mut g, (7, 4), (7, 6));
    assert_eq!(
        g.piece_at_square(&(7, 6)),
        Some(Piece { piece_type: PieceType::King, color: Color::White })
    );
    assert_eq!(
        g.piece_at_square(&(7, 5)),
        Some(Piece { piece_type: PieceType::Rook, color: Color::White })
    );
    assert_eq!(g.piece_at_square(&(7, 7)), None);
    assert_eq!(g.piece_at_square(&(7, 4)), None);
    assert!(!g.castling_rights.white_kingside);
    assert!(!g.castling_rights.white_queenside);
    g.unmake_move_and_recalculate();
    assert_eq!(full_snapshot(&g), before);
    assert!(g.castling_rights.white_kingside);
}

#[test]
fn moving_the_rook_clears_the_wing_for_good() {
    let mut g = Game::default();
    open_white_kingside(&mut g);
    assert!(kingside_castle_offered(&g));
    must_move(&mut g, (7, 7), (7, 6)); // rook steps out...
    must_move(&mut g, (1, 7), (2, 7));
    must_move(&mut g, (7, 6), (7, 7)); // ...and returns home
    must_move(&mut g, (2, 7), (3, 7));
    assert!(!g.castling_rights.white_kingside);
    assert!(!kingside_castle_offered(&g));
    // The revocation survives undoing and redoing an unrelated move.
    g.unmake_move_and_recalculate();
    must_move(&mut g, (2, 7), (3, 7));
    assert!(!g.castling_rights.white_kingside);
    assert!(!kingside_castle_offered(&g));
}

#[test]
fn moving_the_king_clears_both_wings() {
    let mut g = Game::default();
    must_move(&mut g, (6, 4), (4, 4));
    must_move(&mut g, (1, 4), (3, 4));
    must_move(&mut g, (7, 4), (6, 4)); // king up one step
    assert!(!g.castling_rights.white_kingside);
    assert!(!g.castling_rights.white_queenside);
    assert!(g.castling_rights.black_kingside);
    assert!(g.castling_rights.black_queenside);
}

fn en_passant_capture_offered(g: &Game) -> bool {
    g.legal_moves_on_square((3, 4)).iter().any(|m| {
        m.to == (2, 3) && m.en_passant_capture == Some((3, 3))
    })
}

#[test]
fn en_passant_is_offered_only_on_the_immediate_reply() {
    let mut g = Game::default();
    must_move(&mut g, (6, 4), (4, 4));
    must_move(&mut g, (1, 0), (2, 0));
    must_move(&mut g, (4, 4), (3, 4));
    must_move(&mut g, (1, 3), (3, 3)); // two-square advance right past the pawn
    assert_eq!(g.en_passant_target_square, Some((2, 3)));
    assert!(en_passant_capture_offered(&g));
    // One ply later the window is shut.
    must_move(&mut g, (6, 7), (5, 7));
    must_move(&mut g, (2, 0), (3, 0));
    assert_eq!(g.en_passant_target_square, None);
    assert!(!en_passant_capture_offered(&g));
}

#[test]
fn en_passant_capture_removes_the_passed_pawn_and_undoes_exactly() {
    let mut g = Game::default();
    must_move(&mut g, (6, 4), (4, 4));
    must_move(&mut g, (1, 0), (2, 0));
    must_move(&mut g, (4, 4), (3, 4));
    must_move(&mut g, (1, 3), (3, 3));
    let before = full_snapshot(&g);
    must_move(&mut g, (3, 4), (2, 3));
    assert_eq!(
        g.piece_at_square(&(2, 3)),
        Some(Piece { piece_type: PieceType::Pawn, color: Color::White })
    );
    assert_eq!(g.piece_at_square(&(3, 3)), None); // the passed pawn is gone
    g.unmake_move_and_recalculate();
    assert_eq!(full_snapshot(&g), before);
}

/// Marches the first mover's edge pawn to the seventh row.
fn march_pawn_to_promotion(g: &mut Game) {
    must_move(g, (6, 0), (4, 0));
    must_move(g, (1, 1), (3, 1));
    must_move(g, (4, 0), (3, 1)); // takes the pawn
    must_move(g, (1, 0), (2, 0));
    must_move(g, (3, 1), (2, 0)); // takes again
    must_move(g, (1, 7), (2, 7));
    must_move(g, (2, 0), (1, 0)); // one row from promotion
    must_move(g, (2, 7), (3, 7));
}

#[test]
fn promotion_offers_queen_and_knight_and_nothing_bare() {
    let mut g = Game::default();
    march_pawn_to_promotion(&mut g);
    let list = g.legal_moves_on_square((1, 0));
    let queens = list
        .iter()
        .filter(|m| m.to == (0, 1) && m.promotion == Some(PieceType::Queen))
        .count();
    let knights = list
        .iter()
        .filter(|m| m.to == (0, 1) && m.promotion == Some(PieceType::Knight))
        .count();
    let bare = list.iter().filter(|m| m.to == (0, 1) && m.promotion.is_none()).count();
    assert_eq!(queens, 1);
    assert_eq!(knights, 1);
    assert_eq!(bare, 0);
    // Straight ahead is blocked by the rook: no move to the corner at all.
    assert!(!list.iter().any(|m| m.to == (0, 0)));
}

#[test]
fn promotion_commits_the_first_variant_and_undoes_exactly() {
    let mut g = Game::default();
    march_pawn_to_promotion(&mut g);
    let before = full_snapshot(&g);
    must_move(&mut g, (1, 0), (0, 1));
    assert_eq!(
        g.piece_at_square(&(0, 1)),
        Some(Piece { piece_type: PieceType::Queen, color: Color::White })
    );
    assert_eq!(g.piece_at_square(&(1, 0)), None);
    g.unmake_move_and_recalculate();
    assert_eq!(full_snapshot(&g), before);
    assert_eq!(
        g.piece_at_square(&(1, 0)),
        Some(Piece { piece_type: PieceType::Pawn, color: Color::White })
    );
}

#[test]
fn queenside_castling_relocates_the_far_rook() {
    let mut g = Game::default();
    must_move(&mut g, (6, 3), (4, 3)); // queen's pawn forward
    must_move(&mut g, (1, 3), (3, 3));
    must_move(&mut g, (7, 2), (5, 4)); // bishop out
    must_move(&mut g, (0, 2), (2, 4));
    must_move(&mut g, (7, 3), (5, 3)); // queen out
    must_move(&mut g, (0, 3), (2, 3));
    must_move(&mut g, (7, 1), (5, 0)); // knight to the rim
    must_move(&mut g, (0, 1), (2, 0));
    let list = g.legal_moves_on_square((7, 4));
    assert!(list.iter().any(|m| m.to == (7, 2) && m.castle == Some(Castling::WhiteQueenside)));
    let before = full_snapshot(&g);
    must_move(&mut g, (7, 4), (7, 2));
    assert_eq!(
        g.piece_at_square(&(7, 2)),
        Some(Piece { piece_type: PieceType::King, color: Color::White })
    );
    assert_eq!(
        g.piece_at_square(&(7, 3)),
        Some(Piece { piece_type: PieceType::Rook, color: Color::White })
    );
    assert_eq!(g.piece_at_square(&(7, 0)), None);
    g.unmake_move_and_recalculate();
    assert_eq!(full_snapshot(&g), before);
}

#[test]
fn foreign_and_empty_squares_have_empty_cached_lists() {
    let g = Game::default();
    assert_eq!(g.legal_moves_on_square((1, 0)).len(), 0); // opponent's pawn
    assert_eq!(g.legal_moves_on_square((4, 4)).len(), 0); // empty square
}

#[test]
fn a_mated_side_has_an_all_empty_table() {
    // The fastest mate: both kingside pawns lunge forward and the enemy
    // queen lands on the open diagonal.
    let mut g = Game::default();
    must_move(&mut g, (6, 5), (4, 5));
    must_move(&mut g, (1, 4), (2, 4));
    must_move(&mut g, (6, 6), (4, 6));
    must_move(&mut g, (0, 3), (4, 7));
    let mut total = 0;
    for row in 0..8i8 {
        for col in 0..8i8 {
            total += g.legal_moves_on_square((row, col)).len();
        }
    }
    assert_eq!(total, 0);
}
