use chess_engine::is_valid_square;
use chess_engine::Color;
use chess_engine::Game;
use chess_engine::Piece;
use chess_engine::PieceType;
use chess_engine::Square;

fn board_snapshot(g: &Game) -> Vec<Option<Piece>> {
    let mut cells = Vec::new();
    for row in 0..8i8 {
        for col in 0..8i8 {
            cells.push(g.piece_at_square(&(row, col)));
        }
    }
    cells
}

fn full_snapshot(
    g: &Game,
) -> (Vec<Option<Piece>>, Color, chess_engine::CastlingRights, Option<Square>, u8, u16, usize) {
    (
        board_snapshot(g),
        g.turn,
        g.castling_rights,
        g.en_passant_target_square,
        g.halfmove_clock,
        g.fullmove_number,
        g.moves.len(),
    )
}

fn total_legal_moves(g: &Game) -> usize {
    let mut n = 0;
    for row in 0..8i8 {
        for col in 0..8i8 {
            n += g.legal_moves_on_square((row, col)).len();
        }
    }
    n
}

fn must_move(g: &mut Game, from: Square, to: Square) {
    assert!(g.request_move(&from, &to), "move {:?} -> {:?} was refused", from, to);
}

#[test]
fn color_inversion_is_an_involution() {
    assert_eq!(Color::White.invert(), Color::Black);
    assert_eq!(Color::Black.invert(), Color::White);
    assert_eq!(Color::White.invert().invert(), Color::White);
}

#[test]
fn square_validity_is_checked_on_both_components() {
    assert_eq!(is_valid_square(&(0, 0)), Some((0, 0)));
    assert_eq!(is_valid_square(&(7, 7)), Some((7, 7)));
    assert_eq!(is_valid_square(&(-1, 3)), None);
    assert_eq!(is_valid_square(&(8, 3)), None);
    assert_eq!(is_valid_square(&(3, -1)), None);
    assert_eq!(is_valid_square(&(3, 8)), None);
}

#[test]
fn initial_position_is_the_standard_arrangement() {
    let g = Game::default();
    assert_eq!(g.turn, Color::White);
    assert_eq!(g.fullmove_number, 0);
    assert_eq!(g.halfmove_clock, 0);
    assert_eq!(g.en_passant_target_square, None);
    assert!(g.castling_rights.white_kingside);
    assert!(g.castling_rights.white_queenside);
    assert!(g.castling_rights.black_kingside);
    assert!(g.castling_rights.black_queenside);
    let rook = |c| Some(Piece { piece_type: PieceType::Rook, color: c });
    let king = |c| Some(Piece { piece_type: PieceType::King, color: c });
    let pawn = |c| Some(Piece { piece_type: PieceType::Pawn, color: c });
    assert_eq!(g.piece_at_square(&(0, 0)), rook(Color::Black));
    assert_eq!(g.piece_at_square(&(0, 4)), king(Color::Black));
    assert_eq!(g.piece_at_square(&(7, 7)), rook(Color::White));
    assert_eq!(g.piece_at_square(&(7, 4)), king(Color::White));
    for col in 0..8i8 {
        assert_eq!(g.piece_at_square(&(1, col)), pawn(Color::Black));
        assert_eq!(g.piece_at_square(&(6, col)), pawn(Color::White));
        for row in 2..6i8 {
            assert_eq!(g.piece_at_square(&(row, col)), None);
        }
    }
    assert_eq!(g.piece_at_square(&(-1, 0)), None);
    assert_eq!(g.piece_at_square(&(0, 8)), None);
}

#[test]
fn board_string_draws_the_starting_position() {
    let g = Game::default();
    let expected = format!(
        "rnbqkbnrpppppppp{}PPPPPPPPRNBQKBNR",
        " ".repeat(32)
    );
    assert_eq!(g.board_string(), expected);
}

#[test]
fn initial_position_has_exactly_twenty_legal_moves() {
    let g = Game::default();
    assert_eq!(total_legal_moves(&g), 20);
}

#[test]
fn first_reply_also_has_twenty_legal_moves() {
    let mut g = Game::default();
    must_move(&mut g, (6, 4), (4, 4));
    assert_eq!(g.turn, Color::Black);
    assert_eq!(total_legal_moves(&g), 20);
}

#[test]
fn clocks_follow_the_moves() {
    let mut g = Game::default();
    must_move(&mut g, (6, 4), (4, 4)); // pawn advance resets the clock
    assert_eq!(g.halfmove_clock, 0);
    assert_eq!(g.fullmove_number, 0);
    must_move(&mut g, (1, 4), (3, 4)); // second side's ply advances the move number
    assert_eq!(g.fullmove_number, 1);
    must_move(&mut g, (7, 6), (5, 5)); // a quiet knight move ticks the clock
    assert_eq!(g.halfmove_clock, 1);
}

#[test]
fn request_move_from_foreign_square_fails_and_changes_nothing() {
    let mut g = Game::default();
    let before = full_snapshot(&g);
    assert!(!g.request_move(&(1, 0), &(2, 0))); // opponent's pawn
    assert!(!g.request_move(&(4, 4), &(3, 4))); // empty square
    assert!(!g.request_move(&(-1, 0), &(0, 0))); // off the board
    assert!(!g.request_move(&(6, 0), &(3, 0))); // own pawn, illegal target
    assert_eq!(full_snapshot(&g), before);
}

#[test]
fn apply_then_undo_restores_a_plain_move_exactly() {
    let mut g = Game::default();
    let before = full_snapshot(&g);
    must_move(&mut g, (6, 4), (4, 4));
    assert_ne!(full_snapshot(&g), before);
    g.unmake_move_and_recalculate();
    assert_eq!(full_snapshot(&g), before);
    assert_eq!(total_legal_moves(&g), 20);
}

#[test]
fn apply_then_undo_restores_a_capture_exactly() {
    let mut g = Game::default();
    must_move(&mut g, (6, 4), (4, 4));
    must_move(&mut g, (1, 3), (3, 3));
    let before = full_snapshot(&g);
    must_move(&mut g, (4, 4), (3, 3)); // pawn takes pawn
    assert_eq!(
        g.piece_at_square(&(3, 3)),
        Some(Piece { piece_type: PieceType::Pawn, color: Color::White })
    );
    g.unmake_move_and_recalculate();
    assert_eq!(full_snapshot(&g), before);
}

#[test]
fn undo_with_no_history_changes_nothing() {
    let mut g = Game::default();
    let before = full_snapshot(&g);
    g.unmake_move_and_recalculate();
    assert_eq!(full_snapshot(&g), before);
}
