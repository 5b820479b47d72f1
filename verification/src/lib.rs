//! A verified chess rules engine: board representation, pseudo-legal move
//! generation, legality filtering by simulated check detection, and a
//! reversible make/unmake protocol with full undo support.
pub mod game;
pub mod laws;
pub mod moves;
pub mod pieces;
pub mod rules;

pub use game::Game;
pub use moves::is_valid_square;
pub use moves::Move;
pub use moves::Square;
pub use pieces::Castling;
pub use pieces::CastlingRights;
pub use pieces::Color;
pub use pieces::Piece;
pub use pieces::PieceType;
