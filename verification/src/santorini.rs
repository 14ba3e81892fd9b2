//! The Santorini game engine: board geometry, the bit-packed board, and the
//! phase-typed game state machine.

pub mod board;
pub mod game;
pub mod point;

pub use board::Board;
pub use board::CoordLevel;
pub use game::new_game;
pub use game::ActionResult;
pub use game::Build;
pub use game::BuildAction;
pub use game::MoveAction;
pub use game::Game;
pub use game::GameState;
pub use game::Move;
pub use game::NormalState;
pub use game::Pawn;
pub use game::PlaceAction;
pub use game::PlaceOne;
pub use game::PlaceTwo;
pub use game::Player;
pub use game::Victory;
pub use point::Coord;
pub use point::Point;
pub use point::BOARD_HEIGHT;
pub use point::BOARD_WIDTH;
