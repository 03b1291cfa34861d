//! Two-peer Reversi: the board engine, the wire codec and the turn-authority
//! controller that keeps both peers' view of the game consistent.
use vstd::prelude::*;

pub mod game_controller;
pub mod main_menu_view;
pub mod messages;
pub mod othello_board;

pub use game_controller::{GameController, GameResult, GameState};
pub use main_menu_view::MainMenuView;
pub use messages::{Message, ProtocolError, BUFFER_SIZE, MAX_COORDINATE};
pub use othello_board::{OthelloBoard, PlacementError};

verus! {

/// A square of the board as `(rank, file)`.
pub type Position = (usize, usize);

} // verus!
