//! Game logic for a tavern card game: players gamble, hurt each other with
//! action cards, interrupt one another and order drinks until a single
//! player is left standing.

pub mod consistency;
pub mod conservation;
pub mod deck;
pub mod drink;
pub mod player;
pub mod error;
pub mod gambling_manager;
pub mod game;
pub mod game_logic;
pub mod game_manager;
pub mod interrupt_manager;
pub mod player_card;
pub mod player_manager;
pub mod player_view;
pub mod requests;
pub mod text;
pub mod uuid;

pub use crate::error::Error;
pub use crate::uuid::{GameUUID, PlayerUUID};
