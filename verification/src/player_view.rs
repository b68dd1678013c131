use crate::game_logic::TurnPhase;
use crate::uuid::{GameUUID, PlayerUUID};
use vstd::prelude::*;

verus! {

/// A card of a player's hand as shown to that player.
#[derive(Debug)]
pub struct GameViewPlayerCard {
    pub card_name: String,
    pub is_playable: bool,
    pub is_directed: bool,
}

/// A player's public state as shown to everyone.
#[derive(Clone, Copy, PartialEq, Eq, Structural, Debug)]
pub struct GameViewPlayerData {
    pub player_uuid: PlayerUUID,
    pub draw_pile_size: usize,
    pub discard_pile_size: usize,
    pub drink_me_pile_size: usize,
    pub alcohol_content: i32,
    pub fortitude: i32,
    pub gold: i32,
    pub is_dead: bool,
}

/// The interrupts in progress as shown to everyone.
#[derive(Debug)]
pub struct GameViewInterruptData {
    pub interrupts: Vec<GameViewInterruptStack>,
    pub current_interrupt_turn: PlayerUUID,
}

/// An interrupt stack as shown to everyone: its root and the names of the
/// interrupt cards played on its current session.
#[derive(Debug)]
pub struct GameViewInterruptStack {
    pub root_item: GameViewInterruptStackRootItem,
    pub interrupt_card_names: Vec<String>,
}

/// The root of an interrupt stack as shown to everyone.
#[derive(Debug)]
pub struct GameViewInterruptStackRootItem {
    pub name: String,
    pub item_type: String,
}

/// A game as shown to one of its players.
#[derive(Debug)]
pub struct GameView {
    pub game_name: String,
    pub self_player_uuid: PlayerUUID,
    pub current_turn_player_uuid: Option<PlayerUUID>,
    pub current_turn_phase: Option<TurnPhase>,
    pub can_pass: bool,
    pub hand: Vec<GameViewPlayerCard>,
    pub player_data: Vec<GameViewPlayerData>,
    /// Each player of the game with their display name, in the game's
    /// order.
    pub player_display_names: Vec<(PlayerUUID, String)>,
    pub interrupts: Option<GameViewInterruptData>,
    pub is_running: bool,
    pub winner_uuid: Option<PlayerUUID>,
}

/// A game as listed to everyone.
#[derive(Debug, PartialEq, Eq)]
pub struct ListedGameView {
    pub game_name: String,
    pub game_uuid: GameUUID,
    pub player_count: usize,
}

/// The games as listed to everyone, ordered by name.
#[derive(Debug)]
pub struct ListedGameViewCollection {
    pub listed_game_views: Vec<ListedGameView>,
}

} // verus!
