use tavern_game::drink::DrinkWithPossibleChasers;
use tavern_game::gambling_manager::GamblingManager;
use tavern_game::game::Character;
use tavern_game::game_logic::TurnInfo;
use tavern_game::interrupt_manager::InterruptManager;
use tavern_game::player_card::change_other_player_fortitude_card;
use tavern_game::player_manager::PlayerManager;
use tavern_game::PlayerUUID;

#[test]
fn player_root_player_card_interrupt_ends_after_targeted_player_passes_2_player_game() {
    let player1_uuid = PlayerUUID::new();
    let player2_uuid = PlayerUUID::new();
    let mut interrupt_manager = InterruptManager::new();
    let mut player_manager = PlayerManager::new(vec![
        (player1_uuid.clone(), Character::Gerki),
        (player2_uuid.clone(), Character::Deirdre),
    ]);
    let mut gambling_manager = GamblingManager::new();
    let mut turn_info = TurnInfo::new(player1_uuid.clone());

    assert!(interrupt_manager
        .start_single_player_root_player_card_interrupt(
            change_other_player_fortitude_card("Test card", -1),
            player1_uuid,
            player2_uuid.clone()
        )
        .is_ok());
    assert!(interrupt_manager.is_turn_to_interrupt(&player2_uuid));
    assert!(interrupt_manager
        .pass(&mut player_manager, &mut gambling_manager, &mut turn_info)
        .is_ok());
    assert!(!interrupt_manager.interrupt_in_progress());
}

#[test]
fn player_root_player_card_interrupt_ends_after_targeted_player_passes_3_player_game() {
    let player1_uuid = PlayerUUID::new();
    let player2_uuid = PlayerUUID::new();
    let player3_uuid = PlayerUUID::new();
    let mut interrupt_manager = InterruptManager::new();
    let mut player_manager = PlayerManager::new(vec![
        (player1_uuid.clone(), Character::Gerki),
        (player2_uuid, Character::Deirdre),
        (player3_uuid.clone(), Character::Zot),
    ]);
    let mut gambling_manager = GamblingManager::new();
    let mut turn_info = TurnInfo::new(player1_uuid.clone());

    assert!(interrupt_manager
        .start_single_player_root_player_card_interrupt(
            change_other_player_fortitude_card("Test card", -1),
            player1_uuid,
            player3_uuid.clone()
        )
        .is_ok());
    assert!(interrupt_manager.is_turn_to_interrupt(&player3_uuid));
    assert!(interrupt_manager
        .pass(&mut player_manager, &mut gambling_manager, &mut turn_info)
        .is_ok());
    assert!(!interrupt_manager.interrupt_in_progress());
}

#[test]
fn drink_interrupt_ends_after_everyone_passes_2_player_game() {
    let player1_uuid = PlayerUUID::new();
    let player2_uuid = PlayerUUID::new();
    let mut interrupt_manager = InterruptManager::new();
    let mut player_manager = PlayerManager::new(vec![
        (player1_uuid.clone(), Character::Gerki),
        (player2_uuid.clone(), Character::Deirdre),
    ]);
    let mut gambling_manager = GamblingManager::new();
    let mut turn_info = TurnInfo::new(player1_uuid.clone());

    assert!(interrupt_manager
        .start_single_player_drink_interrupt(
            DrinkWithPossibleChasers::new(vec![], None),
            player1_uuid.clone()
        )
        .is_ok());
    // All players pass on the chance to modify the drink.
    assert!(interrupt_manager.is_turn_to_interrupt(&player1_uuid));
    assert!(interrupt_manager
        .pass(&mut player_manager, &mut gambling_manager, &mut turn_info)
        .is_ok());
    assert!(interrupt_manager.is_turn_to_interrupt(&player2_uuid));
    assert!(interrupt_manager
        .pass(&mut player_manager, &mut gambling_manager, &mut turn_info)
        .is_ok());
    // Targeted player passes on the chance to interrupt the drink.
    assert!(interrupt_manager.is_turn_to_interrupt(&player1_uuid));
    assert!(interrupt_manager
        .pass(&mut player_manager, &mut gambling_manager, &mut turn_info)
        .is_ok());

    assert!(!interrupt_manager.interrupt_in_progress());
}

#[test]
fn drink_interrupt_ends_after_everyone_passes_3_player_game() {
    let player1_uuid = PlayerUUID::new();
    let player2_uuid = PlayerUUID::new();
    let player3_uuid = PlayerUUID::new();
    let mut interrupt_manager = InterruptManager::new();
    let mut player_manager = PlayerManager::new(vec![
        (player1_uuid.clone(), Character::Gerki),
        (player2_uuid.clone(), Character::Deirdre),
        (player3_uuid.clone(), Character::Zot),
    ]);
    let mut gambling_manager = GamblingManager::new();
    let mut turn_info = TurnInfo::new(player1_uuid.clone());

    assert!(interrupt_manager
        .start_single_player_drink_interrupt(
            DrinkWithPossibleChasers::new(vec![], None),
            player1_uuid.clone()
        )
        .is_ok());
    // All players pass on the chance to modify the drink.
    assert!(interrupt_manager.is_turn_to_interrupt(&player1_uuid));
    assert!(interrupt_manager
        .pass(&mut player_manager, &mut gambling_manager, &mut turn_info)
        .is_ok());
    assert!(interrupt_manager.is_turn_to_interrupt(&player2_uuid));
    assert!(interrupt_manager
        .pass(&mut player_manager, &mut gambling_manager, &mut turn_info)
        .is_ok());
    assert!(interrupt_manager.is_turn_to_interrupt(&player3_uuid));
    assert!(interrupt_manager
        .pass(&mut player_manager, &mut gambling_manager, &mut turn_info)
        .is_ok());
    // Targeted player passes on the chance to interrupt the drink.
    assert!(interrupt_manager.is_turn_to_interrupt(&player1_uuid));
    assert!(interrupt_manager
        .pass(&mut player_manager, &mut gambling_manager, &mut turn_info)
        .is_ok());

    assert!(!interrupt_manager.interrupt_in_progress());
}
