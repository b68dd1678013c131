use tavern_game::gambling_manager::GamblingManager;
use tavern_game::game::{Character, Game};
use tavern_game::game_logic::{GameLogic, TurnInfo, TurnPhase};
use tavern_game::interrupt_manager::InterruptManager;
use tavern_game::player_card::{
    change_other_player_fortitude_card, gain_fortitude_anytime_card, gambling_im_in_card,
    ignore_drink_card, ignore_root_card_affecting_fortitude,
};
use tavern_game::player_manager::PlayerManager;
use tavern_game::{Error, PlayerUUID};

fn two_player_setup() -> (PlayerUUID, PlayerUUID, PlayerManager, GamblingManager, TurnInfo) {
    let player1_uuid = PlayerUUID::new();
    let player2_uuid = PlayerUUID::new();
    let player_manager = PlayerManager::new(vec![
        (player1_uuid, Character::Gerki),
        (player2_uuid, Character::Deirdre),
    ]);
    (
        player1_uuid,
        player2_uuid,
        player_manager,
        GamblingManager::new(),
        TurnInfo::new(player1_uuid),
    )
}

#[test]
fn interrupt_manager_errors_without_an_interrupt() {
    let (_, _, mut player_manager, mut gambling_manager, mut turn_info) = two_player_setup();
    let mut interrupt_manager = InterruptManager::new();
    assert_eq!(
        interrupt_manager
            .pass(&mut player_manager, &mut gambling_manager, &mut turn_info)
            .unwrap_err(),
        Error::new("It is not anyone's turn to interrupt")
    );
    assert_eq!(
        interrupt_manager
            .resolve_current_stack_session(&mut player_manager, &mut gambling_manager, &mut turn_info)
            .unwrap_err(),
        Error::new("No stacks to resolve")
    );
    assert_eq!(
        interrupt_manager.can_push_to_current_stack(&ignore_drink_card("Spill")),
        Err(Error::new("No card to interrupt"))
    );
    assert!(!interrupt_manager.interrupt_in_progress());
}

#[test]
fn interrupt_manager_errors_with_an_interrupt() {
    let (player1_uuid, player2_uuid, mut player_manager, mut gambling_manager, mut turn_info) =
        two_player_setup();
    let mut interrupt_manager = InterruptManager::new();
    assert_eq!(
        interrupt_manager
            .start_single_player_root_player_card_interrupt(
                gain_fortitude_anytime_card("Heal", 1),
                player1_uuid,
                player2_uuid,
            )
            .unwrap_err()
            .1,
        Error::new("Card is not interruptable")
    );
    assert!(interrupt_manager
        .start_single_player_root_player_card_interrupt(
            change_other_player_fortitude_card("Punch", -1),
            player1_uuid,
            player2_uuid,
        )
        .is_ok());
    assert_eq!(
        interrupt_manager
            .start_single_player_root_player_card_interrupt(
                change_other_player_fortitude_card("Punch", -1),
                player1_uuid,
                player2_uuid,
            )
            .unwrap_err()
            .1,
        Error::new("An interrupt is already in progress")
    );
    assert_eq!(
        interrupt_manager.can_push_to_current_stack(&ignore_drink_card("Spill")),
        Err(Error::new("This card cannot interrupt the last played card"))
    );
    assert_eq!(
        interrupt_manager.can_push_to_current_stack(&ignore_root_card_affecting_fortitude("Block")),
        Ok(())
    );
    assert_eq!(
        interrupt_manager
            .play_interrupt_card(
                ignore_root_card_affecting_fortitude("Block"),
                player1_uuid,
                &mut player_manager,
                &mut gambling_manager,
                &mut turn_info,
            )
            .unwrap_err()
            .1,
        Error::new("It is not your turn to play an interrupt card")
    );
    assert!(interrupt_manager.is_turn_to_interrupt(&player2_uuid));
}

#[test]
fn leaving_a_round_of_gambling_needs_a_round_and_a_place_in_it() {
    let (player1_uuid, _, mut player_manager, _, _) = two_player_setup();
    let mut gambling_manager = GamblingManager::new();
    assert_eq!(
        gambling_manager.leave_gambling_round(&player1_uuid),
        Err(Error::new("No round of gambling is in progress"))
    );
    gambling_manager.start_round(player1_uuid, &mut player_manager);
    assert!(gambling_manager.round_in_progress());
    assert_eq!(
        gambling_manager.leave_gambling_round(&PlayerUUID::new()),
        Err(Error::new("Player is not in the round of gambling"))
    );
    assert_eq!(gambling_manager.leave_gambling_round(&player1_uuid), Ok(()));
}

#[test]
fn game_membership_errors() {
    let mut game = Game::new("Test Game".to_string());
    let member = PlayerUUID::new();
    let stranger = PlayerUUID::new();
    assert_eq!(game.join(member), Ok(()));
    assert_eq!(
        game.join(member),
        Err(Error::new("Player is already in this game"))
    );
    assert_eq!(
        game.leave(&stranger),
        Err(Error::new("Player is not in this game"))
    );
    assert_eq!(
        game.select_character(&stranger, Character::Zot),
        Err(Error::new("Player is not in this game"))
    );
    assert_eq!(game.players.len(), 1);
    assert_eq!(game.get_owner(), Some(member));
    assert!(game.is_owner(&member));
    assert!(!game.is_owner(&stranger));
    assert_eq!(game.leave(&member), Ok(()));
    assert!(game.is_empty());
    assert_eq!(game.get_owner(), None);
}

#[test]
fn discarding_errors_leave_the_hand_usable() {
    let player1_uuid = PlayerUUID::new();
    let player2_uuid = PlayerUUID::new();
    let mut game_logic = GameLogic::new(vec![
        (player1_uuid, Character::Deirdre),
        (player2_uuid, Character::Gerki),
    ])
    .unwrap();
    assert_eq!(
        game_logic.discard_cards_and_draw_to_full(&player2_uuid, Vec::new()),
        Err(Error::new("Cannot discard cards at this time"))
    );
    assert_eq!(
        game_logic.discard_cards_and_draw_to_full(&player1_uuid, vec![0, 0]),
        Err(Error::new("Cannot discard the same card twice"))
    );
    assert_eq!(
        game_logic.discard_cards_and_draw_to_full(&player1_uuid, vec![99]),
        Err(Error::new(
            "Card indices do not all correspond to cards in the player's hand"
        ))
    );
    assert_eq!(game_logic.get_turn_phase(), TurnPhase::DiscardAndDraw);
    assert_eq!(
        game_logic.discard_cards_and_draw_to_full(&player1_uuid, vec![2, 0]),
        Ok(())
    );
    assert_eq!(game_logic.get_turn_phase(), TurnPhase::Action);
    let hand_size = game_logic
        .player_manager
        .get_player_by_uuid(&player1_uuid)
        .unwrap()
        .hand
        .len();
    assert_eq!(hand_size, 7);
}

#[test]
fn cards_must_exist_and_be_directed_as_they_ask() {
    let player1_uuid = PlayerUUID::new();
    let player2_uuid = PlayerUUID::new();
    let mut game_logic = GameLogic::new(vec![
        (player1_uuid, Character::Deirdre),
        (player2_uuid, Character::Gerki),
    ])
    .unwrap();
    game_logic
        .discard_cards_and_draw_to_full(&player1_uuid, Vec::new())
        .unwrap();
    assert_eq!(
        game_logic.play_card(&player1_uuid, &None, 99),
        Err(Error::new("Card does not exist"))
    );
    assert_eq!(
        game_logic
            .process_card(
                change_other_player_fortitude_card("Punch in the face", -2).into(),
                &player1_uuid,
                &None
            )
            .unwrap_err()
            .1,
        Error::new("Must direct this card at another player")
    );
    assert_eq!(
        game_logic
            .process_card(gambling_im_in_card().into(), &player1_uuid, &Some(player2_uuid))
            .unwrap_err()
            .1,
        Error::new("Cannot direct this card at another player")
    );
    assert_eq!(game_logic.get_turn_phase(), TurnPhase::Action);
    assert!(!game_logic.interrupt_manager.interrupt_in_progress());
}
