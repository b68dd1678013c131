use tavern_game::drink::create_simple_ale_test_drink;
use tavern_game::game::Character;
use tavern_game::game_logic::{rotate_player_vec_to_start_with_player, GameLogic, TurnPhase};
use tavern_game::player_card::{
    change_other_player_fortitude_card, gain_fortitude_anytime_card, gambling_cheat_card,
    gambling_im_in_card, i_raise_card, ignore_root_card_affecting_fortitude,
    wench_bring_some_drinks_for_my_friends_card, winning_hand_card,
};
use tavern_game::{Error, PlayerUUID};

#[test]
fn can_handle_simple_gambling_round() {
    let player1_uuid = PlayerUUID::new();
    let player2_uuid = PlayerUUID::new();

    let mut game_logic = GameLogic::new(vec![
        (player1_uuid.clone(), Character::Deirdre),
        (player2_uuid.clone(), Character::Gerki),
    ])
    .unwrap();
    game_logic
        .discard_cards_and_draw_to_full(&player1_uuid, Vec::new())
        .unwrap();

    // Sanity check.
    assert_eq!(
        game_logic
            .player_manager
            .get_player_by_uuid(&player1_uuid)
            .unwrap()
            .get_gold(),
        8
    );
    assert_eq!(
        game_logic
            .player_manager
            .get_player_by_uuid(&player2_uuid)
            .unwrap()
            .get_gold(),
        8
    );
    assert!(!game_logic.gambling_manager.round_in_progress());
    assert_eq!(game_logic.turn_info.turn_phase, TurnPhase::Action);

    // Player 1 starts gambling round.
    assert!(game_logic
        .process_card(gambling_im_in_card().into(), &player1_uuid, &None)
        .is_ok());

    // Player 2 chooses not to play an interrupt card.
    assert!(game_logic
        .interrupt_manager
        .is_turn_to_interrupt(&player2_uuid));
    assert!(!game_logic.player_can_pass(&player1_uuid));
    assert!(game_logic.player_can_pass(&player2_uuid));
    game_logic.pass(&player2_uuid).unwrap();
    assert!(!game_logic.interrupt_manager.interrupt_in_progress());

    // 1 gold should be subtracted from each player.
    assert_eq!(
        game_logic
            .player_manager
            .get_player_by_uuid(&player1_uuid)
            .unwrap()
            .get_gold(),
        7
    );
    assert_eq!(
        game_logic
            .player_manager
            .get_player_by_uuid(&player2_uuid)
            .unwrap()
            .get_gold(),
        7
    );
    assert!(game_logic.gambling_manager.round_in_progress());
    assert_eq!(game_logic.turn_info.turn_phase, TurnPhase::Action);

    // Player 2 does not take control of the gambling round, making player 1 the winner.
    assert!(game_logic.gambling_manager.is_turn(&player2_uuid));
    assert!(!game_logic.player_can_pass(&player1_uuid));
    assert!(game_logic.player_can_pass(&player2_uuid));
    game_logic.pass(&player2_uuid).unwrap();

    // Gambling pot should be given to the winner.
    assert_eq!(
        game_logic
            .player_manager
            .get_player_by_uuid(&player1_uuid)
            .unwrap()
            .get_gold(),
        9
    );
    assert_eq!(
        game_logic
            .player_manager
            .get_player_by_uuid(&player2_uuid)
            .unwrap()
            .get_gold(),
        7
    );
    assert!(!game_logic.gambling_manager.round_in_progress());
    assert_eq!(game_logic.turn_info.turn_phase, TurnPhase::OrderDrinks);
}

#[test]
fn raise_in_gambling_round() {
    let player1_uuid = PlayerUUID::new();
    let player2_uuid = PlayerUUID::new();

    let mut game_logic = GameLogic::new(vec![
        (player1_uuid.clone(), Character::Deirdre),
        (player2_uuid.clone(), Character::Gerki),
    ])
    .unwrap();
    game_logic
        .discard_cards_and_draw_to_full(&player1_uuid, Vec::new())
        .unwrap();

    // Sanity check.
    assert_eq!(
        game_logic
            .player_manager
            .get_player_by_uuid(&player1_uuid)
            .unwrap()
            .get_gold(),
        8
    );
    assert_eq!(
        game_logic
            .player_manager
            .get_player_by_uuid(&player2_uuid)
            .unwrap()
            .get_gold(),
        8
    );
    assert!(!game_logic.gambling_manager.round_in_progress());
    assert_eq!(game_logic.turn_info.turn_phase, TurnPhase::Action);

    // Player 1 starts gambling round.
    assert!(game_logic
        .process_card(gambling_im_in_card().into(), &player1_uuid, &None)
        .is_ok());

    // Player 2 chooses not to play an interrupt card.
    assert!(game_logic
        .interrupt_manager
        .is_turn_to_interrupt(&player2_uuid));
    assert!(!game_logic.player_can_pass(&player1_uuid));
    assert!(game_logic.player_can_pass(&player2_uuid));
    game_logic.pass(&player2_uuid).unwrap();
    assert!(!game_logic.interrupt_manager.interrupt_in_progress());

    // 1 gold should be subtracted from each player.
    assert_eq!(
        game_logic
            .player_manager
            .get_player_by_uuid(&player1_uuid)
            .unwrap()
            .get_gold(),
        7
    );
    assert_eq!(
        game_logic
            .player_manager
            .get_player_by_uuid(&player2_uuid)
            .unwrap()
            .get_gold(),
        7
    );
    assert!(game_logic.gambling_manager.round_in_progress());
    assert_eq!(game_logic.turn_info.turn_phase, TurnPhase::Action);

    // Player 2 raises.
    assert!(game_logic.gambling_manager.is_turn(&player2_uuid));
    assert!(!game_logic.player_can_pass(&player1_uuid));
    assert!(game_logic.player_can_pass(&player2_uuid));
    assert!(game_logic
        .process_card(i_raise_card().into(), &player2_uuid, &None)
        .is_ok());

    // Player 2 chooses not to interrupt their ante.
    assert!(!game_logic.player_can_pass(&player1_uuid));
    assert!(game_logic.player_can_pass(&player2_uuid));
    game_logic.pass(&player2_uuid).unwrap();
    // Player 1 chooses not to interrupt their ante.
    assert!(game_logic.player_can_pass(&player1_uuid));
    assert!(!game_logic.player_can_pass(&player2_uuid));
    game_logic.pass(&player1_uuid).unwrap();

    // 1 more gold should be subtracted from each player.
    assert_eq!(
        game_logic
            .player_manager
            .get_player_by_uuid(&player1_uuid)
            .unwrap()
            .get_gold(),
        6
    );
    assert_eq!(
        game_logic
            .player_manager
            .get_player_by_uuid(&player2_uuid)
            .unwrap()
            .get_gold(),
        6
    );

    // Player 1 does not take control of the gambling round, making player 2 the winner.
    assert!(game_logic.gambling_manager.is_turn(&player1_uuid));
    assert!(game_logic.player_can_pass(&player1_uuid));
    assert!(!game_logic.player_can_pass(&player2_uuid));
    game_logic.pass(&player1_uuid).unwrap();

    // Gambling pot should be given to the winner.
    assert_eq!(
        game_logic
            .player_manager
            .get_player_by_uuid(&player1_uuid)
            .unwrap()
            .get_gold(),
        6
    );
    assert_eq!(
        game_logic
            .player_manager
            .get_player_by_uuid(&player2_uuid)
            .unwrap()
            .get_gold(),
        10
    );
    assert!(!game_logic.gambling_manager.round_in_progress());
    assert_eq!(game_logic.turn_info.turn_phase, TurnPhase::OrderDrinks);
}

#[test]
fn cheat_in_gambling_round() {
    let player1_uuid = PlayerUUID::new();
    let player2_uuid = PlayerUUID::new();

    let mut game_logic = GameLogic::new(vec![
        (player1_uuid.clone(), Character::Deirdre),
        (player2_uuid.clone(), Character::Gerki),
    ])
    .unwrap();
    game_logic
        .discard_cards_and_draw_to_full(&player1_uuid, Vec::new())
        .unwrap();

    // Sanity check.
    assert_eq!(
        game_logic
            .player_manager
            .get_player_by_uuid(&player1_uuid)
            .unwrap()
            .get_gold(),
        8
    );
    assert_eq!(
        game_logic
            .player_manager
            .get_player_by_uuid(&player2_uuid)
            .unwrap()
            .get_gold(),
        8
    );
    assert!(!game_logic.gambling_manager.round_in_progress());
    assert_eq!(game_logic.turn_info.turn_phase, TurnPhase::Action);

    // Player 1 starts gambling round.
    assert!(game_logic
        .process_card(gambling_im_in_card().into(), &player1_uuid, &None)
        .is_ok());

    // Player 2 chooses not to play an interrupt card.
    assert!(game_logic
        .interrupt_manager
        .is_turn_to_interrupt(&player2_uuid));
    assert!(!game_logic.player_can_pass(&player1_uuid));
    assert!(game_logic.player_can_pass(&player2_uuid));
    game_logic.pass(&player2_uuid).unwrap();
    assert!(!game_logic.interrupt_manager.interrupt_in_progress());

    // 1 gold should be subtracted from each player.
    assert_eq!(
        game_logic
            .player_manager
            .get_player_by_uuid(&player1_uuid)
            .unwrap()
            .get_gold(),
        7
    );
    assert_eq!(
        game_logic
            .player_manager
            .get_player_by_uuid(&player2_uuid)
            .unwrap()
            .get_gold(),
        7
    );
    assert!(game_logic.gambling_manager.round_in_progress());
    assert_eq!(game_logic.turn_info.turn_phase, TurnPhase::Action);

    // Player 2 plays a winning hand card.
    assert!(game_logic
        .process_card(winning_hand_card().into(), &player2_uuid, &None)
        .is_ok());

    // Player 1 attempts to play a regular gambling card.
    assert_eq!(
        game_logic
            .process_card(gambling_im_in_card().into(), &player1_uuid, &None)
            .unwrap_err()
            .1,
        Error::new("Card cannot be played at this time")
    );

    // Player 1 plays a cheating card.
    assert!(game_logic
        .process_card(
            gambling_cheat_card("Card up the sleeve").into(),
            &player1_uuid,
            &None
        )
        .is_ok());

    // Player 2 does not take control of the gambling round, making player 1 the winner.
    assert!(game_logic.gambling_manager.is_turn(&player2_uuid));
    assert!(!game_logic.player_can_pass(&player1_uuid));
    assert!(game_logic.player_can_pass(&player2_uuid));
    game_logic.pass(&player2_uuid).unwrap();

    // Gambling pot should be given to the winner.
    assert_eq!(
        game_logic
            .player_manager
            .get_player_by_uuid(&player1_uuid)
            .unwrap()
            .get_gold(),
        9
    );
    assert_eq!(
        game_logic
            .player_manager
            .get_player_by_uuid(&player2_uuid)
            .unwrap()
            .get_gold(),
        7
    );
    assert!(!game_logic.gambling_manager.round_in_progress());
    assert_eq!(game_logic.turn_info.turn_phase, TurnPhase::OrderDrinks);
}

#[test]
fn cannot_play_gambling_cards_during_game_interrupts() {
    let player1_uuid = PlayerUUID::new();
    let player2_uuid = PlayerUUID::new();

    let mut game_logic = GameLogic::new(vec![
        (player1_uuid.clone(), Character::Deirdre),
        (player2_uuid.clone(), Character::Gerki),
    ])
    .unwrap();
    game_logic
        .discard_cards_and_draw_to_full(&player1_uuid, Vec::new())
        .unwrap();

    // Sanity check.
    assert_eq!(
        game_logic
            .player_manager
            .get_player_by_uuid(&player1_uuid)
            .unwrap()
            .get_gold(),
        8
    );
    assert_eq!(
        game_logic
            .player_manager
            .get_player_by_uuid(&player2_uuid)
            .unwrap()
            .get_gold(),
        8
    );
    assert!(!game_logic.gambling_manager.round_in_progress());
    assert_eq!(game_logic.turn_info.turn_phase, TurnPhase::Action);

    // Start gambling round.
    assert!(game_logic
        .process_card(gambling_im_in_card().into(), &player1_uuid, &None)
        .is_ok());

    // Other player can choose to interrupt their ante (but doesn't yet).
    assert!(game_logic
        .interrupt_manager
        .is_turn_to_interrupt(&player2_uuid));

    // Neither player can play other gambling cards.
    assert!(!i_raise_card().can_play(
        &player1_uuid,
        &game_logic.gambling_manager,
        &game_logic.interrupt_manager,
        &game_logic.turn_info
    ));
    assert!(!i_raise_card().can_play(
        &player2_uuid,
        &game_logic.gambling_manager,
        &game_logic.interrupt_manager,
        &game_logic.turn_info
    ));
    assert!(!gambling_im_in_card().can_play(
        &player1_uuid,
        &game_logic.gambling_manager,
        &game_logic.interrupt_manager,
        &game_logic.turn_info
    ));
    assert!(!gambling_im_in_card().can_play(
        &player2_uuid,
        &game_logic.gambling_manager,
        &game_logic.interrupt_manager,
        &game_logic.turn_info
    ));

    // Player 2 passes and antes.
    game_logic.pass(&player2_uuid).unwrap();

    // Player 2 can now play a gambling card.
    assert!(!i_raise_card().can_play(
        &player1_uuid,
        &game_logic.gambling_manager,
        &game_logic.interrupt_manager,
        &game_logic.turn_info
    ));
    assert!(i_raise_card().can_play(
        &player2_uuid,
        &game_logic.gambling_manager,
        &game_logic.interrupt_manager,
        &game_logic.turn_info
    ));
    assert!(!gambling_im_in_card().can_play(
        &player1_uuid,
        &game_logic.gambling_manager,
        &game_logic.interrupt_manager,
        &game_logic.turn_info
    ));
    assert!(gambling_im_in_card().can_play(
        &player2_uuid,
        &game_logic.gambling_manager,
        &game_logic.interrupt_manager,
        &game_logic.turn_info
    ));
}

#[test]
fn can_handle_change_other_player_fortitude_card() {
    let player1_uuid = PlayerUUID::new();
    let player2_uuid = PlayerUUID::new();

    let mut game_logic = GameLogic::new(vec![
        (player1_uuid.clone(), Character::Deirdre),
        (player2_uuid.clone(), Character::Gerki),
    ])
    .unwrap();
    game_logic
        .discard_cards_and_draw_to_full(&player1_uuid, Vec::new())
        .unwrap();

    // Sanity check.
    assert!(!game_logic.gambling_manager.round_in_progress());
    assert_eq!(game_logic.turn_info.turn_phase, TurnPhase::Action);

    // Player 1 attempts to hurt player 2.
    assert!(game_logic
        .process_card(
            change_other_player_fortitude_card("Punch in the face", -2).into(),
            &player1_uuid,
            &Some(player2_uuid.clone())
        )
        .is_ok());

    // Sanity check.
    assert_eq!(
        game_logic
            .player_manager
            .get_player_by_uuid(&player2_uuid)
            .unwrap()
            .get_fortitude(),
        20
    );
    assert!(game_logic.interrupt_manager.interrupt_in_progress());

    // Player 2 chooses not to play an interrupt card.
    assert!(game_logic
        .interrupt_manager
        .is_turn_to_interrupt(&player2_uuid));
    game_logic.pass(&player2_uuid).unwrap();
    assert!(!game_logic.interrupt_manager.interrupt_in_progress());

    // Fortitude should be reduced.
    assert_eq!(
        game_logic
            .player_manager
            .get_player_by_uuid(&player2_uuid)
            .unwrap()
            .get_fortitude(),
        18
    );

    // Should proceed to player 1's order drink phase.
    assert_eq!(game_logic.get_turn_phase(), TurnPhase::OrderDrinks);
}

#[test]
fn cannot_play_directed_card_on_self() {
    let player1_uuid = PlayerUUID::new();
    let player2_uuid = PlayerUUID::new();

    let mut game_logic = GameLogic::new(vec![
        (player1_uuid.clone(), Character::Deirdre),
        (player2_uuid, Character::Gerki),
    ])
    .unwrap();
    game_logic
        .discard_cards_and_draw_to_full(&player1_uuid, Vec::new())
        .unwrap();

    assert!(!game_logic.gambling_manager.round_in_progress());
    assert_eq!(game_logic.turn_info.turn_phase, TurnPhase::Action);

    // Player 1 attempts to hurt self.
    assert_eq!(
        game_logic
            .process_card(
                change_other_player_fortitude_card("Punch in the face", -2).into(),
                &player1_uuid,
                &Some(player1_uuid.clone())
            )
            .unwrap_err()
            .1,
        Error::new("Must not direct this card at yourself")
    );

    // Should stay at player 1's action phase.
    assert_eq!(game_logic.get_turn_phase(), TurnPhase::Action);
}

#[test]
fn can_handle_interrupted_change_other_player_fortitude_card() {
    let player1_uuid = PlayerUUID::new();
    let player2_uuid = PlayerUUID::new();

    let mut game_logic = GameLogic::new(vec![
        (player1_uuid.clone(), Character::Deirdre),
        (player2_uuid.clone(), Character::Gerki),
    ])
    .unwrap();
    game_logic
        .discard_cards_and_draw_to_full(&player1_uuid, Vec::new())
        .unwrap();

    // Sanity check.
    assert_eq!(
        game_logic
            .player_manager
            .get_player_by_uuid(&player1_uuid)
            .unwrap()
            .get_gold(),
        8
    );
    assert_eq!(
        game_logic
            .player_manager
            .get_player_by_uuid(&player2_uuid)
            .unwrap()
            .get_gold(),
        8
    );
    assert!(!game_logic.gambling_manager.round_in_progress());
    assert_eq!(game_logic.turn_info.turn_phase, TurnPhase::Action);

    // Reduce player 2's fortitude to ensure that it is properly restored.
    game_logic
        .player_manager
        .get_player_by_uuid_mut(&player2_uuid)
        .unwrap()
        .change_fortitude(-2);

    assert!(game_logic
        .process_card(
            change_other_player_fortitude_card("Punch in the face", -2).into(),
            &player1_uuid,
            &Some(player2_uuid.clone())
        )
        .is_ok());

    assert!(gain_fortitude_anytime_card("Heal", 1).can_play(
        &player1_uuid,
        &game_logic.gambling_manager,
        &game_logic.interrupt_manager,
        &game_logic.turn_info
    ));
    assert!(game_logic
        .process_card(
            gain_fortitude_anytime_card("Heal", 1).into(),
            &player1_uuid,
            &None
        )
        .is_ok());
}

#[test]
fn can_gain_fortitude_during_game_interrupt() {
    let player1_uuid = PlayerUUID::new();
    let player2_uuid = PlayerUUID::new();

    let mut game_logic = GameLogic::new(vec![
        (player1_uuid.clone(), Character::Deirdre),
        (player2_uuid.clone(), Character::Gerki),
    ])
    .unwrap();
    game_logic
        .discard_cards_and_draw_to_full(&player1_uuid, Vec::new())
        .unwrap();

    assert!(!game_logic.gambling_manager.round_in_progress());
    assert_eq!(game_logic.turn_info.turn_phase, TurnPhase::Action);

    assert!(game_logic
        .process_card(
            change_other_player_fortitude_card("Punch in the face", -2).into(),
            &player1_uuid,
            &Some(player2_uuid.clone())
        )
        .is_ok());

    // Player 2 plays an interrupt card.
    assert!(game_logic
        .interrupt_manager
        .is_turn_to_interrupt(&player2_uuid));
    assert!(game_logic
        .process_card(
            ignore_root_card_affecting_fortitude("Block punch").into(),
            &player2_uuid,
            &None
        )
        .is_ok());
    // Player 1 chooses not to play a countering interrupt card.
    assert!(game_logic
        .interrupt_manager
        .is_turn_to_interrupt(&player1_uuid));
    game_logic.pass(&player1_uuid).unwrap();
    assert!(!game_logic.interrupt_manager.interrupt_in_progress());

    // Fortitude should not be reduced.
    assert_eq!(
        game_logic
            .player_manager
            .get_player_by_uuid(&player2_uuid)
            .unwrap()
            .get_fortitude(),
        20
    );
}

#[test]
fn can_order_drinks_after_action_phase() {
    let player1_uuid = PlayerUUID::new();
    let player2_uuid = PlayerUUID::new();

    let mut game_logic = GameLogic::new(vec![
        (player1_uuid.clone(), Character::Deirdre),
        (player2_uuid.clone(), Character::Gerki),
    ])
    .unwrap();
    game_logic
        .discard_cards_and_draw_to_full(&player1_uuid, Vec::new())
        .unwrap();

    assert!(!game_logic.gambling_manager.round_in_progress());
    assert_eq!(game_logic.turn_info.turn_phase, TurnPhase::Action);

    // Player 1 skips their action phase.
    assert!(game_logic.pass(&player1_uuid).is_ok());

    // Should proceed to player 1's order drink phase.
    assert_eq!(game_logic.get_turn_phase(), TurnPhase::OrderDrinks);

    assert!(game_logic.order_drink(&player1_uuid, &player2_uuid).is_ok());

    // Should proceed to player 2's discard phase.
    assert_eq!(game_logic.get_turn_phase(), TurnPhase::DiscardAndDraw);
}

#[test]
fn can_order_multiple_drinks() {
    let player1_uuid = PlayerUUID::new();
    let player2_uuid = PlayerUUID::new();

    let mut game_logic = GameLogic::new(vec![
        (player1_uuid.clone(), Character::Deirdre),
        (player2_uuid.clone(), Character::Gerki),
    ])
    .unwrap();
    game_logic
        .discard_cards_and_draw_to_full(&player1_uuid, Vec::new())
        .unwrap();

    assert!(!game_logic.gambling_manager.round_in_progress());
    assert_eq!(game_logic.turn_info.turn_phase, TurnPhase::Action);

    // Player 1 skips their action phase.
    assert!(game_logic.pass(&player1_uuid).is_ok());

    // Should proceed to player 1's order drink phase.
    assert_eq!(game_logic.get_turn_phase(), TurnPhase::OrderDrinks);

    assert!(game_logic
        .process_card(
            wench_bring_some_drinks_for_my_friends_card().into(),
            &player1_uuid,
            &None
        )
        .is_ok());

    assert!(game_logic.order_drink(&player1_uuid, &player2_uuid).is_ok());
    assert!(game_logic.order_drink(&player1_uuid, &player2_uuid).is_ok());
    assert!(game_logic.order_drink(&player1_uuid, &player2_uuid).is_ok());

    // Should proceed to player 2's discard phase.
    assert_eq!(game_logic.get_turn_phase(), TurnPhase::DiscardAndDraw);
}

#[test]
fn player_drinks_top_drink_after_ordering_drinks() {
    let player1_uuid = PlayerUUID::new();
    let player2_uuid = PlayerUUID::new();

    let mut game_logic = GameLogic::new(vec![
        (player1_uuid.clone(), Character::Deirdre),
        (player2_uuid.clone(), Character::Gerki),
    ])
    .unwrap();
    game_logic
        .discard_cards_and_draw_to_full(&player1_uuid, Vec::new())
        .unwrap();

    assert!(!game_logic.gambling_manager.round_in_progress());
    assert_eq!(game_logic.turn_info.turn_phase, TurnPhase::Action);

    // Player 1 skips their action phase.
    assert!(game_logic.pass(&player1_uuid).is_ok());

    // Should proceed to player 1's order drink phase.
    assert_eq!(game_logic.get_turn_phase(), TurnPhase::OrderDrinks);

    // Player should drink the top card of their drink deck after ordering drinks for other players.
    game_logic
        .player_manager
        .get_player_by_uuid_mut(&player1_uuid)
        .unwrap()
        .add_drink_to_drink_pile(create_simple_ale_test_drink(false).into());
    let player1_drink_me_pile_size = game_logic
        .player_manager
        .get_player_by_uuid(&player1_uuid)
        .unwrap()
        .to_game_view_player_data(player1_uuid.clone())
        .drink_me_pile_size;
    let player1_alcohol_content = game_logic
        .player_manager
        .get_player_by_uuid(&player1_uuid)
        .unwrap()
        .to_game_view_player_data(player1_uuid.clone())
        .alcohol_content;
    assert!(game_logic.order_drink(&player1_uuid, &player2_uuid).is_ok());
    assert_eq!(
        game_logic
            .player_manager
            .get_player_by_uuid(&player1_uuid)
            .unwrap()
            .to_game_view_player_data(player1_uuid.clone())
            .drink_me_pile_size,
        player1_drink_me_pile_size - 1
    );
    assert_eq!(
        game_logic
            .player_manager
            .get_player_by_uuid(&player1_uuid)
            .unwrap()
            .to_game_view_player_data(player1_uuid.clone())
            .alcohol_content,
        player1_alcohol_content + 1
    );

    // Should proceed to player 2's discard phase.
    assert_eq!(game_logic.get_turn_phase(), TurnPhase::DiscardAndDraw);
}

#[test]
fn cannot_order_drinks_for_self() {
    let player1_uuid = PlayerUUID::new();
    let player2_uuid = PlayerUUID::new();

    let mut game_logic = GameLogic::new(vec![
        (player1_uuid.clone(), Character::Deirdre),
        (player2_uuid, Character::Gerki),
    ])
    .unwrap();
    game_logic
        .discard_cards_and_draw_to_full(&player1_uuid, Vec::new())
        .unwrap();

    assert!(!game_logic.gambling_manager.round_in_progress());
    assert_eq!(game_logic.turn_info.turn_phase, TurnPhase::Action);

    // Player 1 skips their action phase.
    assert!(game_logic.pass(&player1_uuid).is_ok());

    // Should proceed to player 1's order drink phase.
    assert_eq!(game_logic.get_turn_phase(), TurnPhase::OrderDrinks);

    assert_eq!(
        game_logic
            .order_drink(&player1_uuid, &player1_uuid)
            .unwrap_err(),
        Error::new("Cannot order drink for yourself")
    );
}

#[test]
fn test_rotate_player_vec_to_start_with_player() {
    let player1_uuid = PlayerUUID::new();
    let player2_uuid = PlayerUUID::new();
    let player3_uuid = PlayerUUID::new();
    let player4_uuid = PlayerUUID::new();

    let player_uuids = vec![
        player1_uuid.clone(),
        player2_uuid.clone(),
        player3_uuid.clone(),
        player4_uuid.clone(),
    ];

    assert_eq!(
        rotate_player_vec_to_start_with_player(player_uuids.clone(), &player1_uuid),
        vec![
            player1_uuid.clone(),
            player2_uuid.clone(),
            player3_uuid.clone(),
            player4_uuid.clone()
        ]
    );

    assert_eq!(
        rotate_player_vec_to_start_with_player(player_uuids.clone(), &player2_uuid),
        vec![
            player2_uuid.clone(),
            player3_uuid.clone(),
            player4_uuid.clone(),
            player1_uuid.clone(),
        ]
    );

    assert_eq!(
        rotate_player_vec_to_start_with_player(player_uuids.clone(), &player3_uuid),
        vec![
            player3_uuid.clone(),
            player4_uuid.clone(),
            player1_uuid.clone(),
            player2_uuid.clone(),
        ]
    );

    assert_eq!(
        rotate_player_vec_to_start_with_player(player_uuids.clone(), &player4_uuid),
        vec![
            player4_uuid.clone(),
            player1_uuid.clone(),
            player2_uuid.clone(),
            player3_uuid.clone(),
        ]
    );

    assert_eq!(
        rotate_player_vec_to_start_with_player(player_uuids, &PlayerUUID::new()),
        vec![player1_uuid, player2_uuid, player3_uuid, player4_uuid,]
    );
}

#[test]
fn wench_card_costs_one_gold_and_adds_two_drinks() {
    let player1_uuid = PlayerUUID::new();
    let player2_uuid = PlayerUUID::new();

    let mut game_logic = GameLogic::new(vec![
        (player1_uuid.clone(), Character::Deirdre),
        (player2_uuid.clone(), Character::Gerki),
    ])
    .unwrap();
    game_logic
        .discard_cards_and_draw_to_full(&player1_uuid, Vec::new())
        .unwrap();
    assert!(game_logic.pass(&player1_uuid).is_ok());
    assert_eq!(game_logic.get_turn_phase(), TurnPhase::OrderDrinks);

    let gold_before = game_logic
        .player_manager
        .get_player_by_uuid(&player1_uuid)
        .unwrap()
        .get_gold();
    let drinks_before = game_logic.turn_info.drinks_to_order;
    assert!(game_logic
        .process_card(
            wench_bring_some_drinks_for_my_friends_card().into(),
            &player1_uuid,
            &None
        )
        .is_ok());
    assert_eq!(
        game_logic
            .player_manager
            .get_player_by_uuid(&player1_uuid)
            .unwrap()
            .get_gold(),
        gold_before - 1
    );
    assert_eq!(game_logic.turn_info.drinks_to_order, drinks_before + 2);
}
