use tavern_game::game::{Character, Game};
use tavern_game::game_logic::{GameLogic, TurnPhase};
use tavern_game::game_manager::GameManager;
use tavern_game::interrupt_manager::{GameInterruptType, PlayerCardInfo};
use tavern_game::player_card::{InterruptCardEffect, PlayerCard};
use tavern_game::player_manager::{NextPlayerUUIDOption, PlayerManager};
use tavern_game::{Error, PlayerUUID};

fn two_player_game() -> (GameLogic, PlayerUUID, PlayerUUID) {
    let player1_uuid = PlayerUUID::new();
    let player2_uuid = PlayerUUID::new();
    let game_logic = GameLogic::new(vec![
        (player1_uuid, Character::Deirdre),
        (player2_uuid, Character::Gerki),
    ])
    .unwrap();
    (game_logic, player1_uuid, player2_uuid)
}

fn hand_names(game_logic: &GameLogic, player_uuid: &PlayerUUID) -> Vec<String> {
    game_logic
        .player_manager
        .get_player_by_uuid(player_uuid)
        .unwrap()
        .hand
        .iter()
        .map(|card| card.get_display_name().to_string())
        .collect()
}

fn discard_pile_len(game_logic: &GameLogic, player_uuid: &PlayerUUID) -> usize {
    game_logic
        .player_manager
        .get_player_by_uuid(player_uuid)
        .unwrap()
        .deck
        .discard_pile
        .len()
}

#[test]
fn out_of_range_discard_changes_nothing() {
    let (mut game_logic, player1_uuid, _) = two_player_game();
    let hand_before = hand_names(&game_logic, &player1_uuid);
    assert_eq!(
        game_logic.discard_cards_and_draw_to_full(&player1_uuid, vec![1, 7]),
        Err(Error::new(
            "Card indices do not all correspond to cards in the player's hand"
        ))
    );
    assert_eq!(hand_names(&game_logic, &player1_uuid), hand_before);
    assert_eq!(discard_pile_len(&game_logic, &player1_uuid), 0);
    assert_eq!(game_logic.get_turn_phase(), TurnPhase::DiscardAndDraw);
}

#[test]
fn discard_keeps_the_other_cards_first_in_order() {
    let (mut game_logic, player1_uuid, _) = two_player_game();
    let hand_before = hand_names(&game_logic, &player1_uuid);
    assert_eq!(hand_before.len(), 7);
    assert_eq!(
        game_logic.discard_cards_and_draw_to_full(&player1_uuid, vec![4, 0, 2]),
        Ok(())
    );
    let hand_after = hand_names(&game_logic, &player1_uuid);
    assert_eq!(hand_after.len(), 7);
    let kept: Vec<String> = vec![
        hand_before[1].clone(),
        hand_before[3].clone(),
        hand_before[5].clone(),
        hand_before[6].clone(),
    ];
    assert_eq!(hand_after[..4].to_vec(), kept);
    assert_eq!(discard_pile_len(&game_logic, &player1_uuid), 3);
    assert_eq!(game_logic.get_turn_phase(), TurnPhase::Action);
}

#[test]
fn play_of_a_missing_card_changes_nothing() {
    let (mut game_logic, player1_uuid, _) = two_player_game();
    let hand_before = hand_names(&game_logic, &player1_uuid);
    assert_eq!(
        game_logic.play_card(&player1_uuid, &None, 7),
        Err(Error::new("Card does not exist"))
    );
    assert_eq!(hand_names(&game_logic, &player1_uuid), hand_before);
    assert_eq!(discard_pile_len(&game_logic, &player1_uuid), 0);
}

#[test]
fn next_alive_player_skips_players_who_are_out() {
    let u1 = PlayerUUID::new();
    let u2 = PlayerUUID::new();
    let u3 = PlayerUUID::new();
    let mut player_manager = PlayerManager::new(vec![
        (u1, Character::Deirdre),
        (u2, Character::Gerki),
        (u3, Character::Zot),
    ]);
    assert_eq!(
        player_manager.get_next_alive_player_uuid(&u1),
        NextPlayerUUIDOption::Next(u2)
    );
    player_manager.get_player_by_uuid_mut(&u2).unwrap().gold = 0;
    assert_eq!(
        player_manager.get_next_alive_player_uuid(&u1),
        NextPlayerUUIDOption::Next(u3)
    );
    assert_eq!(
        player_manager.get_next_alive_player_uuid(&u3),
        NextPlayerUUIDOption::Next(u1)
    );
    player_manager.get_player_by_uuid_mut(&u3).unwrap().gold = 0;
    assert_eq!(
        player_manager.get_next_alive_player_uuid(&u1),
        NextPlayerUUIDOption::OnlyPlayerLeft
    );
}

#[test]
fn started_game_is_running_with_everyone_in() {
    let owner = PlayerUUID::new();
    let other = PlayerUUID::new();
    let mut game = Game::new("Table".to_string());
    game.join(owner).unwrap();
    game.join(other).unwrap();
    assert_eq!(
        game.start(&other),
        Err(Error::new("Must be game owner to start game"))
    );
    assert!(!game.is_running());
    game.select_character(&owner, Character::Deirdre).unwrap();
    game.select_character(&other, Character::Gerki).unwrap();
    assert_eq!(game.start(&owner), Ok(()));
    assert!(game.is_running());
}

#[test]
fn every_game_is_listed_once_sorted_by_name() {
    let mut game_manager = GameManager::new();
    let mut ids = Vec::new();
    for name in ["Tommy", "Anna", "Zed"] {
        let id = PlayerUUID::new();
        game_manager.add_player(id, name.to_string()).unwrap();
        ids.push(id);
    }
    let b = game_manager.create_game(ids[0], "Bravo".to_string()).unwrap();
    let a = game_manager.create_game(ids[1], "Alpha".to_string()).unwrap();
    game_manager.join_game(ids[2], a).unwrap();
    let listed = game_manager.list_games();
    let names: Vec<(String, usize)> = listed
        .listed_game_views
        .iter()
        .map(|view| (view.game_name.clone(), view.player_count))
        .collect();
    assert_eq!(
        names,
        vec![("Alpha".to_string(), 2), ("Bravo".to_string(), 1)]
    );
    assert_eq!(listed.listed_game_views[0].game_uuid, a);
    assert_eq!(listed.listed_game_views[1].game_uuid, b);
}

#[test]
fn decks_hold_the_printed_cards() {
    let fiona = Character::Fiona.create_deck();
    assert_eq!(fiona.len(), 24);
    match &fiona[23] {
        PlayerCard::InterruptPlayerCard(card) => {
            assert_eq!(card.display_name, "I don't think so!");
            assert!(card.is_i_dont_think_so_card);
            assert_eq!(
                card.interrupt_type_output,
                GameInterruptType::SometimesCardPlayed(PlayerCardInfo {
                    affects_fortitude: false,
                    is_i_dont_think_so_card: true,
                })
            );
            assert!(matches!(card.effect, InterruptCardEffect::IDontThinkSo));
        }
        PlayerCard::RootPlayerCard(_) => panic!("expected an interrupt card"),
    }
    let zot = Character::Zot.create_deck();
    assert_eq!(zot.len(), 27);
    match &zot[26] {
        PlayerCard::InterruptPlayerCard(card) => {
            assert_eq!(card.display_name, "Not now, I'm meditating.");
            assert!(!card.is_i_dont_think_so_card);
            match &card.effect {
                InterruptCardEffect::Combined(first, second) => {
                    assert!(matches!(
                        first.effect,
                        InterruptCardEffect::LeaveGamblingRoundInsteadOfAnteing
                    ));
                    assert!(matches!(second.effect, InterruptCardEffect::IgnoreDrink));
                    assert_eq!(
                        card.display_description,
                        format!(
                            "{}\n- OR -\n{}",
                            first.display_description, second.display_description
                        )
                    );
                }
                _ => panic!("expected a combined card"),
            }
        }
        PlayerCard::RootPlayerCard(_) => panic!("expected an interrupt card"),
    }
}

#[test]
fn a_played_card_leaves_the_hand_and_a_refused_one_stays() {
    let (mut game_logic, player1_uuid, player2_uuid) = two_player_game();
    game_logic
        .discard_cards_and_draw_to_full(&player1_uuid, Vec::new())
        .unwrap();
    let hand_before = hand_names(&game_logic, &player1_uuid);
    for idx in 0..hand_before.len() {
        for other in [None, Some(player2_uuid)] {
            let mut trial = game_logic.clone();
            let result = trial.play_card(&player1_uuid, &other, idx);
            let hand_after = hand_names(&trial, &player1_uuid);
            if result.is_ok() {
                let mut expected = hand_before.clone();
                expected.remove(idx);
                assert_eq!(hand_after, expected);
            } else {
                assert_eq!(hand_after, hand_before);
            }
        }
    }
}
