use tavern_game::deck::AutoShufflingDeck;
use tavern_game::game::Character;
use tavern_game::game_logic::{GameLogic, TurnPhase};
use tavern_game::interrupt_manager::InterruptRoot;
use tavern_game::game_manager::{text_le_exec, GameManager};
use tavern_game::{Error, GameUUID, PlayerUUID};

fn manager_with_players(names: &[&str]) -> (GameManager, Vec<PlayerUUID>) {
    let mut game_manager = GameManager::new();
    let mut ids = Vec::new();
    for name in names {
        let id = PlayerUUID::new();
        game_manager.add_player(id, name.to_string()).unwrap();
        ids.push(id);
    }
    (game_manager, ids)
}

#[test]
fn adding_then_removing_a_player_leaves_no_trace() {
    let (mut game_manager, ids) = manager_with_players(&["Tommy"]);
    assert_eq!(
        game_manager.get_player_display_name(&ids[0]),
        Some(&"Tommy".to_string())
    );
    assert_eq!(game_manager.remove_player(&ids[0]), Ok(()));
    assert_eq!(game_manager.get_player_display_name(&ids[0]), None);
    assert!(game_manager.player_uuids_to_display_names.is_empty());
    assert!(game_manager.player_uuids_to_game_id.is_empty());
    assert!(game_manager.games_by_game_id.is_empty());
}

#[test]
fn creating_then_leaving_a_game_restores_the_games() {
    let (mut game_manager, ids) = manager_with_players(&["Tommy", "Anna"]);
    let game_id = game_manager
        .create_game(ids[1], "Anna's table".to_string())
        .unwrap();
    let first = game_manager.create_game(ids[0], "Game 1".to_string()).unwrap();
    assert_ne!(first, game_id);
    assert_eq!(game_manager.games_by_game_id.len(), 2);
    assert_eq!(game_manager.leave_game(&ids[0]), Ok(()));
    assert_eq!(game_manager.games_by_game_id.len(), 1);
    assert_eq!(game_manager.games_by_game_id[0].0, game_id);
    assert_eq!(game_manager.player_uuids_to_game_id, vec![(ids[1], game_id)]);
}

#[test]
fn joining_then_leaving_a_game_restores_its_players() {
    let (mut game_manager, ids) = manager_with_players(&["Tommy", "Anna"]);
    let game_id = game_manager.create_game(ids[0], "Game 1".to_string()).unwrap();
    assert_eq!(game_manager.join_game(ids[1], game_id), Ok(()));
    assert_eq!(game_manager.games_by_game_id[0].1.players.len(), 2);
    assert_eq!(game_manager.leave_game(&ids[1]), Ok(()));
    let players: Vec<PlayerUUID> = game_manager.games_by_game_id[0]
        .1
        .players
        .iter()
        .map(|(id, _)| *id)
        .collect();
    assert_eq!(players, vec![ids[0]]);
    assert_eq!(game_manager.player_uuids_to_game_id, vec![(ids[0], game_id)]);
}

#[test]
fn removing_a_player_in_a_game_takes_them_out_of_it() {
    let (mut game_manager, ids) = manager_with_players(&["Tommy", "Anna"]);
    let game_id = game_manager.create_game(ids[0], "Game 1".to_string()).unwrap();
    game_manager.join_game(ids[1], game_id).unwrap();
    assert_eq!(game_manager.remove_player(&ids[1]), Ok(()));
    assert_eq!(game_manager.games_by_game_id[0].1.players.len(), 1);
    assert_eq!(game_manager.remove_player(&ids[0]), Ok(()));
    assert!(game_manager.games_by_game_id.is_empty());
    assert!(game_manager.player_uuids_to_game_id.is_empty());
}

#[test]
fn join_game_errors() {
    let (mut game_manager, ids) = manager_with_players(&["Tommy", "Anna"]);
    let game_id = game_manager.create_game(ids[0], "Game 1".to_string()).unwrap();
    assert_eq!(
        game_manager.join_game(PlayerUUID::new(), game_id),
        Err(Error::new("Player does not exist"))
    );
    assert_eq!(
        game_manager.join_game(ids[0], game_id),
        Err(Error::new("Player is already in a game"))
    );
    assert_eq!(
        game_manager.join_game(ids[1], GameUUID::new()),
        Err(Error::new("Game does not exist"))
    );
    assert_eq!(game_manager.games_by_game_id[0].1.players.len(), 1);
}

#[test]
fn leave_and_create_game_errors() {
    let (mut game_manager, ids) = manager_with_players(&["Tommy"]);
    assert_eq!(
        game_manager.leave_game(&PlayerUUID::new()),
        Err(Error::new("Player does not exist"))
    );
    assert_eq!(
        game_manager.leave_game(&ids[0]),
        Err(Error::new("Player is not in a game"))
    );
    assert_eq!(
        game_manager.create_game(PlayerUUID::new(), "Game 1".to_string()),
        Err(Error::new("Player does not exist"))
    );
    assert!(game_manager.games_by_game_id.is_empty());
}

#[test]
fn game_actions_need_a_player_in_a_game() {
    let (mut game_manager, ids) = manager_with_players(&["Tommy"]);
    let stranger = PlayerUUID::new();
    assert_eq!(
        game_manager.start_game(&stranger),
        Err(Error::new("Player does not exist"))
    );
    assert_eq!(
        game_manager.start_game(&ids[0]),
        Err(Error::new("Player is not in a game"))
    );
    assert_eq!(
        game_manager.select_character(&ids[0], Character::Zot),
        Err(Error::new("Player is not in a game"))
    );
    assert_eq!(
        game_manager.pass(&ids[0]),
        Err(Error::new("Player is not in a game"))
    );
    assert_eq!(
        game_manager.order_drink(&ids[0], &stranger),
        Err(Error::new("Player is not in a game"))
    );
    assert_eq!(
        game_manager.discard_cards_and_draw_to_full(&ids[0], Vec::new()),
        Err(Error::new("Player is not in a game"))
    );
    assert_eq!(
        game_manager.play_card(&ids[0], &None, 0),
        Err(Error::new("Player is not in a game"))
    );
    assert_eq!(
        game_manager.get_game_view(stranger).unwrap_err(),
        Error::new("Player does not exist")
    );
    assert_eq!(
        game_manager.get_game_view(ids[0]).unwrap_err(),
        Error::new("Player is not in a game")
    );
}

#[test]
fn actions_on_a_game_never_started_are_refused() {
    let (mut game_manager, ids) = manager_with_players(&["Tommy", "Anna"]);
    let game_id = game_manager.create_game(ids[0], "Game 1".to_string()).unwrap();
    game_manager.join_game(ids[1], game_id).unwrap();
    let not_running = Err(Error::new("Game is not currently running"));
    assert_eq!(game_manager.pass(&ids[0]), not_running);
    assert_eq!(game_manager.play_card(&ids[0], &None, 0), not_running);
    assert_eq!(game_manager.order_drink(&ids[0], &ids[1]), not_running);
    assert_eq!(
        game_manager.discard_cards_and_draw_to_full(&ids[0], Vec::new()),
        not_running
    );
}

#[test]
fn cards_can_only_be_directed_at_players_of_the_same_game() {
    let (mut game_manager, ids) = manager_with_players(&["Tommy", "Anna", "Zed"]);
    let game_id = game_manager.create_game(ids[0], "Game 1".to_string()).unwrap();
    game_manager.join_game(ids[1], game_id).unwrap();
    assert_eq!(
        game_manager.play_card(&ids[0], &Some(ids[2]), 0),
        Err(Error::new(
            "Other player is not in the same game or does not exist"
        ))
    );
    assert_eq!(
        game_manager.play_card(&ids[0], &Some(PlayerUUID::new()), 0),
        Err(Error::new(
            "Other player is not in the same game or does not exist"
        ))
    );
}

#[test]
fn starting_a_game_checks_owner_characters_and_player_count() {
    let (mut game_manager, ids) = manager_with_players(&["Tommy", "Anna"]);
    let game_id = game_manager.create_game(ids[0], "Game 1".to_string()).unwrap();
    assert_eq!(
        game_manager.start_game(&ids[0]),
        Err(Error::new("Not all players have selected a character"))
    );
    game_manager.select_character(&ids[0], Character::Deirdre).unwrap();
    assert_eq!(
        game_manager.start_game(&ids[0]),
        Err(Error::new("Must have between 2 and 8 players"))
    );
    game_manager.join_game(ids[1], game_id).unwrap();
    assert_eq!(
        game_manager.start_game(&ids[1]),
        Err(Error::new("Must be game owner to start game"))
    );
    game_manager.select_character(&ids[1], Character::Gerki).unwrap();
    assert_eq!(game_manager.start_game(&ids[0]), Ok(()));
    assert_eq!(
        game_manager.start_game(&ids[0]),
        Err(Error::new("Game is already running"))
    );
    assert_eq!(
        game_manager.select_character(&ids[1], Character::Zot),
        Err(Error::new("Cannot change characters while game is running"))
    );
}

#[test]
fn game_view_shows_the_started_game_to_a_player() {
    let (mut game_manager, ids) = manager_with_players(&["Tommy", "Anna"]);
    let game_id = game_manager.create_game(ids[0], "Game 1".to_string()).unwrap();
    game_manager.join_game(ids[1], game_id).unwrap();
    let before = game_manager.get_game_view(ids[1]).unwrap();
    assert!(!before.is_running);
    assert_eq!(before.current_turn_player_uuid, None);
    assert!(!before.can_pass);
    game_manager.select_character(&ids[0], Character::Deirdre).unwrap();
    game_manager.select_character(&ids[1], Character::Gerki).unwrap();
    game_manager.start_game(&ids[0]).unwrap();
    let view = game_manager.get_game_view(ids[1]).unwrap();
    assert_eq!(view.game_name, "Game 1");
    assert_eq!(view.self_player_uuid, ids[1]);
    assert!(view.is_running);
    assert_eq!(view.winner_uuid, None);
    assert_eq!(view.current_turn_player_uuid, Some(ids[0]));
    assert_eq!(view.current_turn_phase, Some(TurnPhase::DiscardAndDraw));
    assert_eq!(
        view.player_display_names,
        vec![(ids[0], "Tommy".to_string()), (ids[1], "Anna".to_string())]
    );
    assert_eq!(view.player_data.len(), 2);
    assert_eq!(view.player_data[0].player_uuid, ids[0]);
    assert_eq!(view.player_data[0].gold, 8);
    assert_eq!(view.player_data[1].fortitude, 20);
    assert!(view.interrupts.is_none());
}

#[test]
fn listed_games_come_in_dictionary_order_of_names() {
    let (mut game_manager, ids) = manager_with_players(&["A", "B", "C", "D"]);
    game_manager.create_game(ids[0], "b".to_string()).unwrap();
    game_manager.create_game(ids[1], "a".to_string()).unwrap();
    let upper = game_manager.create_game(ids[2], "C".to_string()).unwrap();
    game_manager.create_game(ids[3], "ab".to_string()).unwrap();
    let listed = game_manager.list_games().listed_game_views;
    let names: Vec<&str> = listed.iter().map(|v| v.game_name.as_str()).collect();
    assert_eq!(names, vec!["C", "a", "ab", "b"]);
    assert_eq!(listed[0].game_uuid, upper);
    assert!(listed.iter().all(|v| v.player_count == 1));
}

#[test]
fn dictionary_order_of_texts() {
    assert!(text_le_exec("", ""));
    assert!(text_le_exec("", "a"));
    assert!(!text_le_exec("a", ""));
    assert!(text_le_exec("ab", "b"));
    assert!(!text_le_exec("b", "ab"));
    assert!(text_le_exec("Zebra", "apple"));
    assert!(text_le_exec("same", "same"));
    assert!(text_le_exec("caf", "café"));
    assert!(!text_le_exec("é", "z"));
}

#[test]
fn character_names_are_read_in_any_case() {
    assert_eq!(Character::from_str("FiOnA"), Ok(Character::Fiona));
    assert_eq!(Character::from_str("zot"), Ok(Character::Zot));
    assert_eq!(Character::from_str("DEIRDRE"), Ok(Character::Deirdre));
    assert_eq!(Character::from_str("Gerki"), Ok(Character::Gerki));
    assert_eq!(
        Character::from_str("Nobody"),
        Err("Character does not exist with specified name".to_string())
    );
}

#[test]
fn shuffled_deck_keeps_its_cards_and_reshuffles_the_discards() {
    let mut deck = AutoShufflingDeck::new(vec![1u64, 2, 3, 4, 5]);
    assert_eq!(deck.draw_pile_size(), 5);
    let mut drawn = Vec::new();
    while let Some(card) = deck.draw_card() {
        drawn.push(card);
        if drawn.len() == 5 {
            break;
        }
    }
    drawn.sort();
    assert_eq!(drawn, vec![1, 2, 3, 4, 5]);
    assert_eq!(deck.draw_card(), None);
    for card in drawn {
        deck.discard_card(card);
    }
    assert_eq!(deck.discard_pile_size(), 5);
    let first = deck.draw_card().unwrap();
    assert_eq!(deck.discard_pile_size(), 0);
    assert_eq!(deck.draw_pile_size(), 4);
    assert!((1..=5).contains(&first));
}

#[test]
fn passing_is_allowed_exactly_when_pass_succeeds() {
    let player1_uuid = PlayerUUID::new();
    let player2_uuid = PlayerUUID::new();
    let mut game_logic = GameLogic::new(vec![
        (player1_uuid, Character::Deirdre),
        (player2_uuid, Character::Gerki),
    ])
    .unwrap();
    game_logic
        .discard_cards_and_draw_to_full(&player1_uuid, Vec::new())
        .unwrap();
    assert!(!game_logic.player_can_pass(&player2_uuid));
    assert_eq!(
        game_logic.pass(&player2_uuid),
        Err(Error::new("Cannot pass at this time"))
    );
    assert!(game_logic.player_can_pass(&player1_uuid));
    assert_eq!(game_logic.pass(&player1_uuid), Ok(()));
    assert_eq!(game_logic.get_turn_phase(), TurnPhase::OrderDrinks);
    assert!(!game_logic.player_can_pass(&player1_uuid));
    assert!(game_logic.pass(&player1_uuid).is_err());
}

#[test]
fn drinks_are_ordered_only_in_the_drink_phase() {
    let player1_uuid = PlayerUUID::new();
    let player2_uuid = PlayerUUID::new();
    let mut game_logic = GameLogic::new(vec![
        (player1_uuid, Character::Deirdre),
        (player2_uuid, Character::Gerki),
    ])
    .unwrap();
    assert_eq!(
        game_logic.order_drink(&player1_uuid, &player2_uuid),
        Err(Error::new("Cannot order drinks at this time"))
    );
    assert_eq!(
        game_logic.order_drink(&player2_uuid, &player1_uuid),
        Err(Error::new("Cannot order drinks at this time"))
    );
}

#[test]
fn a_fresh_game_gives_every_player_the_starting_stats() {
    let ids: Vec<PlayerUUID> = (0..3).map(|_| PlayerUUID::new()).collect();
    let game_logic = GameLogic::new(vec![
        (ids[0], Character::Fiona),
        (ids[1], Character::Zot),
        (ids[2], Character::Gerki),
    ])
    .unwrap();
    for id in &ids {
        let data = game_logic
            .player_manager
            .get_player_by_uuid(id)
            .unwrap()
            .to_game_view_player_data(*id);
        assert_eq!(data.gold, 10);
        assert_eq!(data.fortitude, 20);
        assert_eq!(data.alcohol_content, 0);
        assert_eq!(data.drink_me_pile_size, 0);
        assert!(!data.is_dead);
    }
    assert_eq!(game_logic.get_turn_phase(), TurnPhase::DiscardAndDraw);
    assert_eq!(game_logic.get_turn_info().get_current_player_turn(), ids[0]);
}

fn owned_card_count(game_logic: &GameLogic, id: &PlayerUUID) -> usize {
    let mut n = 0;
    for (player_id, player) in game_logic.player_manager.players.iter() {
        if player_id == id {
            n += player.hand.len() + player.deck.draw_pile_size() + player.deck.discard_pile_size();
        }
    }
    for stack in game_logic.interrupt_manager.interrupt_stacks.iter() {
        if let InterruptRoot::RootPlayerCard(root) = &stack.root {
            if root.root_card_owner_uuid == *id {
                n += 1;
            }
        }
        for session in stack.sessions.iter() {
            n += session
                .interrupt_cards
                .iter()
                .filter(|data| data.card_owner_uuid == *id)
                .count();
        }
    }
    n
}

#[test]
fn playing_and_passing_never_create_or_lose_cards() {
    for _ in 0..20 {
        let ids = [PlayerUUID::new(), PlayerUUID::new(), PlayerUUID::new()];
        let mut game_logic = GameLogic::new(vec![
            (ids[0], Character::Deirdre),
            (ids[1], Character::Gerki),
            (ids[2], Character::Zot),
        ])
        .unwrap();
        let counts: Vec<usize> = ids.iter().map(|id| owned_card_count(&game_logic, id)).collect();
        let check = |game_logic: &GameLogic| {
            for (k, id) in ids.iter().enumerate() {
                assert_eq!(owned_card_count(game_logic, id), counts[k]);
            }
        };
        game_logic
            .discard_cards_and_draw_to_full(&ids[0], vec![1, 0])
            .unwrap();
        check(&game_logic);
        for idx in (0..8).rev() {
            for target in [None, Some(ids[1]), Some(ids[0])] {
                let _ = game_logic.play_card(&ids[0], &target, idx);
                check(&game_logic);
                for _ in 0..10 {
                    let passer = ids.iter().find(|id| game_logic.player_can_pass(id)).copied();
                    match passer {
                        Some(id) if game_logic.interrupt_manager.interrupt_in_progress() => {
                            game_logic.pass(&id).unwrap();
                            check(&game_logic);
                        }
                        _ => break,
                    }
                }
            }
        }
    }
}

#[test]
fn new_decks_come_shuffled() {
    let ordered: Vec<u64> = (0..20).collect();
    let mut saw_other_order = false;
    for _ in 0..10 {
        let mut deck = AutoShufflingDeck::new(ordered.clone());
        let mut drawn = Vec::new();
        while let Some(card) = deck.draw_card() {
            drawn.push(card);
            if drawn.len() == ordered.len() {
                break;
            }
        }
        let mut sorted = drawn.clone();
        sorted.sort();
        assert_eq!(sorted, ordered);
        let mut top_first: Vec<u64> = ordered.clone();
        top_first.reverse();
        if drawn != top_first {
            saw_other_order = true;
        }
    }
    assert!(saw_other_order);
}

#[test]
fn creating_a_game_with_a_taken_identifier_is_refused() {
    let (mut game_manager, ids) = manager_with_players(&["Tommy", "Anna"]);
    let game_id = GameUUID::from_u128(7);
    assert_eq!(
        game_manager.create_game_with_id(ids[0], "Game 1".to_string(), game_id),
        Ok(game_id)
    );
    assert_eq!(
        game_manager.create_game_with_id(ids[1], "Game 2".to_string(), game_id),
        Err(Error::new("Game identifier already in use"))
    );
    assert_eq!(game_manager.games_by_game_id.len(), 1);
    assert_eq!(game_manager.player_uuids_to_game_id.len(), 1);
    let other_id = GameUUID::from_u128(8);
    assert_eq!(
        game_manager.create_game_with_id(ids[1], "Game 2".to_string(), other_id),
        Ok(other_id)
    );
    assert_eq!(game_manager.games_by_game_id.len(), 2);
    assert_eq!(
        game_manager.create_game_with_id(ids[1], "Game 3".to_string(), GameUUID::from_u128(9)),
        Err(Error::new("Player is already in a game"))
    );
}
