use tavern_game::game::{Character, Game};
use tavern_game::PlayerUUID;

#[test]
fn can_perform_full_round() {
    // We're running this loop many times to make sure that the test isn't flaky.
    for _ in 1..100 {
        // Setup game with 2 players.
        let mut game = Game::new("Test Game".to_string());
        let player1_uuid = PlayerUUID::new();
        let player2_uuid = PlayerUUID::new();
        assert_eq!(game.join(player1_uuid.clone()), Ok(()));
        assert_eq!(game.join(player2_uuid.clone()), Ok(()));
        assert_eq!(
            game.select_character(&player1_uuid, Character::Deirdre),
            Ok(())
        );
        assert_eq!(
            game.select_character(&player2_uuid, Character::Gerki),
            Ok(())
        );
        assert_eq!(game.start(&player1_uuid), Ok(()));

        pass_until_game_ends_2_player_game(&mut game, &player1_uuid, &player2_uuid);

        // Players can change characters after the game ends.
        assert_eq!(
            game.select_character(&player1_uuid, Character::Deirdre),
            Ok(())
        );
        assert_eq!(game.start(&player1_uuid), Ok(()));

        pass_until_game_ends_2_player_game(&mut game, &player1_uuid, &player2_uuid);
    }
}

/// Whether a drink is still being settled: the game has no separate drink
/// phase, so this is an interrupt (a drink's) still waiting for passes.
fn drink_in_progress(game: &Game) -> bool {
    game.get_game_logic()
        .unwrap()
        .interrupt_manager
        .interrupt_in_progress()
}

fn pass_until_game_ends_2_player_game(
    game: &mut Game,
    player1_uuid: &PlayerUUID,
    player2_uuid: &PlayerUUID,
) {
    loop {
        if !game.get_game_logic().unwrap().is_running() {
            break;
        }

        assert_eq!(
            game.discard_cards_and_draw_to_full(player1_uuid, Vec::new()),
            Ok(())
        );
        assert_eq!(game.pass(player1_uuid), Ok(()));
        assert_eq!(game.order_drink(player1_uuid, player2_uuid), Ok(()));

        while game.get_game_logic().unwrap().is_running() && drink_in_progress(game) {
            if game.player_can_pass(player1_uuid) {
                game.pass(player1_uuid).unwrap();
            } else if game.player_can_pass(player2_uuid) {
                game.pass(player2_uuid).unwrap();
            } else {
                panic!("Neither player can pass");
            }
        }

        if !game.get_game_logic().unwrap().is_running() {
            break;
        }

        assert_eq!(
            game.discard_cards_and_draw_to_full(player2_uuid, Vec::new()),
            Ok(())
        );
        assert_eq!(game.pass(player2_uuid), Ok(()));
        assert_eq!(game.order_drink(player2_uuid, player1_uuid), Ok(()));

        while game.get_game_logic().unwrap().is_running() && drink_in_progress(game) {
            if game.player_can_pass(player1_uuid) {
                game.pass(player1_uuid).unwrap();
            } else if game.player_can_pass(player2_uuid) {
                game.pass(player2_uuid).unwrap();
            } else {
                panic!("Neither player can pass");
            }
        }
    }
}
