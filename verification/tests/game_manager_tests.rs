use tavern_game::game_manager::GameManager;
use tavern_game::{Error, PlayerUUID};

#[test]
fn can_add_and_remove_player_without_error() {
    let mut game_manager = GameManager::new();

    let player_uuid = PlayerUUID::new();

    assert!(game_manager
        .add_player(player_uuid.clone(), String::from("Tommy"))
        .is_ok());
    assert!(game_manager.remove_player(&player_uuid).is_ok());
}

#[test]
fn cannot_add_player_twice() {
    let mut game_manager = GameManager::new();

    let player_uuid = PlayerUUID::new();

    game_manager
        .add_player(player_uuid.clone(), String::from("Tommy"))
        .unwrap();
    assert_eq!(
        game_manager
            .add_player(player_uuid, String::from("Tommy"))
            .unwrap_err(),
        Error::new("Player already exists")
    );
}

#[test]
fn cannot_remove_player_that_does_not_exist() {
    let mut game_manager = GameManager::new();

    let player_uuid = PlayerUUID::new();

    assert_eq!(
        game_manager.remove_player(&player_uuid).unwrap_err(),
        Error::new("Player does not exist")
    );

    game_manager
        .add_player(player_uuid.clone(), String::from("Tommy"))
        .unwrap();
    game_manager.remove_player(&player_uuid).unwrap();

    assert_eq!(
        game_manager.remove_player(&player_uuid).unwrap_err(),
        Error::new("Player does not exist")
    );
}

#[test]
fn empty_games_are_removed() {
    let mut game_manager = GameManager::new();

    let player_uuid = PlayerUUID::new();

    game_manager
        .add_player(player_uuid.clone(), String::from("Tommy"))
        .unwrap();
    game_manager
        .create_game(player_uuid.clone(), "Game 1".to_string())
        .unwrap();

    assert_eq!(game_manager.games_by_game_id.len(), 1);
    assert_eq!(game_manager.leave_game(&player_uuid), Ok(()));
    assert_eq!(game_manager.games_by_game_id.len(), 0);
    assert_eq!(
        game_manager.leave_game(&player_uuid),
        Err(Error::new("Player is not in a game"))
    );
}

#[test]
fn cannot_create_game_when_you_are_already_in_one() {
    let mut game_manager = GameManager::new();

    let player_uuid = PlayerUUID::new();

    game_manager
        .add_player(player_uuid.clone(), String::from("Tommy"))
        .unwrap();
    game_manager
        .create_game(player_uuid.clone(), "Game 1".to_string())
        .unwrap();
    assert_eq!(
        game_manager.create_game(player_uuid.clone(), "Game 1".to_string()),
        Err(Error::new("Player is already in a game"))
    );

    assert_eq!(game_manager.games_by_game_id.len(), 1);
}
