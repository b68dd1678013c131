# tavern_game

The rules engine of a tavern card game for two to eight players: they
gamble, hurt and heal each other with action cards, interrupt one another's
cards, and order drinks for each other until only one is left standing.
The library is written in Verus; its functions carry contracts, and the
contracts are proved.

## Layout

- `src/` the verified library
  - `game_manager.rs` players, their display names and the games they are in
  - `game.rs` one game: joining, characters, starting, and the view shown to
    a player
  - `game_logic.rs` the turn: discarding and drawing, playing cards, passing,
    ordering drinks
  - `interrupt_manager.rs` interrupt stacks and their resolution
  - `gambling_manager.rs` rounds of gambling
  - `player.rs`, `player_manager.rs`, `player_card.rs`, `drink.rs`,
    `deck.rs` players, cards, drinks and shuffling decks
  - `consistency.rs` the invariant of a running game and its proofs, and
    what a refused play or discard leaves unchanged
  - `conservation.rs` no operation creates or loses a player card, and
    resolving an interrupt hands back each card exactly once
  - `requests.rs` reading request parameters and routing unknown paths
  - `uuid.rs`, `text.rs`, `error.rs` identifiers, numbers as text, errors
- `tests/` tests run against the compiled library
- `app/` the HTTP server (Rocket) around the library
