use crate::error::Error;
use crate::game::{
    all_named, listed, card_played, cards_discarded, character_selected, discard_ready, drink_ordered,
    game_ok, game_started, game_view_ok, order_ready, player_passed, without_player, Character,
    Game,
};
use crate::game_logic::res_msg;
use crate::player_manager::{lemma_uuid_index, uuid_index};
use crate::player_view::{GameView, ListedGameView, ListedGameViewCollection};
use crate::uuid::{GameUUID, PlayerUUID};
use vstd::prelude::*;
use vstd::string::StrSliceExecFns;

verus! {

/// The games being played and the players known to the server: each
/// player's display name, the game each player is in, and each game by its
/// identifier.
#[derive(Debug)]
pub struct GameManager {
    pub games_by_game_id: Vec<(GameUUID, Game)>,
    pub player_uuids_to_game_id: Vec<(PlayerUUID, GameUUID)>,
    pub player_uuids_to_display_names: Vec<(PlayerUUID, String)>,
}

/// The position of the first entry for game `g`, or -1.
pub open spec fn game_index<T>(entries: Seq<(GameUUID, T)>, g: GameUUID) -> int
    decreases entries.len(),
{
    if entries.len() == 0 {
        -1
    } else if entries[0].0 == g {
        0
    } else {
        let r = game_index(entries.drop_first(), g);
        if r < 0 {
            -1
        } else {
            r + 1
        }
    }
}

/// No two entries are for the same player.
pub open spec fn player_keys_unique<T>(entries: Seq<(PlayerUUID, T)>) -> bool {
    forall|i: int, j: int|
        0 <= i < entries.len() && 0 <= j < entries.len() && i != j ==> #[trigger] entries[i].0
            != #[trigger] entries[j].0
}

/// No two entries are for the same game.
pub open spec fn game_keys_unique<T>(entries: Seq<(GameUUID, T)>) -> bool {
    forall|i: int, j: int|
        0 <= i < entries.len() && 0 <= j < entries.len() && i != j ==> #[trigger] entries[i].0
            != #[trigger] entries[j].0
}

/// The player has a display name.
pub open spec fn named(m: GameManager, u: PlayerUUID) -> bool {
    uuid_index(m.player_uuids_to_display_names@, u) >= 0
}

/// The player is in a game.
pub open spec fn seated_in_game(m: GameManager, u: PlayerUUID) -> bool {
    uuid_index(m.player_uuids_to_game_id@, u) >= 0
}

/// The identifier of the game the player is in (meaningful when seated).
pub open spec fn game_id_of(m: GameManager, u: PlayerUUID) -> GameUUID {
    m.player_uuids_to_game_id@[uuid_index(m.player_uuids_to_game_id@, u)].1
}

/// The position of the game the player is in (meaningful when seated).
pub open spec fn game_pos(m: GameManager, u: PlayerUUID) -> int {
    game_index(m.games_by_game_id@, game_id_of(m, u))
}

/// A seated player has a name, and the game they are in exists and counts
/// them among its players.
pub open spec fn seat_ok(m: GameManager, u: PlayerUUID) -> bool {
    &&& named(m, u)
    &&& 0 <= game_pos(m, u) < m.games_by_game_id@.len()
    &&& uuid_index(m.games_by_game_id@[game_pos(m, u)].1.players@, u) >= 0
}

/// The game at position `i` is consistent and has players, each of them
/// recorded as being in it.
pub open spec fn game_entry_ok(m: GameManager, i: int) -> bool {
    let g = m.games_by_game_id@[i];
    &&& game_ok(g.1)
    &&& g.1.players@.len() > 0
    &&& forall|u: PlayerUUID|
        #[trigger] uuid_index(g.1.players@, u) >= 0 ==> seated_in_game(m, u) && game_id_of(m, u)
            == g.0
}

/// The manager is consistent: one entry per player and per game, every
/// seated player named and in their game, every game consistent and never
/// empty, each of its players seated in it.
pub open spec fn manager_wf(m: GameManager) -> bool {
    &&& player_keys_unique(m.player_uuids_to_display_names@)
    &&& player_keys_unique(m.player_uuids_to_game_id@)
    &&& game_keys_unique(m.games_by_game_id@)
    &&& forall|u: PlayerUUID| #[trigger] seated_in_game(m, u) ==> seat_ok(m, u)
    &&& forall|i: int| 0 <= i < m.games_by_game_id@.len() ==> #[trigger] game_entry_ok(m, i)
}

/// `game_index` is the first position holding the game.
pub proof fn lemma_game_index<T>(entries: Seq<(GameUUID, T)>, g: GameUUID)
    ensures
        -1 <= game_index(entries, g) < entries.len(),
        game_index(entries, g) >= 0 ==> entries[game_index(entries, g)].0 == g,
        forall|j: int|
            0 <= j < entries.len() && (game_index(entries, g) < 0 || j < game_index(entries, g))
                ==> #[trigger] entries[j].0 != g,
    decreases entries.len(),
{
    if entries.len() > 0 && entries[0].0 != g {
        let rest = entries.drop_first();
        lemma_game_index(rest, g);
        assert forall|j: int|
            0 <= j < entries.len() && (game_index(entries, g) < 0 || j < game_index(entries, g))
                implies #[trigger] entries[j].0 != g by {
            if j > 0 {
                assert(entries[j] == rest[j - 1]);
            }
        }
        if game_index(entries, g) >= 0 {
            assert(entries[game_index(entries, g)] == rest[game_index(rest, g)]);
        }
    }
}

/// With one entry per player, the entry for a player is where their
/// identifier stands, and a player with no entry has none.
pub proof fn lemma_unique_uuid_index<T>(entries: Seq<(PlayerUUID, T)>, u: PlayerUUID, k: int)
    requires
        player_keys_unique(entries),
    ensures
        0 <= k < entries.len() && entries[k].0 == u ==> uuid_index(entries, u) == k,
        (forall|j: int| 0 <= j < entries.len() ==> #[trigger] entries[j].0 != u) ==> uuid_index(
            entries,
            u,
        ) == -1,
{
    lemma_uuid_index(entries, u);
    let i = uuid_index(entries, u);
    if 0 <= k < entries.len() && entries[k].0 == u {
        if i >= 0 && i != k {
            assert(entries[i].0 != entries[k].0);
        }
    }
    if i >= 0 {
        assert(entries[i].0 == u);
    }
}

/// With one entry per game, the entry for a game is where its identifier
/// stands, and a game with no entry has none.
pub proof fn lemma_unique_game_index<T>(entries: Seq<(GameUUID, T)>, g: GameUUID, k: int)
    requires
        game_keys_unique(entries),
    ensures
        0 <= k < entries.len() && entries[k].0 == g ==> game_index(entries, g) == k,
        (forall|j: int| 0 <= j < entries.len() ==> #[trigger] entries[j].0 != g) ==> game_index(
            entries,
            g,
        ) == -1,
{
    lemma_game_index(entries, g);
    let i = game_index(entries, g);
    if 0 <= k < entries.len() && entries[k].0 == g {
        if i >= 0 && i != k {
            assert(entries[i].0 != entries[k].0);
        }
    }
    if i >= 0 {
        assert(entries[i].0 == g);
    }
}

/// Every identifier that stands in a list of players is found in it.
pub proof fn lemma_uuid_found<T>(entries: Seq<(PlayerUUID, T)>, k: int)
    requires
        0 <= k < entries.len(),
    ensures
        uuid_index(entries, entries[k].0) >= 0,
{
    lemma_uuid_index(entries, entries[k].0);
}

/// Two lists with the same identifiers at the same positions find each
/// identifier at the same position.
pub proof fn lemma_uuid_index_same_keys<T, S>(
    a: Seq<(PlayerUUID, T)>,
    b: Seq<(PlayerUUID, S)>,
    u: PlayerUUID,
)
    requires
        a.len() == b.len(),
        forall|j: int| 0 <= j < a.len() ==> #[trigger] a[j].0 == b[j].0,
    ensures
        uuid_index(a, u) == uuid_index(b, u),
    decreases a.len(),
{
    if a.len() > 0 {
        lemma_uuid_index_same_keys(a.drop_first(), b.drop_first(), u);
        assert(a[0].0 == b[0].0);
    }
}

/// A player is in a list once another player left it exactly when they
/// were in it before.
pub proof fn lemma_without_player(
    players: Seq<(PlayerUUID, Option<Character>)>,
    u: PlayerUUID,
    v: PlayerUUID,
)
    ensures
        (uuid_index(without_player(players, u), v) >= 0) == (v != u && uuid_index(players, v)
            >= 0),
    decreases players.len(),
{
    if players.len() > 0 {
        let rest = players.drop_last();
        lemma_without_player(rest, u, v);
        lemma_uuid_index(players, v);
        lemma_uuid_index(rest, v);
        let w = without_player(rest, u);
        lemma_uuid_index(w, v);
        if players.last().0 != u {
            lemma_uuid_index(w.push(players.last()), v);
            if uuid_index(w.push(players.last()), v) >= 0 {
                let k = uuid_index(w.push(players.last()), v);
                if k < w.len() {
                    assert(w.push(players.last())[k] == w[k]);
                }
            }
            if uuid_index(w, v) >= 0 {
                assert(w.push(players.last())[uuid_index(w, v)] == w[uuid_index(w, v)]);
                lemma_uuid_index(w.push(players.last()), v);
            }
            if v == players.last().0 {
                assert(w.push(players.last())[w.len() as int].0 == v);
            }
        }
        if uuid_index(rest, v) >= 0 {
            assert(players[uuid_index(rest, v)] == rest[uuid_index(rest, v)]);
        }
        if uuid_index(players, v) >= 0 {
            let k = uuid_index(players, v);
            if k < rest.len() {
                assert(players[k] == rest[k]);
            }
        }
    }
}

/// Removing an entry from a list with one entry per player keeps one entry
/// per player, and every other player's entry.
pub proof fn lemma_seat_remove<T>(s: Seq<(PlayerUUID, T)>, si: int, w: PlayerUUID)
    requires
        player_keys_unique(s),
        0 <= si < s.len(),
    ensures
        player_keys_unique(s.remove(si)),
        (uuid_index(s.remove(si), w) >= 0) == (uuid_index(s, w) >= 0 && w != s[si].0),
        uuid_index(s.remove(si), w) >= 0 ==> s.remove(si)[uuid_index(s.remove(si), w)] == s[uuid_index(
            s,
            w,
        )],
{
    let t = s.remove(si);
    assert forall|i: int, j: int|
        0 <= i < t.len() && 0 <= j < t.len() && i != j implies #[trigger] t[i].0
        != #[trigger] t[j].0 by {
        let i0 = if i < si { i } else { i + 1 };
        let j0 = if j < si { j } else { j + 1 };
        assert(t[i] == s[i0] && t[j] == s[j0]);
    }
    lemma_uuid_index(s, w);
    lemma_uuid_index(t, w);
    let k = uuid_index(s, w);
    if k >= 0 && w != s[si].0 {
        let k1 = if k < si { k } else { k - 1 };
        assert(t[k1] == s[k]);
        lemma_unique_uuid_index(t, w, k1);
    }
    let k1 = uuid_index(t, w);
    if k1 >= 0 {
        let k0 = if k1 < si { k1 } else { k1 + 1 };
        assert(t[k1] == s[k0]);
        lemma_unique_uuid_index(s, w, k0);
    }
}

/// Removing an entry from a list with one entry per game keeps one entry
/// per game, and every other game's entry.
pub proof fn lemma_game_remove<T>(s: Seq<(GameUUID, T)>, gi: int, g: GameUUID)
    requires
        game_keys_unique(s),
        0 <= gi < s.len(),
    ensures
        game_keys_unique(s.remove(gi)),
        (game_index(s.remove(gi), g) >= 0) == (game_index(s, g) >= 0 && g != s[gi].0),
        game_index(s.remove(gi), g) >= 0 ==> game_index(s.remove(gi), g) == (if game_index(s, g)
            < gi {
            game_index(s, g)
        } else {
            game_index(s, g) - 1
        }),
{
    let t = s.remove(gi);
    assert forall|i: int, j: int|
        0 <= i < t.len() && 0 <= j < t.len() && i != j implies #[trigger] t[i].0
        != #[trigger] t[j].0 by {
        let i0 = if i < gi { i } else { i + 1 };
        let j0 = if j < gi { j } else { j + 1 };
        assert(t[i] == s[i0] && t[j] == s[j0]);
    }
    lemma_game_index(s, g);
    lemma_game_index(t, g);
    let k = game_index(s, g);
    if k >= 0 && g != s[gi].0 {
        let k1 = if k < gi { k } else { k - 1 };
        assert(t[k1] == s[k]);
        lemma_unique_game_index(t, g, k1);
    }
    let k1 = game_index(t, g);
    if k1 >= 0 {
        let k0 = if k1 < gi { k1 } else { k1 + 1 };
        assert(t[k1] == s[k0]);
        lemma_unique_game_index(s, g, k0);
    }
}

/// `after` is `before` with only the entry at `gi` changed, for the same
/// game.
pub open spec fn game_updated(before: Seq<(GameUUID, Game)>, after: Seq<(GameUUID, Game)>, gi: int) -> bool {
    &&& 0 <= gi < before.len()
    &&& after.len() == before.len()
    &&& after[gi].0 == before[gi].0
    &&& forall|j: int| 0 <= j < before.len() && j != gi ==> #[trigger] after[j] == before[j]
}

/// Changing one game's entry, for the same game, keeps one entry per game
/// and where each game stands.
pub proof fn lemma_game_update(s: Seq<(GameUUID, Game)>, t: Seq<(GameUUID, Game)>, gi: int, g: GameUUID)
    requires
        game_keys_unique(s),
        game_updated(s, t, gi),
    ensures
        game_keys_unique(t),
        game_index(t, g) == game_index(s, g),
{
    assert forall|j: int| 0 <= j < s.len() implies #[trigger] t[j].0 == s[j].0 by {
        if j != gi {
            assert(t[j] == s[j]);
        }
    }
    assert forall|i: int, j: int|
        0 <= i < t.len() && 0 <= j < t.len() && i != j implies #[trigger] t[i].0
        != #[trigger] t[j].0 by {
        assert(t[i].0 == s[i].0 && t[j].0 == s[j].0);
    }
    lemma_game_index(s, g);
    lemma_game_index(t, g);
    let k = game_index(s, g);
    if k >= 0 {
        assert(t[k].0 == s[k].0);
        lemma_unique_game_index(t, g, k);
    } else {
        assert forall|j: int| 0 <= j < t.len() implies #[trigger] t[j].0 != g by {
            assert(t[j].0 == s[j].0);
        }
        lemma_unique_game_index(t, g, 0);
    }
}

/// `after` is `before` once `u`, who is in a game, left it: their entry of
/// the games players are in is gone, and so are they from their game's
/// players; a game left with no players is gone.
pub open spec fn left_game(before: GameManager, after: GameManager, u: PlayerUUID) -> bool {
    let gi = game_pos(before, u);
    let games0 = before.games_by_game_id@;
    let games1 = after.games_by_game_id@;
    let g = games0[gi].1;
    let rest = without_player(g.players@, u);
    &&& after.player_uuids_to_game_id@ == before.player_uuids_to_game_id@.remove(
        uuid_index(before.player_uuids_to_game_id@, u),
    )
    &&& rest.len() == 0 ==> games1 == games0.remove(gi)
    &&& rest.len() > 0 ==> {
        &&& game_updated(games0, games1, gi)
        &&& games1[gi].1.players@ == rest
        &&& games1[gi].1.display_name == g.display_name
        &&& games1[gi].1.game_logic_or == g.game_logic_or
    }
}

/// Leaving keeps the manager consistent.
pub proof fn lemma_left_game_wf(m0: GameManager, m1: GameManager, u: PlayerUUID)
    requires
        manager_wf(m0),
        seated_in_game(m0, u),
        left_game(m0, m1, u),
        m1.player_uuids_to_display_names == m0.player_uuids_to_display_names,
    ensures
        manager_wf(m1),
{
    let seats0 = m0.player_uuids_to_game_id@;
    let seats1 = m1.player_uuids_to_game_id@;
    let games0 = m0.games_by_game_id@;
    let games1 = m1.games_by_game_id@;
    let si = uuid_index(seats0, u);
    let gi = game_pos(m0, u);
    let gid = games0[gi].0;
    let g = games0[gi].1;
    let rest = without_player(g.players@, u);
    assert(seat_ok(m0, u));
    lemma_uuid_index(seats0, u);
    lemma_game_index(games0, game_id_of(m0, u));
    assert(gid == game_id_of(m0, u));
    lemma_seat_remove(seats0, si, u);
    if rest.len() == 0 {
        lemma_game_remove(games0, gi, gid);
    } else {
        lemma_game_update(games0, games1, gi, gid);
    }
    // Where a game other than `gid` stands now, with the same entry.
    assert forall|h: GameUUID| h != gid && game_index(games0, h) >= 0 implies game_index(
        games1,
        h,
    ) >= 0 && games1[game_index(games1, h)] == games0[game_index(games0, h)] by {
        lemma_game_index(games0, h);
        if rest.len() == 0 {
            lemma_game_remove(games0, gi, h);
            let k0 = game_index(games0, h);
            let k1 = game_index(games1, h);
            assert(games1[k1] == games0.remove(gi)[k1]);
            assert(k0 != gi);
        } else {
            lemma_game_update(games0, games1, gi, h);
            let k0 = game_index(games0, h);
            assert(k0 != gi);
            assert(games1[k0] == games0[k0]);
        }
    }
    assert forall|v: PlayerUUID| #[trigger] seated_in_game(m1, v) implies seat_ok(m1, v) by {
        lemma_seat_remove(seats0, si, v);
        assert(seated_in_game(m0, v) && v != u);
        assert(seat_ok(m0, v));
        assert(game_id_of(m1, v) == game_id_of(m0, v));
        let hv = game_id_of(m0, v);
        lemma_game_index(games0, hv);
        if hv == gid {
            let k = game_index(games0, hv);
            lemma_unique_game_index(games0, hv, gi);
            lemma_without_player(g.players@, u, v);
            assert(uuid_index(rest, v) >= 0);
            lemma_uuid_index(rest, v);
            assert(rest.len() > 0);
            lemma_game_update(games0, games1, gi, hv);
        }
        lemma_game_index(games1, hv);
    }
    assert forall|i: int| 0 <= i < games1.len() implies #[trigger] game_entry_ok(m1, i) by {
        let i0 = if rest.len() == 0 && i >= gi { i + 1 } else { i };
        assert(games1[i].0 == games0[i0].0) by {
            if rest.len() == 0 {
                assert(games1[i] == games0.remove(gi)[i]);
            } else if i != gi {
                assert(games1[i] == games0[i]);
            }
        }
        assert(game_entry_ok(m0, i0));
        let e1 = games1[i];
        if rest.len() > 0 && i == gi {
            assert(game_ok(e1.1));
            assert forall|w: PlayerUUID| #[trigger] uuid_index(e1.1.players@, w) >= 0 implies seated_in_game(m1, w)
                && game_id_of(m1, w) == e1.0 by {
                lemma_without_player(g.players@, u, w);
                assert(uuid_index(g.players@, w) >= 0);
                assert(seated_in_game(m0, w) && game_id_of(m0, w) == gid);
                lemma_seat_remove(seats0, si, w);
            }
        } else {
            assert(e1 == games0[i0]) by {
                if rest.len() == 0 {
                    assert(games1[i] == games0.remove(gi)[i]);
                } else {
                    assert(games1[i] == games0[i]);
                }
            }
            assert(i0 != gi);
            assert forall|w: PlayerUUID| #[trigger] uuid_index(e1.1.players@, w) >= 0 implies seated_in_game(m1, w)
                && game_id_of(m1, w) == e1.0 by {
                assert(seated_in_game(m0, w) && game_id_of(m0, w) == games0[i0].0);
                if w == u {
                    assert(games0[i0].0 != games0[gi].0);
                }
                lemma_seat_remove(seats0, si, w);
            }
        }
    }
}

/// Forgetting the name of a player who is in no game keeps the manager
/// consistent.
pub proof fn lemma_name_removed_wf(m1: GameManager, m2: GameManager, u: PlayerUUID)
    requires
        manager_wf(m1),
        named(m1, u),
        !seated_in_game(m1, u),
        m2.player_uuids_to_display_names@ == m1.player_uuids_to_display_names@.remove(
            uuid_index(m1.player_uuids_to_display_names@, u),
        ),
        m2.player_uuids_to_game_id == m1.player_uuids_to_game_id,
        m2.games_by_game_id == m1.games_by_game_id,
    ensures
        manager_wf(m2),
{
    let names1 = m1.player_uuids_to_display_names@;
    let ni = uuid_index(names1, u);
    lemma_uuid_index(names1, u);
    lemma_seat_remove(names1, ni, u);
    assert forall|v: PlayerUUID| #[trigger] seated_in_game(m2, v) implies seat_ok(m2, v) by {
        assert(m2.player_uuids_to_game_id@ == m1.player_uuids_to_game_id@);
        assert(seated_in_game(m1, v));
        assert(seat_ok(m1, v));
        lemma_seat_remove(names1, ni, v);
    }
    assert forall|i: int| 0 <= i < m2.games_by_game_id@.len() implies #[trigger] game_entry_ok(
        m2,
        i,
    ) by {
        assert(game_entry_ok(m1, i));
    }
}

/// The position of the player's entry, if any.
fn find_player<T>(entries: &Vec<(PlayerUUID, T)>, player_uuid: &PlayerUUID) -> (r: Option<usize>)
    ensures
        r is Some == (uuid_index(entries@, *player_uuid) >= 0),
        r matches Some(i) ==> i as int == uuid_index(entries@, *player_uuid),
{
    proof {
        lemma_uuid_index(entries@, *player_uuid);
    }
    let mut i: usize = 0;
    while i < entries.len()
        invariant
            i <= entries@.len(),
            forall|j: int| 0 <= j < i ==> (#[trigger] entries@[j]).0 != *player_uuid,
            -1 <= uuid_index(entries@, *player_uuid) < entries@.len(),
            uuid_index(entries@, *player_uuid) >= 0 ==> entries@[uuid_index(
                entries@,
                *player_uuid,
            )].0 == *player_uuid,
            forall|j: int|
                0 <= j < entries@.len() && (uuid_index(entries@, *player_uuid) < 0 || j < uuid_index(
                    entries@,
                    *player_uuid,
                )) ==> #[trigger] entries@[j].0 != *player_uuid,
        decreases entries@.len() - i,
    {
        if entries[i].0 == *player_uuid {
            return Some(i);
        }
        i = i + 1;
    }
    None
}

/// The position of the game's entry, if any.
fn find_game<T>(entries: &Vec<(GameUUID, T)>, game_uuid: &GameUUID) -> (r: Option<usize>)
    ensures
        r is Some == (game_index(entries@, *game_uuid) >= 0),
        r matches Some(i) ==> i as int == game_index(entries@, *game_uuid),
{
    proof {
        lemma_game_index(entries@, *game_uuid);
    }
    let mut i: usize = 0;
    while i < entries.len()
        invariant
            i <= entries@.len(),
            forall|j: int| 0 <= j < i ==> (#[trigger] entries@[j]).0 != *game_uuid,
            -1 <= game_index(entries@, *game_uuid) < entries@.len(),
            game_index(entries@, *game_uuid) >= 0 ==> entries@[game_index(
                entries@,
                *game_uuid,
            )].0 == *game_uuid,
            forall|j: int|
                0 <= j < entries@.len() && (game_index(entries@, *game_uuid) < 0 || j < game_index(
                    entries@,
                    *game_uuid,
                )) ==> #[trigger] entries@[j].0 != *game_uuid,
        decreases entries@.len() - i,
    {
        if entries[i].0 == *game_uuid {
            return Some(i);
        }
        i = i + 1;
    }
    None
}

/// Adding an entry for a player with none keeps one entry per player, and
/// every other player's entry where it was.
pub proof fn lemma_seat_push<T>(s: Seq<(PlayerUUID, T)>, x: (PlayerUUID, T), w: PlayerUUID)
    requires
        player_keys_unique(s),
        uuid_index(s, x.0) < 0,
    ensures
        player_keys_unique(s.push(x)),
        uuid_index(s.push(x), w) == (if w == x.0 {
            s.len() as int
        } else {
            uuid_index(s, w)
        }),
{
    let t = s.push(x);
    lemma_uuid_index(s, x.0);
    assert forall|i: int, j: int|
        0 <= i < t.len() && 0 <= j < t.len() && i != j implies #[trigger] t[i].0
        != #[trigger] t[j].0 by {
        if i < s.len() {
            assert(t[i] == s[i]);
        }
        if j < s.len() {
            assert(t[j] == s[j]);
        }
    }
    lemma_uuid_index(s, w);
    if w == x.0 {
        lemma_unique_uuid_index(t, w, s.len() as int);
    } else if uuid_index(s, w) >= 0 {
        assert(t[uuid_index(s, w)] == s[uuid_index(s, w)]);
        lemma_unique_uuid_index(t, w, uuid_index(s, w));
    } else {
        assert forall|j: int| 0 <= j < t.len() implies #[trigger] t[j].0 != w by {
            if j < s.len() {
                assert(t[j] == s[j]);
            }
        }
        lemma_unique_uuid_index(t, w, 0);
    }
}

/// Adding an entry for a game with none keeps one entry per game, and
/// every other game's entry where it was.
pub proof fn lemma_game_push<T>(s: Seq<(GameUUID, T)>, x: (GameUUID, T), h: GameUUID)
    requires
        game_keys_unique(s),
        game_index(s, x.0) < 0,
    ensures
        game_keys_unique(s.push(x)),
        game_index(s.push(x), h) == (if h == x.0 {
            s.len() as int
        } else {
            game_index(s, h)
        }),
{
    let t = s.push(x);
    lemma_game_index(s, x.0);
    assert forall|i: int, j: int|
        0 <= i < t.len() && 0 <= j < t.len() && i != j implies #[trigger] t[i].0
        != #[trigger] t[j].0 by {
        if i < s.len() {
            assert(t[i] == s[i]);
        }
        if j < s.len() {
            assert(t[j] == s[j]);
        }
    }
    lemma_game_index(s, h);
    if h == x.0 {
        lemma_unique_game_index(t, h, s.len() as int);
    } else if game_index(s, h) >= 0 {
        assert(t[game_index(s, h)] == s[game_index(s, h)]);
        lemma_unique_game_index(t, h, game_index(s, h));
    } else {
        assert forall|j: int| 0 <= j < t.len() implies #[trigger] t[j].0 != h by {
            if j < s.len() {
                assert(t[j] == s[j]);
            }
        }
        lemma_unique_game_index(t, h, 0);
    }
}

/// `after` is `before` once `u` created the game `gid` named `name`: a
/// new game with `u` as its only player, not started, and `u` in it.
pub open spec fn game_created(
    before: GameManager,
    after: GameManager,
    u: PlayerUUID,
    gid: GameUUID,
    name: Seq<char>,
) -> bool {
    let games1 = after.games_by_game_id@;
    &&& after.player_uuids_to_display_names == before.player_uuids_to_display_names
    &&& after.player_uuids_to_game_id@ == before.player_uuids_to_game_id@.push((u, gid))
    &&& games1.len() == before.games_by_game_id@.len() + 1
    &&& games1.drop_last() == before.games_by_game_id@
    &&& games1.last().0 == gid
    &&& games1.last().1.display_name@ == name
    &&& games1.last().1.players@ == seq![(u, None::<Character>)]
    &&& games1.last().1.game_logic_or is None
}

/// Creating a game keeps the manager consistent.
pub proof fn lemma_created_wf(
    m0: GameManager,
    m1: GameManager,
    u: PlayerUUID,
    gid: GameUUID,
    name: Seq<char>,
)
    requires
        manager_wf(m0),
        named(m0, u),
        !seated_in_game(m0, u),
        game_index(m0.games_by_game_id@, gid) < 0,
        game_created(m0, m1, u, gid, name),
    ensures
        manager_wf(m1),
{
    let seats0 = m0.player_uuids_to_game_id@;
    let games0 = m0.games_by_game_id@;
    let games1 = m1.games_by_game_id@;
    assert(games1 == games0.push(games1.last()));
    lemma_seat_push(seats0, (u, gid), u);
    lemma_game_push(games0, games1.last(), gid);
    assert forall|v: PlayerUUID| #[trigger] seated_in_game(m1, v) implies seat_ok(m1, v) by {
        lemma_seat_push(seats0, (u, gid), v);
        if v == u {
            assert(m1.player_uuids_to_game_id@[seats0.len() as int] == (u, gid));
            lemma_uuid_found(games1.last().1.players@, 0);
        } else {
            lemma_uuid_index(seats0, v);
            assert(uuid_index(m1.player_uuids_to_game_id@, v) == uuid_index(seats0, v));
            assert(seated_in_game(m0, v));
            assert(seat_ok(m0, v));
            assert(m1.player_uuids_to_game_id@[uuid_index(seats0, v)] == seats0[uuid_index(seats0, v)]);
            let h = game_id_of(m0, v);
            lemma_game_index(games0, h);
            lemma_game_push(games0, games1.last(), h);
            assert(games1[game_index(games0, h)] == games0[game_index(games0, h)]);
        }
    }
    assert forall|i: int| 0 <= i < games1.len() implies #[trigger] game_entry_ok(m1, i) by {
        if i < games0.len() {
            assert(games1[i] == games0[i]);
            assert(game_entry_ok(m0, i));
            assert forall|w: PlayerUUID| #[trigger] uuid_index(games1[i].1.players@, w) >= 0 implies seated_in_game(m1, w)
                && game_id_of(m1, w) == games1[i].0 by {
                assert(seated_in_game(m0, w));
                lemma_uuid_index(seats0, w);
                lemma_seat_push(seats0, (u, gid), w);
                assert(m1.player_uuids_to_game_id@[uuid_index(seats0, w)] == seats0[uuid_index(seats0, w)]);
            }
        } else {
            assert forall|w: PlayerUUID| #[trigger] uuid_index(games1[i].1.players@, w) >= 0 implies seated_in_game(m1, w)
                && game_id_of(m1, w) == games1[i].0 by {
                lemma_uuid_index(games1[i].1.players@, w);
                lemma_seat_push(seats0, (u, gid), w);
                assert(m1.player_uuids_to_game_id@[seats0.len() as int] == (u, gid));
            }
        }
    }
}

/// `after` is `before` once `u` joined the game `gid`: `u` is added last
/// to its players and recorded as in it.
pub open spec fn joined_game(before: GameManager, after: GameManager, u: PlayerUUID, gid: GameUUID) -> bool {
    let gi = game_index(before.games_by_game_id@, gid);
    let g = before.games_by_game_id@[gi].1;
    let g1 = after.games_by_game_id@[gi].1;
    &&& after.player_uuids_to_display_names == before.player_uuids_to_display_names
    &&& after.player_uuids_to_game_id@ == before.player_uuids_to_game_id@.push((u, gid))
    &&& game_updated(before.games_by_game_id@, after.games_by_game_id@, gi)
    &&& g1.players@ == g.players@.push((u, None))
    &&& g1.display_name == g.display_name
    &&& g1.game_logic_or == g.game_logic_or
}

/// Joining a game keeps the manager consistent.
pub proof fn lemma_joined_wf(m0: GameManager, m1: GameManager, u: PlayerUUID, gid: GameUUID)
    requires
        manager_wf(m0),
        named(m0, u),
        !seated_in_game(m0, u),
        game_index(m0.games_by_game_id@, gid) >= 0,
        joined_game(m0, m1, u, gid),
    ensures
        manager_wf(m1),
{
    let seats0 = m0.player_uuids_to_game_id@;
    let games0 = m0.games_by_game_id@;
    let games1 = m1.games_by_game_id@;
    let gi = game_index(games0, gid);
    lemma_game_index(games0, gid);
    lemma_seat_push(seats0, (u, gid), u);
    lemma_game_update(games0, games1, gi, gid);
    let ps0 = games0[gi].1.players@;
    let ps1 = games1[gi].1.players@;
    assert forall|w: PlayerUUID| uuid_index(ps1, w) >= 0 <==> (w == u || uuid_index(ps0, w) >= 0) by {
        lemma_uuid_index(ps0, w);
        lemma_uuid_index(ps1, w);
        if uuid_index(ps1, w) >= 0 {
            let k = uuid_index(ps1, w);
            if k < ps0.len() {
                assert(ps1[k] == ps0[k]);
            }
        }
        if uuid_index(ps0, w) >= 0 {
            assert(ps1[uuid_index(ps0, w)] == ps0[uuid_index(ps0, w)]);
        }
        if w == u {
            assert(ps1[ps0.len() as int].0 == u);
        }
    }
    assert forall|v: PlayerUUID| #[trigger] seated_in_game(m1, v) implies seat_ok(m1, v) by {
        lemma_seat_push(seats0, (u, gid), v);
        if v == u {
            assert(m1.player_uuids_to_game_id@[seats0.len() as int] == (u, gid));
        } else {
            lemma_uuid_index(seats0, v);
            assert(uuid_index(m1.player_uuids_to_game_id@, v) == uuid_index(seats0, v));
            assert(seated_in_game(m0, v));
            assert(seat_ok(m0, v));
            assert(m1.player_uuids_to_game_id@[uuid_index(seats0, v)] == seats0[uuid_index(seats0, v)]);
            let h = game_id_of(m0, v);
            lemma_game_index(games0, h);
            lemma_game_update(games0, games1, gi, h);
            if game_index(games0, h) != gi {
                assert(games1[game_index(games0, h)] == games0[game_index(games0, h)]);
            }
        }
    }
    assert forall|i: int| 0 <= i < games1.len() implies #[trigger] game_entry_ok(m1, i) by {
        assert(game_entry_ok(m0, i));
        if i != gi {
            assert(games1[i] == games0[i]);
        }
        assert forall|w: PlayerUUID| #[trigger] uuid_index(games1[i].1.players@, w) >= 0 implies seated_in_game(m1, w)
            && game_id_of(m1, w) == games1[i].0 by {
            lemma_seat_push(seats0, (u, gid), w);
            if w == u {
                assert(m1.player_uuids_to_game_id@[seats0.len() as int] == (u, gid));
                if i != gi {
                    assert(seated_in_game(m0, u));
                }
            } else {
                assert(uuid_index(games0[i].1.players@, w) >= 0);
                assert(seated_in_game(m0, w));
                lemma_uuid_index(seats0, w);
                assert(m1.player_uuids_to_game_id@[uuid_index(seats0, w)] == seats0[uuid_index(seats0, w)]);
            }
        }
    }
}

/// The game the player is in (meaningful when seated).
pub open spec fn game_of(m: GameManager, u: PlayerUUID) -> Game {
    m.games_by_game_id@[game_pos(m, u)].1
}

/// `after` is `before` with only the game `u` is in changed.
pub open spec fn own_game_changed(before: GameManager, after: GameManager, u: PlayerUUID) -> bool {
    &&& after.player_uuids_to_display_names == before.player_uuids_to_display_names
    &&& after.player_uuids_to_game_id == before.player_uuids_to_game_id
    &&& game_updated(before.games_by_game_id@, after.games_by_game_id@, game_pos(before, u))
}

/// Changing a game, with the same players at the same positions, into a
/// consistent one keeps the manager consistent.
pub proof fn lemma_game_changed_wf(m0: GameManager, m1: GameManager, u: PlayerUUID)
    requires
        manager_wf(m0),
        seated_in_game(m0, u),
        own_game_changed(m0, m1, u),
        game_ok(m1.games_by_game_id@[game_pos(m0, u)].1),
        m1.games_by_game_id@[game_pos(m0, u)].1.players@.len() == game_of(m0, u).players@.len(),
        forall|j: int|
            0 <= j < game_of(m0, u).players@.len() ==> (
            #[trigger] m1.games_by_game_id@[game_pos(m0, u)].1.players@[j]).0 == game_of(
                m0,
                u,
            ).players@[j].0,
    ensures
        manager_wf(m1),
        game_pos(m1, u) == game_pos(m0, u),
{
    let games0 = m0.games_by_game_id@;
    let games1 = m1.games_by_game_id@;
    let gi = game_pos(m0, u);
    assert(seat_ok(m0, u));
    let ps0 = games0[gi].1.players@;
    let ps1 = games1[gi].1.players@;
    lemma_game_update(games0, games1, gi, game_id_of(m0, u));
    assert(game_entry_ok(m0, gi));
    assert forall|w: PlayerUUID| uuid_index(ps1, w) == uuid_index(ps0, w) by {
        lemma_uuid_index_same_keys(ps1, ps0, w);
    }
    assert forall|v: PlayerUUID| #[trigger] seated_in_game(m1, v) implies seat_ok(m1, v) by {
        assert(seated_in_game(m0, v));
        assert(seat_ok(m0, v));
        lemma_game_update(games0, games1, gi, game_id_of(m0, v));
        if game_pos(m0, v) != gi {
            assert(games1[game_pos(m0, v)] == games0[game_pos(m0, v)]);
        }
    }
    assert forall|i: int| 0 <= i < games1.len() implies #[trigger] game_entry_ok(m1, i) by {
        assert(game_entry_ok(m0, i));
        if i != gi {
            assert(games1[i] == games0[i]);
        }
    }
}

/// `a` comes no later than `b` in dictionary order of their characters
/// (the order of `String`'s comparison).
pub open spec fn text_le(a: Seq<char>, b: Seq<char>) -> bool
    decreases a.len(),
{
    if a.len() == 0 {
        true
    } else if b.len() == 0 {
        false
    } else if a[0] != b[0] {
        a[0] < b[0]
    } else {
        text_le(a.drop_first(), b.drop_first())
    }
}

/// Any two texts are ordered one way or the other.
pub proof fn lemma_text_le_total(a: Seq<char>, b: Seq<char>)
    ensures
        text_le(a, b) || text_le(b, a),
    decreases a.len(),
{
    if a.len() > 0 && b.len() > 0 && a[0] == b[0] {
        lemma_text_le_total(a.drop_first(), b.drop_first());
    }
}

/// Dictionary order is transitive.
pub proof fn lemma_text_le_trans(a: Seq<char>, b: Seq<char>, c: Seq<char>)
    requires
        text_le(a, b),
        text_le(b, c),
    ensures
        text_le(a, c),
    decreases a.len(),
{
    if a.len() > 0 && b.len() > 0 && c.len() > 0 && a[0] == b[0] && b[0] == c[0] {
        lemma_text_le_trans(a.drop_first(), b.drop_first(), c.drop_first());
    }
}

/// Whether `a` comes no later than `b` in dictionary order.
pub fn text_le_exec(a: &str, b: &str) -> (r: bool)
    ensures
        r == text_le(a@, b@),
{
    let la = a.unicode_len();
    let lb = b.unicode_len();
    let mut i: usize = 0;
    proof {
        assert(a@.skip(0) =~= a@);
        assert(b@.skip(0) =~= b@);
    }
    while i < la && i < lb
        invariant
            i <= la,
            i <= lb,
            la == a@.len(),
            lb == b@.len(),
            text_le(a@, b@) == text_le(a@.skip(i as int), b@.skip(i as int)),
        decreases la - i,
    {
        let ca = a.get_char(i);
        let cb = b.get_char(i);
        if ca != cb {
            return ca < cb;
        }
        proof {
            assert(a@.skip(i as int).drop_first() =~= a@.skip(i + 1));
            assert(b@.skip(i as int).drop_first() =~= b@.skip(i + 1));
        }
        i = i + 1;
    }
    i == la
}

/// The games as listed to everyone, in the manager's order.
pub open spec fn listed_all(games: Seq<(GameUUID, Game)>) -> Seq<ListedGameView> {
    games.map_values(|e: (GameUUID, Game)| listed(e))
}

/// The listed games are in dictionary order of their names.
pub open spec fn sorted_by_name(v: Seq<ListedGameView>) -> bool {
    forall|i: int, j: int|
        0 <= i < j < v.len() ==> text_le(#[trigger] v[i].game_name@, #[trigger] v[j].game_name@)
}

/// `after` is `before` once the player `u` was registered with `name`.
pub open spec fn player_added(before: GameManager, after: GameManager, u: PlayerUUID, name: String) -> bool {
    &&& after.player_uuids_to_display_names@ == before.player_uuids_to_display_names@.push(
        (u, name),
    )
    &&& after.player_uuids_to_game_id == before.player_uuids_to_game_id
    &&& after.games_by_game_id == before.games_by_game_id
}

/// `after` is `before` once the player `u` was forgotten: their name is
/// gone, and if they were in a game they left it (see `left_game`).
pub open spec fn player_removed(before: GameManager, after: GameManager, u: PlayerUUID) -> bool {
    &&& after.player_uuids_to_display_names@ == before.player_uuids_to_display_names@.remove(
        uuid_index(before.player_uuids_to_display_names@, u),
    )
    &&& !seated_in_game(before, u) ==> after.player_uuids_to_game_id
        == before.player_uuids_to_game_id && after.games_by_game_id == before.games_by_game_id
    &&& seated_in_game(before, u) ==> left_game(before, after, u)
}

/// A list of players that `u` is not in is left as it is when `u` leaves.
pub proof fn lemma_without_absent(players: Seq<(PlayerUUID, Option<Character>)>, u: PlayerUUID)
    requires
        uuid_index(players, u) < 0,
    ensures
        without_player(players, u) == players,
    decreases players.len(),
{
    if players.len() > 0 {
        let rest = players.drop_last();
        lemma_uuid_index(players, u);
        lemma_uuid_index(rest, u);
        if uuid_index(rest, u) >= 0 {
            assert(players[uuid_index(rest, u)] == rest[uuid_index(rest, u)]);
        }
        lemma_without_absent(rest, u);
        assert(players.last() == players[players.len() - 1]);
        assert(rest.push(players.last()) =~= players);
    }
}

/// Registering a new player and then forgetting them gives back the
/// manager as it was.
pub proof fn law_add_then_remove_player(
    m0: GameManager,
    m1: GameManager,
    m2: GameManager,
    u: PlayerUUID,
    name: String,
)
    requires
        manager_wf(m0),
        !named(m0, u),
        player_added(m0, m1, u, name),
        player_removed(m1, m2, u),
    ensures
        m2.player_uuids_to_display_names@ == m0.player_uuids_to_display_names@,
        m2.player_uuids_to_game_id == m0.player_uuids_to_game_id,
        m2.games_by_game_id == m0.games_by_game_id,
{
    let names0 = m0.player_uuids_to_display_names@;
    lemma_uuid_index(names0, u);
    if seated_in_game(m0, u) {
        assert(seat_ok(m0, u));
    }
    assert(!seated_in_game(m1, u));
    lemma_seat_push(names0, (u, name), u);
    assert(names0.push((u, name)).remove(names0.len() as int) =~= names0);
}

/// Creating a game and then leaving it, the only player in it, gives back
/// the games and the record of who is in which game as they were.
pub proof fn law_create_then_leave_game(
    m0: GameManager,
    m1: GameManager,
    m2: GameManager,
    u: PlayerUUID,
    gid: GameUUID,
    name: Seq<char>,
)
    requires
        manager_wf(m0),
        named(m0, u),
        !seated_in_game(m0, u),
        game_index(m0.games_by_game_id@, gid) < 0,
        game_created(m0, m1, u, gid, name),
        left_game(m1, m2, u),
    ensures
        m2.player_uuids_to_game_id@ == m0.player_uuids_to_game_id@,
        m2.games_by_game_id@ == m0.games_by_game_id@,
{
    let seats0 = m0.player_uuids_to_game_id@;
    let games0 = m0.games_by_game_id@;
    let games1 = m1.games_by_game_id@;
    lemma_seat_push(seats0, (u, gid), u);
    assert(seats0.push((u, gid)).remove(seats0.len() as int) =~= seats0);
    assert(games1 == games0.push(games1.last()));
    lemma_game_push(games0, games1.last(), gid);
    assert(m1.player_uuids_to_game_id@[seats0.len() as int] == (u, gid));
    assert(game_pos(m1, u) == games0.len());
    let ps = games1.last().1.players@;
    assert(ps.drop_last() =~= Seq::<(PlayerUUID, Option<Character>)>::empty());
    assert(without_player(ps.drop_last(), u).len() == 0);
    assert(games1.remove(games0.len() as int) =~= games0);
}

/// Joining a game and then leaving it gives back the game's players and
/// the record of who is in which game as they were.
pub proof fn law_join_then_leave_game(
    m0: GameManager,
    m1: GameManager,
    m2: GameManager,
    u: PlayerUUID,
    gid: GameUUID,
)
    requires
        manager_wf(m0),
        named(m0, u),
        !seated_in_game(m0, u),
        game_index(m0.games_by_game_id@, gid) >= 0,
        joined_game(m0, m1, u, gid),
        left_game(m1, m2, u),
    ensures
        m2.player_uuids_to_game_id@ == m0.player_uuids_to_game_id@,
        game_updated(m0.games_by_game_id@, m2.games_by_game_id@, game_index(m0.games_by_game_id@, gid)),
        m2.games_by_game_id@[game_index(m0.games_by_game_id@, gid)].1.players@
            == m0.games_by_game_id@[game_index(m0.games_by_game_id@, gid)].1.players@,
        m2.games_by_game_id@[game_index(m0.games_by_game_id@, gid)].1.display_name
            == m0.games_by_game_id@[game_index(m0.games_by_game_id@, gid)].1.display_name,
        m2.games_by_game_id@[game_index(m0.games_by_game_id@, gid)].1.game_logic_or
            == m0.games_by_game_id@[game_index(m0.games_by_game_id@, gid)].1.game_logic_or,
{
    let seats0 = m0.player_uuids_to_game_id@;
    let games0 = m0.games_by_game_id@;
    let games1 = m1.games_by_game_id@;
    let gi = game_index(games0, gid);
    lemma_game_index(games0, gid);
    lemma_seat_push(seats0, (u, gid), u);
    assert(seats0.push((u, gid)).remove(seats0.len() as int) =~= seats0);
    assert(m1.player_uuids_to_game_id@[seats0.len() as int] == (u, gid));
    lemma_game_update(games0, games1, gi, gid);
    assert(game_pos(m1, u) == gi);
    let ps0 = games0[gi].1.players@;
    assert(game_entry_ok(m0, gi));
    if uuid_index(ps0, u) >= 0 {
        assert(seated_in_game(m0, u));
    }
    lemma_without_absent(ps0, u);
    let ps1 = games1[gi].1.players@;
    assert(ps1.drop_last() =~= ps0);
    assert(ps1.last().0 == u);
    assert(without_player(ps1, u) == ps0);
    assert forall|j: int| 0 <= j < games0.len() && j != gi implies #[trigger] m2.games_by_game_id@[j]
        == games0[j] by {
        assert(games1[j] == games0[j]);
    }
}

/// A player just registered has the display name they registered with.
pub proof fn law_added_player_is_named(m0: GameManager, m1: GameManager, u: PlayerUUID, name: String)
    requires
        manager_wf(m0),
        !named(m0, u),
        player_added(m0, m1, u, name),
    ensures
        named(m1, u),
        m1.player_uuids_to_display_names@[uuid_index(m1.player_uuids_to_display_names@, u)].1
            == name,
        forall|v: PlayerUUID|
            v != u ==> uuid_index(m1.player_uuids_to_display_names@, v) == uuid_index(
                m0.player_uuids_to_display_names@,
                v,
            ),
{
    let names0 = m0.player_uuids_to_display_names@;
    lemma_uuid_index(names0, u);
    assert forall|v: PlayerUUID| v != u implies uuid_index(
        m1.player_uuids_to_display_names@,
        v,
    ) == uuid_index(names0, v) by {
        lemma_seat_push(names0, (u, name), v);
    }
    lemma_seat_push(names0, (u, name), u);
    assert(m1.player_uuids_to_display_names@[names0.len() as int] == (u, name));
}

/// A player who just created a game is in it, and it is the game with the
/// identifier returned, holding only them.
pub proof fn law_created_game_is_the_players(
    m0: GameManager,
    m1: GameManager,
    u: PlayerUUID,
    gid: GameUUID,
    name: Seq<char>,
)
    requires
        manager_wf(m0),
        named(m0, u),
        !seated_in_game(m0, u),
        game_index(m0.games_by_game_id@, gid) < 0,
        game_created(m0, m1, u, gid, name),
    ensures
        seated_in_game(m1, u),
        game_id_of(m1, u) == gid,
        game_of(m1, u).display_name@ == name,
        game_of(m1, u).players@ == seq![(u, None::<Character>)],
{
    let seats0 = m0.player_uuids_to_game_id@;
    let games0 = m0.games_by_game_id@;
    let games1 = m1.games_by_game_id@;
    lemma_uuid_index(seats0, u);
    lemma_seat_push(seats0, (u, gid), u);
    assert(m1.player_uuids_to_game_id@[seats0.len() as int] == (u, gid));
    assert(games1 == games0.push(games1.last()));
    lemma_game_push(games0, games1.last(), gid);
}

impl GameManager {
    /// A manager with no players and no games.
    pub fn new() -> (m: Self)
        ensures
            manager_wf(m),
            m.games_by_game_id@.len() == 0,
            m.player_uuids_to_game_id@.len() == 0,
            m.player_uuids_to_display_names@.len() == 0,
    {
        GameManager {
            games_by_game_id: Vec::new(),
            player_uuids_to_game_id: Vec::new(),
            player_uuids_to_display_names: Vec::new(),
        }
    }

    /// Registers a player with a display name. An error if the player
    /// already exists.
    pub fn add_player(&mut self, player_uuid: PlayerUUID, display_name: String) -> (r: Result<
        (),
        Error,
    >)
        requires
            manager_wf(*old(self)),
        ensures
            manager_wf(*final(self)),
            named(*old(self), player_uuid) ==> res_msg(r) == Err::<(), Seq<char>>(
                "Player already exists"@,
            ) && *final(self) == *old(self),
            !named(*old(self), player_uuid) ==> r is Ok && player_added(
                *old(self),
                *final(self),
                player_uuid,
                display_name,
            ),
    {
        if find_player(&self.player_uuids_to_display_names, &player_uuid).is_some() {
            return Err(Error::new("Player already exists"));
        }
        let ghost m0 = *self;
        self.player_uuids_to_display_names.push((player_uuid, display_name));
        proof {
            let names0 = m0.player_uuids_to_display_names@;
            let names1 = self.player_uuids_to_display_names@;
            lemma_uuid_index(names0, player_uuid);
            assert forall|i: int, j: int|
                0 <= i < names1.len() && 0 <= j < names1.len() && i != j implies #[trigger] names1[i].0
                != #[trigger] names1[j].0 by {
                if i < names0.len() && j < names0.len() {
                    assert(names1[i] == names0[i] && names1[j] == names0[j]);
                } else if i < names0.len() {
                    assert(names1[i] == names0[i]);
                } else {
                    assert(names1[j] == names0[j]);
                }
            }
            assert forall|u: PlayerUUID| #[trigger] seated_in_game(*self, u) implies seat_ok(
                *self,
                u,
            ) by {
                assert(seated_in_game(m0, u));
                let k = uuid_index(names0, u);
                lemma_uuid_index(names0, u);
                assert(names1[k] == names0[k]);
                lemma_unique_uuid_index(names1, u, k);
            }
            assert forall|i: int| 0 <= i < self.games_by_game_id@.len() implies #[trigger] game_entry_ok(
                *self,
                i,
            ) by {
                assert(game_entry_ok(m0, i));
            }
        }
        Ok(())
    }

    /// The display name of the player, if they exist.
    pub fn get_player_display_name(&self, player_uuid: &PlayerUUID) -> (r: Option<&String>)
        ensures
            named(*self, *player_uuid) ==> (r matches Some(name) && *name
                == self.player_uuids_to_display_names@[uuid_index(
                self.player_uuids_to_display_names@,
                *player_uuid,
            )].1),
            !named(*self, *player_uuid) ==> r is None,
    {
        proof {
            lemma_uuid_index(self.player_uuids_to_display_names@, *player_uuid);
        }
        match find_player(&self.player_uuids_to_display_names, player_uuid) {
            Some(i) => Some(&self.player_uuids_to_display_names[i].1),
            None => None,
        }
    }

    /// The player leaves the game they are in; a game left with no players
    /// is removed. An error if the player does not exist or is in no game.
    pub fn leave_game(&mut self, player_uuid: &PlayerUUID) -> (r: Result<(), Error>)
        requires
            manager_wf(*old(self)),
        ensures
            manager_wf(*final(self)),
            !named(*old(self), *player_uuid) ==> res_msg(r) == Err::<(), Seq<char>>(
                "Player does not exist"@,
            ) && *final(self) == *old(self),
            named(*old(self), *player_uuid) && !seated_in_game(*old(self), *player_uuid)
                ==> res_msg(r) == Err::<(), Seq<char>>("Player is not in a game"@) && *final(self)
                == *old(self),
            seated_in_game(*old(self), *player_uuid) ==> r is Ok && left_game(
                *old(self),
                *final(self),
                *player_uuid,
            ) && final(self).player_uuids_to_display_names
                == old(self).player_uuids_to_display_names,
    {
        proof {
            lemma_uuid_index(self.player_uuids_to_game_id@, *player_uuid);
            if seated_in_game(*self, *player_uuid) {
                assert(seat_ok(*self, *player_uuid));
            }
        }
        match self.assert_player_exists(player_uuid) {
            Ok(()) => {},
            Err(e) => return Err(e),
        }
        let si = match find_player(&self.player_uuids_to_game_id, player_uuid) {
            Some(si) => si,
            None => return Err(Error::new("Player is not in a game")),
        };
        let game_id = self.player_uuids_to_game_id[si].1;
        let gi = match find_game(&self.games_by_game_id, &game_id) {
            Some(gi) => gi,
            None => return Err(Error::new("Game does not exist")),
        };
        let ghost m0 = *self;
        let game_is_empty = {
            let game = &mut self.games_by_game_id[gi].1;
            match game.leave(player_uuid) {
                Ok(()) => {},
                Err(e) => return Err(e),
            }
            game.is_empty()
        };
        if game_is_empty {
            let _ = self.games_by_game_id.remove(gi);
            proof {
                assert(self.games_by_game_id@ =~= m0.games_by_game_id@.remove(gi as int));
            }
        }
        let _ = self.player_uuids_to_game_id.remove(si);
        proof {
            lemma_left_game_wf(m0, *self, *player_uuid);
        }
        Ok(())
    }

    /// Forgets the player, who first leaves the game they are in. An error
    /// if the player does not exist.
    pub fn remove_player(&mut self, player_uuid: &PlayerUUID) -> (r: Result<(), Error>)
        requires
            manager_wf(*old(self)),
        ensures
            manager_wf(*final(self)),
            !named(*old(self), *player_uuid) ==> res_msg(r) == Err::<(), Seq<char>>(
                "Player does not exist"@,
            ) && *final(self) == *old(self),
            named(*old(self), *player_uuid) ==> r is Ok && player_removed(
                *old(self),
                *final(self),
                *player_uuid,
            ),
    {
        proof {
            lemma_uuid_index(self.player_uuids_to_display_names@, *player_uuid);
        }
        let ni = match find_player(&self.player_uuids_to_display_names, player_uuid) {
            Some(ni) => ni,
            None => return Err(Error::new("Player does not exist")),
        };
        if self.player_is_in_game(player_uuid) {
            match self.leave_game(player_uuid) {
                Ok(()) => {},
                Err(e) => return Err(e),
            }
        }
        let ghost m1 = *self;
        let _ = self.player_uuids_to_display_names.remove(ni);
        proof {
            let seats0 = old(self).player_uuids_to_game_id@;
            if seated_in_game(*old(self), *player_uuid) {
                lemma_uuid_index(seats0, *player_uuid);
                lemma_seat_remove(seats0, uuid_index(seats0, *player_uuid), *player_uuid);
            }
            lemma_name_removed_wf(m1, *self, *player_uuid);
        }
        Ok(())
    }

    /// Creates a game with the given name, with the player as its owner and
    /// only player, under a fresh random identifier. An error if the player is
    /// already in a game or does not exist, or if the identifier drawn is
    /// already taken (which never happens while no game exists).
    pub fn create_game(&mut self, player_uuid: PlayerUUID, game_name: String) -> (r: Result<
        GameUUID,
        Error,
    >)
        requires
            manager_wf(*old(self)),
        ensures
            manager_wf(*final(self)),
            seated_in_game(*old(self), player_uuid) ==> (r matches Err(e) && e.message@
                == "Player is already in a game"@) && *final(self) == *old(self),
            !seated_in_game(*old(self), player_uuid) && !named(*old(self), player_uuid) ==> (r matches Err(
                e,
            ) && e.message@ == "Player does not exist"@) && *final(self) == *old(self),
            !seated_in_game(*old(self), player_uuid) && named(*old(self), player_uuid)
                && old(self).games_by_game_id@.len() == 0 ==> r is Ok,
            !seated_in_game(*old(self), player_uuid) && named(*old(self), player_uuid) ==> match r {
                Ok(gid) => game_index(old(self).games_by_game_id@, gid) < 0 && game_created(
                    *old(self),
                    *final(self),
                    player_uuid,
                    gid,
                    game_name@,
                ),
                Err(e) => e.message@ == "Game identifier already in use"@ && *final(self)
                    == *old(self),
            },
    {
        let game_id = GameUUID::new();
        let r = self.create_game_with_id(player_uuid, game_name, game_id);
        proof {
            if old(self).games_by_game_id@.len() == 0 {
                lemma_game_index(old(self).games_by_game_id@, game_id);
            }
        }
        r
    }

    /// Creates a game with the given name and identifier, with the player as
    /// its owner and only player. An error if the player is already in a
    /// game or does not exist, or if a game with that identifier exists.
    pub fn create_game_with_id(
        &mut self,
        player_uuid: PlayerUUID,
        game_name: String,
        game_id: GameUUID,
    ) -> (r: Result<GameUUID, Error>)
        requires
            manager_wf(*old(self)),
        ensures
            manager_wf(*final(self)),
            seated_in_game(*old(self), player_uuid) ==> (r matches Err(e) && e.message@
                == "Player is already in a game"@) && *final(self) == *old(self),
            !seated_in_game(*old(self), player_uuid) && !named(*old(self), player_uuid) ==> (r matches Err(
                e,
            ) && e.message@ == "Player does not exist"@) && *final(self) == *old(self),
            !seated_in_game(*old(self), player_uuid) && named(*old(self), player_uuid) ==> (game_index(
                old(self).games_by_game_id@,
                game_id,
            ) >= 0 <==> r is Err),
            !seated_in_game(*old(self), player_uuid) && named(*old(self), player_uuid) ==> match r {
                Ok(gid) => gid == game_id && game_index(old(self).games_by_game_id@, gid) < 0
                    && game_created(*old(self), *final(self), player_uuid, gid, game_name@),
                Err(e) => e.message@ == "Game identifier already in use"@ && *final(self)
                    == *old(self),
            },
    {
        if self.player_is_in_game(&player_uuid) {
            return Err(Error::new("Player is already in a game"));
        }
        match self.assert_player_exists(&player_uuid) {
            Ok(()) => {},
            Err(e) => return Err(e),
        }
        if find_game(&self.games_by_game_id, &game_id).is_some() {
            return Err(Error::new("Game identifier already in use"));
        }
        let ghost m0 = *self;
        let mut game = Game::new(game_name);
        match game.join(player_uuid) {
            Ok(()) => {},
            Err(e) => return Err(e),
        }
        self.games_by_game_id.push((game_id, game));
        self.player_uuids_to_game_id.push((player_uuid, game_id));
        proof {
            assert(self.games_by_game_id@.drop_last() =~= m0.games_by_game_id@);
            assert(self.games_by_game_id@.last().1.players@ =~= seq![(player_uuid, None::<Character>)]);
            lemma_created_wf(m0, *self, player_uuid, game_id, game_name@);
        }
        Ok(game_id)
    }

    /// The player joins the game. An error if the player does not exist or
    /// is already in a game, or the game does not exist.
    pub fn join_game(&mut self, player_uuid: PlayerUUID, game_id: GameUUID) -> (r: Result<
        (),
        Error,
    >)
        requires
            manager_wf(*old(self)),
        ensures
            manager_wf(*final(self)),
            !named(*old(self), player_uuid) ==> res_msg(r) == Err::<(), Seq<char>>(
                "Player does not exist"@,
            ) && *final(self) == *old(self),
            named(*old(self), player_uuid) && seated_in_game(*old(self), player_uuid) ==> res_msg(r)
                == Err::<(), Seq<char>>("Player is already in a game"@) && *final(self) == *old(self),
            named(*old(self), player_uuid) && !seated_in_game(*old(self), player_uuid) && game_index(
                old(self).games_by_game_id@,
                game_id,
            ) < 0 ==> res_msg(r) == Err::<(), Seq<char>>("Game does not exist"@) && *final(self)
                == *old(self),
            named(*old(self), player_uuid) && !seated_in_game(*old(self), player_uuid) && game_index(
                old(self).games_by_game_id@,
                game_id,
            ) >= 0 ==> r is Ok && joined_game(*old(self), *final(self), player_uuid, game_id),
    {
        match self.assert_player_exists(&player_uuid) {
            Ok(()) => {},
            Err(e) => return Err(e),
        }
        if self.player_is_in_game(&player_uuid) {
            return Err(Error::new("Player is already in a game"));
        }
        let gi = match find_game(&self.games_by_game_id, &game_id) {
            Some(gi) => gi,
            None => return Err(Error::new("Game does not exist")),
        };
        let ghost m0 = *self;
        proof {
            lemma_game_index(self.games_by_game_id@, game_id);
            assert(game_entry_ok(m0, gi as int));
        }
        match self.games_by_game_id[gi].1.join(player_uuid) {
            Ok(()) => {},
            Err(e) => return Err(e),
        }
        self.player_uuids_to_game_id.push((player_uuid, game_id));
        proof {
            lemma_joined_wf(m0, *self, player_uuid, game_id);
        }
        Ok(())
    }

    /// The position of the game the player is in. An error if the player
    /// does not exist or is in no game.
    fn get_game_of_player(&self, player_uuid: &PlayerUUID) -> (r: Result<usize, Error>)
        requires
            manager_wf(*self),
        ensures
            !named(*self, *player_uuid) ==> (r matches Err(e) && e.message@
                == "Player does not exist"@),
            named(*self, *player_uuid) && !seated_in_game(*self, *player_uuid) ==> (r matches Err(
                e,
            ) && e.message@ == "Player is not in a game"@),
            seated_in_game(*self, *player_uuid) ==> (r matches Ok(gi) && gi as int == game_pos(
                *self,
                *player_uuid,
            ) && gi < self.games_by_game_id@.len()),
    {
        proof {
            lemma_uuid_index(self.player_uuids_to_game_id@, *player_uuid);
            if seated_in_game(*self, *player_uuid) {
                assert(seat_ok(*self, *player_uuid));
            }
        }
        match self.assert_player_exists(player_uuid) {
            Ok(()) => {},
            Err(e) => return Err(e),
        }
        let si = match find_player(&self.player_uuids_to_game_id, player_uuid) {
            Some(si) => si,
            None => return Err(Error::new("Player is not in a game")),
        };
        match find_game(&self.games_by_game_id, &self.player_uuids_to_game_id[si].1) {
            Some(gi) => Ok(gi),
            None => Err(Error::new("Player is not in a game")),
        }
    }

    /// The owner starts the game they are in (see `game_started`). An error
    /// if the player does not exist or is in no game.
    pub fn start_game(&mut self, player_uuid: &PlayerUUID) -> (r: Result<(), Error>)
        requires
            manager_wf(*old(self)),
        ensures
            manager_wf(*final(self)),
            !named(*old(self), *player_uuid) ==> res_msg(r) == Err::<(), Seq<char>>(
                "Player does not exist"@,
            ) && *final(self) == *old(self),
            named(*old(self), *player_uuid) && !seated_in_game(*old(self), *player_uuid)
                ==> res_msg(r) == Err::<(), Seq<char>>("Player is not in a game"@) && *final(self)
                == *old(self),
            seated_in_game(*old(self), *player_uuid) ==> own_game_changed(
                *old(self),
                *final(self),
                *player_uuid,
            ) && game_started(
                game_of(*old(self), *player_uuid),
                game_of(*final(self), *player_uuid),
                res_msg(r),
                *player_uuid,
            ),
    {
        let gi = match self.get_game_of_player(player_uuid) {
            Ok(gi) => gi,
            Err(e) => return Err(e),
        };
        let ghost m0 = *self;
        proof {
            assert(game_entry_ok(m0, gi as int));
        }
        let r = self.games_by_game_id[gi].1.start(player_uuid);
        proof {
            lemma_game_changed_wf(m0, *self, *player_uuid);
        }
        r
    }

    /// The player selects a character in the game they are in (see
    /// `character_selected`). An error if the player does not exist or is
    /// in no game.
    pub fn select_character(&mut self, player_uuid: &PlayerUUID, character: Character) -> (r:
        Result<(), Error>)
        requires
            manager_wf(*old(self)),
        ensures
            manager_wf(*final(self)),
            !named(*old(self), *player_uuid) ==> res_msg(r) == Err::<(), Seq<char>>(
                "Player does not exist"@,
            ) && *final(self) == *old(self),
            named(*old(self), *player_uuid) && !seated_in_game(*old(self), *player_uuid)
                ==> res_msg(r) == Err::<(), Seq<char>>("Player is not in a game"@) && *final(self)
                == *old(self),
            seated_in_game(*old(self), *player_uuid) ==> own_game_changed(
                *old(self),
                *final(self),
                *player_uuid,
            ) && character_selected(
                game_of(*old(self), *player_uuid),
                game_of(*final(self), *player_uuid),
                res_msg(r),
                *player_uuid,
                character,
            ),
    {
        let gi = match self.get_game_of_player(player_uuid) {
            Ok(gi) => gi,
            Err(e) => return Err(e),
        };
        let ghost m0 = *self;
        proof {
            assert(game_entry_ok(m0, gi as int));
        }
        let r = self.games_by_game_id[gi].1.select_character(player_uuid, character);
        proof {
            lemma_game_changed_wf(m0, *self, *player_uuid);
        }
        r
    }

    /// The player plays a card in the game they are in, directed at another
    /// player of that game or not (see `card_played`). An error if the
    /// player does not exist or is in no game, or the other player is not
    /// in the same game.
    pub fn play_card(
        &mut self,
        player_uuid: &PlayerUUID,
        other_player_uuid_or: &Option<PlayerUUID>,
        card_index: usize,
    ) -> (r: Result<(), Error>)
        requires
            manager_wf(*old(self)),
        ensures
            manager_wf(*final(self)),
            !named(*old(self), *player_uuid) ==> res_msg(r) == Err::<(), Seq<char>>(
                "Player does not exist"@,
            ) && *final(self) == *old(self),
            named(*old(self), *player_uuid) && !seated_in_game(*old(self), *player_uuid)
                ==> res_msg(r) == Err::<(), Seq<char>>("Player is not in a game"@) && *final(self)
                == *old(self),
            seated_in_game(*old(self), *player_uuid) && (*other_player_uuid_or matches Some(o)
                && uuid_index(game_of(*old(self), *player_uuid).players@, o) < 0) ==> res_msg(r)
                == Err::<(), Seq<char>>(
                "Other player is not in the same game or does not exist"@,
            ) && *final(self) == *old(self),
            seated_in_game(*old(self), *player_uuid) && !(*other_player_uuid_or matches Some(o)
                && uuid_index(game_of(*old(self), *player_uuid).players@, o) < 0)
                ==> own_game_changed(*old(self), *final(self), *player_uuid) && card_played(
                game_of(*old(self), *player_uuid),
                game_of(*final(self), *player_uuid),
                res_msg(r),
                *player_uuid,
                *other_player_uuid_or,
                card_index as int,
            ),
    {
        let gi = match self.get_game_of_player(player_uuid) {
            Ok(gi) => gi,
            Err(e) => return Err(e),
        };
        if let Some(other_player_uuid) = other_player_uuid_or {
            if !self.games_by_game_id[gi].1.player_is_in_game(other_player_uuid) {
                return Err(Error::new("Other player is not in the same game or does not exist"));
            }
        }
        let ghost m0 = *self;
        proof {
            assert(game_entry_ok(m0, gi as int));
        }
        let r = self.games_by_game_id[gi].1.play_card(
            player_uuid,
            other_player_uuid_or,
            card_index,
        );
        proof {
            lemma_game_changed_wf(m0, *self, *player_uuid);
        }
        r
    }

    /// The player discards cards and draws back to a full hand in the game
    /// they are in (see `cards_discarded`). An error if the player does not
    /// exist or is in no game.
    pub fn discard_cards_and_draw_to_full(
        &mut self,
        player_uuid: &PlayerUUID,
        card_indices: Vec<usize>,
    ) -> (r: Result<(), Error>)
        requires
            manager_wf(*old(self)),
            seated_in_game(*old(self), *player_uuid) ==> discard_ready(
                game_of(*old(self), *player_uuid),
                *player_uuid,
            ),
        ensures
            manager_wf(*final(self)),
            !named(*old(self), *player_uuid) ==> res_msg(r) == Err::<(), Seq<char>>(
                "Player does not exist"@,
            ) && *final(self) == *old(self),
            named(*old(self), *player_uuid) && !seated_in_game(*old(self), *player_uuid)
                ==> res_msg(r) == Err::<(), Seq<char>>("Player is not in a game"@) && *final(self)
                == *old(self),
            seated_in_game(*old(self), *player_uuid) ==> own_game_changed(
                *old(self),
                *final(self),
                *player_uuid,
            ) && cards_discarded(
                game_of(*old(self), *player_uuid),
                game_of(*final(self), *player_uuid),
                res_msg(r),
                *player_uuid,
                card_indices@,
            ),
    {
        let gi = match self.get_game_of_player(player_uuid) {
            Ok(gi) => gi,
            Err(e) => return Err(e),
        };
        let ghost m0 = *self;
        proof {
            assert(game_entry_ok(m0, gi as int));
        }
        let r = self.games_by_game_id[gi].1.discard_cards_and_draw_to_full(
            player_uuid,
            card_indices,
        );
        proof {
            lemma_game_changed_wf(m0, *self, *player_uuid);
        }
        r
    }

    /// The player orders a drink for another player in the game they are in
    /// (see `drink_ordered`). An error if the player does not exist or is in
    /// no game.
    pub fn order_drink(&mut self, player_uuid: &PlayerUUID, other_player_uuid: &PlayerUUID) -> (r:
        Result<(), Error>)
        requires
            manager_wf(*old(self)),
            seated_in_game(*old(self), *player_uuid) ==> order_ready(
                game_of(*old(self), *player_uuid),
                *player_uuid,
                *other_player_uuid,
            ),
        ensures
            manager_wf(*final(self)),
            !named(*old(self), *player_uuid) ==> res_msg(r) == Err::<(), Seq<char>>(
                "Player does not exist"@,
            ) && *final(self) == *old(self),
            named(*old(self), *player_uuid) && !seated_in_game(*old(self), *player_uuid)
                ==> res_msg(r) == Err::<(), Seq<char>>("Player is not in a game"@) && *final(self)
                == *old(self),
            seated_in_game(*old(self), *player_uuid) ==> own_game_changed(
                *old(self),
                *final(self),
                *player_uuid,
            ) && drink_ordered(
                game_of(*old(self), *player_uuid),
                game_of(*final(self), *player_uuid),
                res_msg(r),
                *player_uuid,
                *other_player_uuid,
            ),
    {
        let gi = match self.get_game_of_player(player_uuid) {
            Ok(gi) => gi,
            Err(e) => return Err(e),
        };
        let ghost m0 = *self;
        proof {
            assert(game_entry_ok(m0, gi as int));
        }
        let r = self.games_by_game_id[gi].1.order_drink(player_uuid, other_player_uuid);
        proof {
            lemma_game_changed_wf(m0, *self, *player_uuid);
        }
        r
    }

    /// The player passes in the game they are in (see `player_passed`). An
    /// error if the player does not exist or is in no game.
    pub fn pass(&mut self, player_uuid: &PlayerUUID) -> (r: Result<(), Error>)
        requires
            manager_wf(*old(self)),
        ensures
            manager_wf(*final(self)),
            !named(*old(self), *player_uuid) ==> res_msg(r) == Err::<(), Seq<char>>(
                "Player does not exist"@,
            ) && *final(self) == *old(self),
            named(*old(self), *player_uuid) && !seated_in_game(*old(self), *player_uuid)
                ==> res_msg(r) == Err::<(), Seq<char>>("Player is not in a game"@) && *final(self)
                == *old(self),
            seated_in_game(*old(self), *player_uuid) ==> own_game_changed(
                *old(self),
                *final(self),
                *player_uuid,
            ) && player_passed(
                game_of(*old(self), *player_uuid),
                game_of(*final(self), *player_uuid),
                res_msg(r),
                *player_uuid,
            ),
    {
        let gi = match self.get_game_of_player(player_uuid) {
            Ok(gi) => gi,
            Err(e) => return Err(e),
        };
        let ghost m0 = *self;
        proof {
            assert(game_entry_ok(m0, gi as int));
        }
        let r = self.games_by_game_id[gi].1.pass(player_uuid);
        proof {
            lemma_game_changed_wf(m0, *self, *player_uuid);
        }
        r
    }

    /// The game the player is in as shown to them, with every player's
    /// display name. An error if the player does not exist or is in no
    /// game.
    pub fn get_game_view(&self, player_uuid: PlayerUUID) -> (r: Result<GameView, Error>)
        requires
            manager_wf(*self),
        ensures
            !named(*self, player_uuid) ==> (r matches Err(e) && e.message@
                == "Player does not exist"@),
            named(*self, player_uuid) && !seated_in_game(*self, player_uuid) ==> (r matches Err(e)
                && e.message@ == "Player is not in a game"@),
            seated_in_game(*self, player_uuid) ==> (r matches Ok(gv) && game_view_ok(
                gv,
                game_of(*self, player_uuid),
                player_uuid,
                self.player_uuids_to_display_names@,
            )),
    {
        let gi = match self.get_game_of_player(&player_uuid) {
            Ok(gi) => gi,
            Err(e) => return Err(e),
        };
        proof {
            let g = self.games_by_game_id@[gi as int].1;
            assert(game_entry_ok(*self, gi as int));
            assert forall|j: int| 0 <= j < g.players@.len() implies uuid_index(
                self.player_uuids_to_display_names@,
                #[trigger] g.players@[j].0,
            ) >= 0 by {
                lemma_uuid_found(g.players@, j);
                assert(seated_in_game(*self, g.players@[j].0));
                assert(seat_ok(*self, g.players@[j].0));
            }
            assert(all_named(g.players@, self.player_uuids_to_display_names@));
        }
        self.games_by_game_id[gi].1.get_game_view(player_uuid, &self.player_uuids_to_display_names)
    }

    /// Every game as listed to everyone, in dictionary order of their names.
    pub fn list_games(&self) -> (c: ListedGameViewCollection)
        ensures
            sorted_by_name(c.listed_game_views@),
            c.listed_game_views@.to_multiset() == listed_all(self.games_by_game_id@).to_multiset(),
    {
        let ghost games = self.games_by_game_id@;
        let mut listed_game_views: Vec<ListedGameView> = Vec::new();
        let mut i: usize = 0;
        proof {
            assert(listed_all(games.take(0)) =~= Seq::<ListedGameView>::empty());
        }
        while i < self.games_by_game_id.len()
            invariant
                games == self.games_by_game_id@,
                i <= games.len(),
                sorted_by_name(listed_game_views@),
                listed_game_views@.to_multiset() == listed_all(games.take(i as int)).to_multiset(),
            decreases games.len() - i,
        {
            let view = self.games_by_game_id[i].1.get_listed_game_view(self.games_by_game_id[i].0);
            let mut j: usize = 0;
            while j < listed_game_views.len() && text_le_exec(
                listed_game_views[j].game_name.as_str(),
                view.game_name.as_str(),
            )
                invariant
                    j <= listed_game_views@.len(),
                    forall|k: int|
                        0 <= k < j ==> text_le(
                            #[trigger] listed_game_views@[k].game_name@,
                            view.game_name@,
                        ),
                decreases listed_game_views@.len() - j,
            {
                j = j + 1;
            }
            let ghost old_views = listed_game_views@;
            proof {
                if j < old_views.len() {
                    lemma_text_le_total(old_views[j as int].game_name@, view.game_name@);
                }
            }
            listed_game_views.insert(j, view);
            proof {
                let w = listed_game_views@;
                assert forall|p: int, q: int| 0 <= p < q < w.len() implies text_le(
                    #[trigger] w[p].game_name@,
                    #[trigger] w[q].game_name@,
                ) by {
                    if q < j {
                        assert(w[p] == old_views[p] && w[q] == old_views[q]);
                    } else if q == j {
                        assert(w[p] == old_views[p]);
                    } else if p < j {
                        assert(w[p] == old_views[p] && w[q] == old_views[q - 1]);
                    } else if p == j {
                        assert(w[q] == old_views[q - 1]);
                        if q - 1 > j {
                            assert(text_le(old_views[j as int].game_name@, old_views[q - 1].game_name@));
                            lemma_text_le_trans(
                                view.game_name@,
                                old_views[j as int].game_name@,
                                old_views[q - 1].game_name@,
                            );
                        }
                    } else {
                        assert(w[p] == old_views[p - 1] && w[q] == old_views[q - 1]);
                    }
                }
                vstd::seq_lib::to_multiset_insert(old_views, j as int, view);
                assert(listed_all(games.take(i + 1)) =~= listed_all(games.take(i as int)).push(
                    listed(games[i as int]),
                ));
                vstd::seq_lib::to_multiset_build(listed_all(games.take(i as int)), listed(games[i as int]));
            }
            i = i + 1;
        }
        proof {
            assert(games.take(i as int) =~= games);
        }
        ListedGameViewCollection { listed_game_views }
    }

    /// An error if the player does not exist.
    fn assert_player_exists(&self, player_uuid: &PlayerUUID) -> (r: Result<(), Error>)
        ensures
            named(*self, *player_uuid) ==> r is Ok,
            !named(*self, *player_uuid) ==> (r matches Err(e) && e.message@
                == "Player does not exist"@),
    {
        if find_player(&self.player_uuids_to_display_names, player_uuid).is_none() {
            return Err(Error::new("Player does not exist"));
        }
        Ok(())
    }

    /// Whether the player is in a game.
    fn player_is_in_game(&self, player_uuid: &PlayerUUID) -> (b: bool)
        ensures
            b == seated_in_game(*self, *player_uuid),
    {
        find_player(&self.player_uuids_to_game_id, player_uuid).is_some()
    }
}

/// In a sequence with no element twice, each element is counted once.
pub proof fn lemma_distinct_counted_once<A>(s: Seq<A>)
    requires
        s.no_duplicates(),
    ensures
        forall|i: int| 0 <= i < s.len() ==> s.to_multiset().count(#[trigger] s[i]) == 1,
    decreases s.len(),
{
    broadcast use vstd::seq_lib::group_to_multiset_ensures;
    broadcast use vstd::multiset::group_multiset_axioms;

    if s.len() > 0 {
        let init = s.drop_last();
        let x = s.last();
        assert(init.no_duplicates()) by {
            assert forall|i: int, j: int| 0 <= i < init.len() && 0 <= j < init.len() && i != j
                implies init[i] != init[j] by {
                assert(init[i] == s[i] && init[j] == s[j]);
            }
        }
        lemma_distinct_counted_once(init);
        assert(s =~= init.push(x));
        assert(!init.contains(x)) by {
            if init.contains(x) {
                let k = choose|k: int| 0 <= k < init.len() && init[k] == x;
                assert(s[k] == s[s.len() - 1]);
            }
        }
        assert forall|i: int| 0 <= i < s.len() implies s.to_multiset().count(#[trigger] s[i]) == 1 by {
            if i < s.len() - 1 {
                assert(init[i] == s[i]);
                assert(s[i] != s[s.len() - 1]);
            }
        }
    }
}

/// Every game of a consistent manager is listed exactly once, with its
/// name, its identifier and its number of players, and nothing else is.
pub proof fn law_each_game_listed_once(m: GameManager, listing: Seq<ListedGameView>)
    requires
        manager_wf(m),
        listing.to_multiset() == listed_all(m.games_by_game_id@).to_multiset(),
    ensures
        listing.len() == m.games_by_game_id@.len(),
        forall|i: int|
            0 <= i < m.games_by_game_id@.len() ==> listing.to_multiset().count(
                #[trigger] listed(m.games_by_game_id@[i]),
            ) == 1,
        forall|v: ListedGameView|
            listing.contains(v) ==> exists|i: int|
                0 <= i < m.games_by_game_id@.len() && v == #[trigger] listed(m.games_by_game_id@[i]),
{
    broadcast use vstd::seq_lib::group_to_multiset_ensures;

    let games = m.games_by_game_id@;
    let all = listed_all(games);
    assert(all.no_duplicates()) by {
        assert forall|i: int, j: int| 0 <= i < all.len() && 0 <= j < all.len() && i != j
            implies all[i] != all[j] by {
            assert(games[i].0 != games[j].0);
        }
    }
    lemma_distinct_counted_once(all);
    assert(listing.to_multiset().len() == listing.len());
    assert(all.to_multiset().len() == all.len());
    assert(all.len() == games.len());
    assert forall|i: int| 0 <= i < games.len() implies listing.to_multiset().count(
        #[trigger] listed(games[i]),
    ) == 1 by {
        assert(all[i] == listed(games[i]));
    }
    assert forall|v: ListedGameView| listing.contains(v) implies exists|i: int|
        0 <= i < games.len() && v == #[trigger] listed(games[i]) by {
        assert(listing.to_multiset().count(v) > 0);
        assert(all.contains(v));
        let k = choose|k: int| 0 <= k < all.len() && all[k] == v;
        assert(v == listed(games[k]));
    }
}

} // verus!
