use crate::game::Character;
use crate::player::{
    player_data_view, pv_change_fortitude, pv_change_gold, pv_discard, Player, PlayerView,
};
use crate::player_view::GameViewPlayerData;
use crate::player_card::PlayerCard;
use crate::uuid::PlayerUUID;
use vstd::prelude::*;

verus! {

/// The players of a running game, in seating order.
#[derive(Clone, Debug)]
pub struct PlayerManager {
    pub players: Vec<(PlayerUUID, Player)>,
}

/// The result of looking for the next player still in the game.
#[derive(Clone, Copy, PartialEq, Eq, Structural, Debug)]
pub enum NextPlayerUUIDOption {
    Next(PlayerUUID),
    PlayerNotFound,
    OnlyPlayerLeft,
}

/// Whether a game is still running, and its winner if it is over.
#[derive(Clone, Copy, PartialEq, Eq, Structural, Debug)]
pub enum GameRunningState {
    Running,
    /// The winner, if there is one; none if the last players dropped out
    /// together.
    Finished(Option<PlayerUUID>),
}

/// The position of the first player with the given identifier, or -1.
pub open spec fn uuid_index<T>(players: Seq<(PlayerUUID, T)>, u: PlayerUUID) -> int
    decreases players.len(),
{
    if players.len() == 0 {
        -1
    } else if players[0].0 == u {
        0
    } else {
        let r = uuid_index(players.drop_first(), u);
        if r < 0 {
            -1
        } else {
            r + 1
        }
    }
}

/// `uuid_index` is the first position holding the identifier.
pub proof fn lemma_uuid_index<T>(players: Seq<(PlayerUUID, T)>, u: PlayerUUID)
    ensures
        -1 <= uuid_index(players, u) < players.len(),
        uuid_index(players, u) >= 0 ==> players[uuid_index(players, u)].0 == u,
        forall|j: int|
            0 <= j < players.len() && (uuid_index(players, u) < 0 || j < uuid_index(players, u))
                ==> #[trigger] players[j].0 != u,
    decreases players.len(),
{
    if players.len() > 0 && players[0].0 != u {
        let rest = players.drop_first();
        lemma_uuid_index(rest, u);
        assert forall|j: int|
            0 <= j < players.len() && (uuid_index(players, u) < 0 || j < uuid_index(players, u))
                implies #[trigger] players[j].0 != u by {
            if j > 0 {
                assert(players[j] == rest[j - 1]);
            }
        }
        if uuid_index(players, u) >= 0 {
            assert(players[uuid_index(players, u)] == rest[uuid_index(rest, u)]);
        }
    }
}

/// The identifiers of the players still in the game, in seating order.
pub open spec fn alive_uuids(players: Seq<(PlayerUUID, PlayerView)>) -> Seq<PlayerUUID>
    decreases players.len(),
{
    if players.len() == 0 {
        Seq::empty()
    } else if players.last().1.is_out() {
        alive_uuids(players.drop_last())
    } else {
        alive_uuids(players.drop_last()).push(players.last().0)
    }
}

/// Every identifier in `ids` belongs to a player of `players`.
pub open spec fn all_in<T>(ids: Seq<PlayerUUID>, players: Seq<(PlayerUUID, T)>) -> bool {
    forall|i: int| 0 <= i < ids.len() ==> uuid_index(players, #[trigger] ids[i]) >= 0
}

/// Every alive player's identifier belongs to a player.
pub proof fn lemma_alive_uuids_in(players: Seq<(PlayerUUID, PlayerView)>)
    ensures
        all_in(alive_uuids(players), players),
        alive_uuids(players).len() <= players.len(),
    decreases players.len(),
{
    if players.len() > 0 {
        let rest = players.drop_last();
        lemma_alive_uuids_in(rest);
        lemma_in_prefix(rest, players);
        if !players.last().1.is_out() {
            let u = players.last().0;
            lemma_uuid_index(players, u);
            if uuid_index(players, u) < 0 {
                assert(players[players.len() - 1].0 == u);
            }
        }
    }
}

/// An identifier found in a prefix of the players is found in all of them.
pub proof fn lemma_in_prefix<T>(prefix: Seq<(PlayerUUID, T)>, players: Seq<(PlayerUUID, T)>)
    requires
        prefix.len() <= players.len(),
        forall|i: int| 0 <= i < prefix.len() ==> prefix[i] == players[i],
    ensures
        forall|u: PlayerUUID|
            uuid_index(prefix, u) >= 0 ==> #[trigger] uuid_index(players, u) == uuid_index(
                prefix,
                u,
            ),
    decreases prefix.len(),
{
    if prefix.len() > 0 {
        lemma_in_prefix(prefix.drop_first(), players.drop_first());
        assert forall|u: PlayerUUID| uuid_index(prefix, u) >= 0 implies #[trigger] uuid_index(
            players,
            u,
        ) == uuid_index(prefix, u) by {
            assert(players[0] == prefix[0]);
            if prefix[0].0 != u {
                assert(uuid_index(prefix.drop_first(), u) >= 0);
                assert(uuid_index(players.drop_first(), u) == uuid_index(prefix.drop_first(), u));
            }
        }
    }
}

/// The given player is seated.
pub open spec fn seated<T>(players: Seq<(PlayerUUID, T)>, u: PlayerUUID) -> bool {
    uuid_index(players, u) >= 0
}

/// The seated player with the given identifier (meaningful when seated).
pub open spec fn seat<T>(players: Seq<(PlayerUUID, T)>, u: PlayerUUID) -> T {
    players[uuid_index(players, u)].1
}

/// The players with the given player replaced by `p`; unchanged if that
/// player is not seated.
pub open spec fn seat_set(
    players: Seq<(PlayerUUID, PlayerView)>,
    u: PlayerUUID,
    p: PlayerView,
) -> Seq<(PlayerUUID, PlayerView)> {
    if seated(players, u) {
        players.update(uuid_index(players, u), (u, p))
    } else {
        players
    }
}

/// The players after the given one's gold changed by `amount`.
pub open spec fn seat_change_gold(
    players: Seq<(PlayerUUID, PlayerView)>,
    u: PlayerUUID,
    amount: int,
) -> Seq<(PlayerUUID, PlayerView)> {
    seat_set(players, u, pv_change_gold(seat(players, u), amount))
}

/// The players after the given one's fortitude changed by `amount`.
pub open spec fn seat_change_fortitude(
    players: Seq<(PlayerUUID, PlayerView)>,
    u: PlayerUUID,
    amount: int,
) -> Seq<(PlayerUUID, PlayerView)> {
    seat_set(players, u, pv_change_fortitude(seat(players, u), amount))
}

/// The players after each card went to its owner's discard pile, in order
/// (cards of players who are not seated are left out).
pub open spec fn discard_all(
    players: Seq<(PlayerUUID, PlayerView)>,
    cards: Seq<(PlayerUUID, PlayerCard)>,
) -> Seq<(PlayerUUID, PlayerView)>
    decreases cards.len(),
{
    if cards.len() == 0 {
        players
    } else {
        let rest = discard_all(players, cards.drop_last());
        let (u, c) = cards.last();
        seat_set(rest, u, pv_discard(seat(rest, u), c))
    }
}

/// Replacing a seated player keeps every identifier at its position.
pub proof fn lemma_seat_set_index(
    players: Seq<(PlayerUUID, PlayerView)>,
    u: PlayerUUID,
    p: PlayerView,
)
    ensures
        seat_set(players, u, p).len() == players.len(),
        forall|i: int|
            0 <= i < players.len() ==> (#[trigger] seat_set(players, u, p)[i]).0 == players[i].0,
        forall|w: PlayerUUID| #[trigger] uuid_index(seat_set(players, u, p), w) == uuid_index(players, w),
{
    lemma_uuid_index(players, u);
    lemma_same_seating_index(seat_set(players, u, p), players);
}

/// Discarding keeps every identifier at its position.
pub proof fn lemma_discard_all_index(
    players: Seq<(PlayerUUID, PlayerView)>,
    cards: Seq<(PlayerUUID, PlayerCard)>,
)
    ensures
        discard_all(players, cards).len() == players.len(),
        forall|i: int|
            0 <= i < players.len() ==> (#[trigger] discard_all(players, cards)[i]).0 == players[i].0,
        forall|w: PlayerUUID| #[trigger] uuid_index(discard_all(players, cards), w) == uuid_index(players, w),
    decreases cards.len(),
{
    if cards.len() > 0 {
        lemma_discard_all_index(players, cards.drop_last());
        let rest = discard_all(players, cards.drop_last());
        let (u, c) = cards.last();
        lemma_seat_set_index(rest, u, pv_discard(seat(rest, u), c));
    }
}

/// The starting gold for a game of the given number of players.
pub open spec fn starting_gold(player_count: nat) -> i32 {
    if player_count <= 2 {
        8
    } else if player_count >= 7 {
        12
    } else {
        10
    }
}

/// The position of the next player still in the game after position `c`,
/// looking at offsets `k` up to `limit` (at least the first offset is
/// looked at, even in a game of one).
pub open spec fn next_alive_from(players: Seq<(PlayerUUID, PlayerView)>, c: int, k: nat) -> Option<int>
    decreases (if players.len() > 1 { players.len() - 1 } else { 1 }) + 1 - k,
{
    let limit: int = if players.len() > 1 { players.len() - 1 } else { 1 };
    if k > limit || players.len() == 0 {
        None
    } else if !players[(c + k) % (players.len() as int)].1.is_out() {
        Some((c + k) % (players.len() as int))
    } else {
        next_alive_from(players, c, k + 1)
    }
}

/// The next player still in the game after the given one, in seating
/// order.
pub open spec fn spec_next_alive(players: Seq<(PlayerUUID, PlayerView)>, u: PlayerUUID) -> NextPlayerUUIDOption {
    let c = uuid_index(players, u);
    if c < 0 {
        NextPlayerUUIDOption::PlayerNotFound
    } else {
        match next_alive_from(players, c, 1) {
            Some(i) => NextPlayerUUIDOption::Next(players[i].0),
            None => NextPlayerUUIDOption::OnlyPlayerLeft,
        }
    }
}

/// The running state: running while two or more players are in the game,
/// otherwise won by the one left (if any).
pub open spec fn spec_running_state(players: Seq<(PlayerUUID, PlayerView)>) -> GameRunningState {
    let alive = alive_uuids(players);
    if alive.len() > 1 {
        GameRunningState::Running
    } else if alive.len() == 1 {
        GameRunningState::Finished(Some(alive[0]))
    } else {
        GameRunningState::Finished(None)
    }
}

impl View for PlayerManager {
    type V = Seq<(PlayerUUID, PlayerView)>;

    /// The players, each as plain values, in seating order.
    open spec fn view(&self) -> Seq<(PlayerUUID, PlayerView)> {
        Seq::new(self.players@.len(), |i: int| (self.players@[i].0, self.players@[i].1@))
    }
}

/// The view of a manager finds each identifier where its players do.
pub proof fn lemma_view_index(pm: PlayerManager)
    ensures
        pm@.len() == pm.players@.len(),
        forall|u: PlayerUUID| #[trigger] uuid_index(pm@, u) == uuid_index(pm.players@, u),
{
    lemma_same_seating_index(pm@, pm.players@);
}

/// Replacing one player of a manager replaces it in the view.
pub proof fn lemma_view_update(a: PlayerManager, b: PlayerManager, i: int, u: PlayerUUID, p: Player)
    requires
        0 <= i < a.players@.len(),
        b.players@ == a.players@.update(i, (u, p)),
    ensures
        b@ == a@.update(i, (u, p@)),
{
    assert(b@ =~= a@.update(i, (u, p@)));
}

impl PlayerManager {
    /// The position of the given player, or -1.
    pub open spec fn index_of(&self, u: PlayerUUID) -> int {
        uuid_index(self.players@, u)
    }

    /// The given player is in the game.
    pub open spec fn has(&self, u: PlayerUUID) -> bool {
        self.index_of(u) >= 0
    }

    /// The player with the given identifier (meaningful when `has(u)`).
    pub open spec fn player(&self, u: PlayerUUID) -> Player {
        self.players@[self.index_of(u)].1
    }

    /// Every player's statistics are within bounds.
    pub open spec fn wf(&self) -> bool {
        forall|i: int| 0 <= i < self.players@.len() ==> (#[trigger] self.players@[i]).1.wf()
    }

    /// A manager for the given players, each a fresh player of their
    /// character with the starting gold for this number of players.
    pub fn new(players_with_characters: Vec<(PlayerUUID, Character)>) -> (m: Self)
        ensures
            m.players@.len() == players_with_characters@.len(),
            m.wf(),
            forall|i: int|
                0 <= i < m.players@.len() ==> {
                    &&& (#[trigger] m.players@[i]).0 == players_with_characters@[i].0
                    &&& m.players@[i].1.is_fresh(
                        players_with_characters@[i].1,
                        starting_gold(players_with_characters@.len()),
                    )
                },
            crate::game_logic::cards_ok(m@),
    {
        let player_count = players_with_characters.len();
        let gold = Self::get_starting_gold_amount_for_player_count(player_count);
        let mut players: Vec<(PlayerUUID, Player)> = Vec::new();
        let mut i: usize = 0;
        while i < player_count
            invariant
                player_count == players_with_characters@.len(),
                gold == starting_gold(player_count as nat),
                i <= player_count,
                players@.len() == i,
                forall|j: int|
                    0 <= j < i ==> {
                        &&& (#[trigger] players@[j]).0 == players_with_characters@[j].0
                        &&& players@[j].1.is_fresh(players_with_characters@[j].1, gold)
                        &&& crate::game_logic::holds_ok(players@[j].1@)
                    },
            decreases player_count - i,
        {
            let (uuid, character) = players_with_characters[i];
            players.push((uuid, Player::create_from_character(character, gold)));
            i = i + 1;
        }
        let m = PlayerManager { players };
        proof {
            assert forall|k: int| 0 <= k < m@.len() implies crate::game_logic::holds_ok(
                #[trigger] m@[k].1,
            ) by {
                assert(m@[k].1 == m.players@[k].1@);
            }
        }
        m
    }

    /// Every player's public state, in seating order.
    pub fn get_game_view_player_data_of_all_players(&self) -> (v: Vec<GameViewPlayerData>)
        ensures
            v@.len() == self@.len(),
            forall|i: int|
                0 <= i < v@.len() ==> #[trigger] v@[i] == player_data_view(self@[i].0, self@[i].1),
    {
        let mut v: Vec<GameViewPlayerData> = Vec::new();
        let mut i: usize = 0;
        while i < self.players.len()
            invariant
                i <= self.players@.len(),
                v@.len() == i,
                forall|k: int|
                    0 <= k < i ==> #[trigger] v@[k] == player_data_view(self@[k].0, self@[k].1),
            decreases self.players@.len() - i,
        {
            v.push(self.players[i].1.to_game_view_player_data(self.players[i].0));
            i = i + 1;
        }
        v
    }

    /// The starting gold for a game of the given number of players.
    pub fn get_starting_gold_amount_for_player_count(player_count: usize) -> (g: i32)
        ensures
            g == starting_gold(player_count as nat),
    {
        if player_count <= 2 {
            8
        } else if player_count >= 7 {
            12
        } else {
            10
        }
    }

    /// The position of the first player with the given identifier.
    pub fn find_index(&self, player_uuid: &PlayerUUID) -> (r: Option<usize>)
        ensures
            r matches Some(i) ==> i == self.index_of(*player_uuid) && i < self.players@.len()
                && self.players@[i as int].0 == *player_uuid,
            r is None <==> self.index_of(*player_uuid) < 0,
    {
        proof {
            lemma_uuid_index(self.players@, *player_uuid);
        }
        let mut i: usize = 0;
        while i < self.players.len()
            invariant
                i <= self.players@.len(),
                forall|j: int| 0 <= j < i ==> (#[trigger] self.players@[j]).0 != *player_uuid,
                -1 <= self.index_of(*player_uuid) < self.players@.len(),
                self.index_of(*player_uuid) >= 0 ==> self.players@[self.index_of(
                    *player_uuid,
                )].0 == *player_uuid,
                forall|j: int|
                    0 <= j < self.players@.len() && (self.index_of(*player_uuid) < 0 || j
                        < self.index_of(*player_uuid)) ==> #[trigger] self.players@[j].0
                        != *player_uuid,
            decreases self.players@.len() - i,
        {
            if self.players[i].0 == *player_uuid {
                return Some(i);
            }
            i = i + 1;
        }
        None
    }

    /// The identifiers of the players still in the game, in seating order.
    pub fn clone_uuids_of_all_alive_players(&self) -> (v: Vec<PlayerUUID>)
        ensures
            v@ == alive_uuids(self@),
    {
        let mut v: Vec<PlayerUUID> = Vec::new();
        let mut i: usize = 0;
        while i < self.players.len()
            invariant
                i <= self.players@.len(),
                v@ == alive_uuids(self@.take(i as int)),
            decreases self.players@.len() - i,
        {
            proof {
                assert(self@.take(i + 1).drop_last() =~= self@.take(i as int));
            }
            if !self.players[i].1.is_out_of_game() {
                v.push(self.players[i].0);
            }
            i = i + 1;
        }
        proof {
            assert(self@.take(i as int) =~= self@);
        }
        v
    }

    /// The player with the given identifier.
    pub fn get_player_by_uuid(&self, player_uuid: &PlayerUUID) -> (r: Option<&Player>)
        ensures
            self.has(*player_uuid) ==> r == Some(&self.player(*player_uuid)),
            !self.has(*player_uuid) ==> r is None,
    {
        match self.find_index(player_uuid) {
            Some(i) => Some(&self.players[i].1),
            None => None,
        }
    }

    /// The player with the given identifier, to change.
    pub fn get_player_by_uuid_mut(&mut self, player_uuid: &PlayerUUID) -> (r: Option<&mut Player>)
        ensures
            old(self).has(*player_uuid) ==> {
                &&& r matches Some(p)
                &&& *p == old(self).player(*player_uuid)
                &&& final(self).players@ == old(self).players@.update(
                    old(self).index_of(*player_uuid),
                    (*player_uuid, *final(p)),
                )
            },
            !old(self).has(*player_uuid) ==> r is None && final(self).players@ == old(
                self,
            ).players@,
    {
        match self.find_index(player_uuid) {
            Some(i) => Some(&mut self.players[i].1),
            None => None,
        }
    }

    /// The next player still in the game after the given one, in seating
    /// order: `PlayerNotFound` if the given player is not in the game,
    /// `OnlyPlayerLeft` if every other player is out.
    pub fn get_next_alive_player_uuid(&self, player_uuid: &PlayerUUID) -> (r: NextPlayerUUIDOption)
        ensures
            r == spec_next_alive(self@, *player_uuid),
            r matches NextPlayerUUIDOption::Next(u) ==> self.has(u),
    {
        proof {
            lemma_view_index(*self);
        }
        let current_player_index = match self.find_index(player_uuid) {
            Some(i) => i,
            None => return NextPlayerUUIDOption::PlayerNotFound,
        };
        let ghost players = self@;
        let ghost c = current_player_index as int;
        let n = self.players.len();
        let ghost limit: int = if n > 1 { n - 1 } else { 1 };
        let mut next_player_index = current_player_index + 1;
        if next_player_index == n {
            next_player_index = 0;
        }
        let mut k: usize = 1;
        proof {
            lemma_wrap(c + 1, n as int);
        }
        while self.players[next_player_index].1.is_out_of_game()
            invariant
                n == self.players@.len(),
                players == self@,
                c == current_player_index as int,
                c == uuid_index(players, *player_uuid),
                0 <= c < n,
                limit == (if n > 1 { n - 1 } else { 1 }),
                1 <= k <= limit,
                next_player_index < n,
                next_player_index == (c + k) % (n as int),
                next_alive_from(players, c, 1) == next_alive_from(players, c, k as nat),
            decreases limit + 1 - k,
        {
            proof {
                assert(next_alive_from(players, c, k as nat) == next_alive_from(
                    players,
                    c,
                    (k + 1) as nat,
                ));
                if n > 1 {
                    lemma_wrap(c + k, n as int);
                    lemma_wrap(c + k + 1, n as int);
                }
            }
            next_player_index = next_player_index + 1;
            if next_player_index == n {
                next_player_index = 0;
            }
            k = k + 1;
            proof {
                if n == 1 {
                    assert(next_player_index == 0);
                    assert(k == 2);
                } else {
                    assert(next_player_index == (c + k) % (n as int));
                }
            }
            if next_player_index == current_player_index {
                proof {
                    if n > 1 {
                        assert(k <= n);
                        lemma_wrap(c + k, n as int);
                        assert(k as int == n);
                    }
                    assert(next_alive_from(players, c, k as nat) == None::<int>);
                }
                return NextPlayerUUIDOption::OnlyPlayerLeft;
            }
            proof {
                if n == 1 {
                    assert(false);
                }
                if k as int == n {
                    assert(next_player_index == current_player_index);
                }
            }
        }
        proof {
            assert(next_alive_from(players, c, k as nat) == Some(next_player_index as int));
            lemma_uuid_index(self.players@, self.players@[next_player_index as int].0);
        }
        NextPlayerUUIDOption::Next(self.players[next_player_index].0)
    }

    /// Running while two or more players are in the game; otherwise
    /// finished, won by the one left, if any.
    pub fn get_running_state(&self) -> (r: GameRunningState)
        ensures
            r == spec_running_state(self@),
    {
        let remaining_player_uuids = self.clone_uuids_of_all_alive_players();
        if remaining_player_uuids.len() > 1 {
            return GameRunningState::Running;
        }
        if remaining_player_uuids.len() == 1 {
            GameRunningState::Finished(Some(remaining_player_uuids[0]))
        } else {
            GameRunningState::Finished(None)
        }
    }

    /// The winner, once the game is over and someone is left.
    pub fn get_winner_or(&self) -> (r: Option<PlayerUUID>)
        ensures
            r == match spec_running_state(self@) {
                GameRunningState::Running => None,
                GameRunningState::Finished(w) => w,
            },
    {
        match self.get_running_state() {
            GameRunningState::Running => None,
            GameRunningState::Finished(winner_or) => winner_or,
        }
    }

    /// Whether two or more players are still in the game.
    pub fn is_game_running(&self) -> (b: bool)
        ensures
            b == (alive_uuids(self@).len() > 1),
    {
        match self.get_running_state() {
            GameRunningState::Running => true,
            GameRunningState::Finished(_) => false,
        }
    }

    /// Puts each card on its owner's discard pile. Cards whose owner is not
    /// in the game are handed back as the error, in their order.
    pub fn discard_cards(&mut self, cards: Vec<(PlayerUUID, PlayerCard)>) -> (r: Result<
        (),
        Vec<(PlayerUUID, PlayerCard)>,
    >)
        ensures
            final(self)@ == discard_all(old(self)@, cards@),
            final(self).players@.len() == old(self).players@.len(),
            forall|i: int|
                0 <= i < old(self).players@.len() ==> (#[trigger] final(self).players@[i]).0
                    == old(self).players@[i].0,
            r is Ok <==> unowned_cards(old(self)@, cards@).len() == 0,
            r matches Err(v) ==> v@ == unowned_cards(old(self)@, cards@),
    {
        let ghost orig = cards@;
        let ghost players0 = self@;
        proof {
            lemma_view_index(*self);
        }
        let mut cards = cards;
        let mut unhandled_cards: Vec<(PlayerUUID, PlayerCard)> = Vec::new();
        let ghost mut done: int = 0;
        while cards.len() > 0
            invariant
                0 <= done <= orig.len(),
                cards@ == orig.skip(done),
                players0 == old(self)@,
                self.players@.len() == old(self).players@.len(),
                forall|i: int|
                    0 <= i < old(self).players@.len() ==> (#[trigger] self.players@[i]).0
                        == old(self).players@[i].0,
                forall|u: PlayerUUID| #[trigger] uuid_index(players0, u) == uuid_index(old(self).players@, u),
                self@ == discard_all(players0, orig.take(done)),
                unhandled_cards@ == unowned_cards(players0, orig.take(done)),
            decreases cards@.len(),
        {
            let (card_owner_uuid, card) = cards.remove(0);
            let ghost before = *self;
            proof {
                lemma_same_seating_index(self.players@, old(self).players@);
                lemma_uuid_index(self.players@, card_owner_uuid);
                lemma_view_index(*self);
                lemma_discard_all_index(players0, orig.take(done));
                assert(orig.take(done + 1).drop_last() =~= orig.take(done));
                assert(orig[done] == (card_owner_uuid, card));
            }
            match self.get_player_by_uuid_mut(&card_owner_uuid) {
                Some(card_owner) => {
                    card_owner.discard_card(card);
                },
                None => {
                    unhandled_cards.push((card_owner_uuid, card));
                },
            }
            proof {
                if before.has(card_owner_uuid) {
                    lemma_view_update(
                        before,
                        *self,
                        before.index_of(card_owner_uuid),
                        card_owner_uuid,
                        self.players@[before.index_of(card_owner_uuid)].1,
                    );
                }
                done = done + 1;
                assert(cards@ =~= orig.skip(done));
            }
        }
        proof {
            assert(orig.take(done) =~= orig);
        }
        if unhandled_cards.len() == 0 {
            Ok(())
        } else {
            Err(unhandled_cards)
        }
    }
}

/// The cards among `cards` whose owner is not in the game, in order.
pub open spec fn unowned_cards(
    players: Seq<(PlayerUUID, PlayerView)>,
    cards: Seq<(PlayerUUID, PlayerCard)>,
) -> Seq<(PlayerUUID, PlayerCard)>
    decreases cards.len(),
{
    if cards.len() == 0 {
        Seq::empty()
    } else if uuid_index(players, cards.last().0) < 0 {
        unowned_cards(players, cards.drop_last()).push(cards.last())
    } else {
        unowned_cards(players, cards.drop_last())
    }
}

/// Two seatings with the same identifiers find each identifier at the same
/// position.
pub proof fn lemma_same_seating_index<A, B>(a: Seq<(PlayerUUID, A)>, b: Seq<(PlayerUUID, B)>)
    requires
        a.len() == b.len(),
        forall|i: int| 0 <= i < a.len() ==> (#[trigger] a[i]).0 == b[i].0,
    ensures
        forall|u: PlayerUUID| #[trigger] uuid_index(a, u) == uuid_index(b, u),
    decreases a.len(),
{
    if a.len() > 0 {
        assert(a[0].0 == b[0].0);
        lemma_same_seating_index(a.drop_first(), b.drop_first());
        assert forall|u: PlayerUUID| #[trigger] uuid_index(a, u) == uuid_index(b, u) by {
            assert(uuid_index(a.drop_first(), u) == uuid_index(b.drop_first(), u));
        }
    }
}

proof fn lemma_wrap(x: int, n: int)
    requires
        0 <= x < 2 * n,
        n > 0,
    ensures
        x % n == if x < n { x } else { x - n },
{
    if x < n {
        vstd::arithmetic::div_mod::lemma_small_mod(x as nat, n as nat);
    } else {
        vstd::arithmetic::div_mod::lemma_small_mod((x - n) as nat, n as nat);
        vstd::arithmetic::div_mod::lemma_mod_sub_multiples_vanish(x, n);
    }
}

/// The player seated `j` places after position `c`, going round the table.
pub open spec fn seat_after(players: Seq<(PlayerUUID, PlayerView)>, c: int, j: int) -> PlayerView {
    players[(c + j) % (players.len() as int)].1
}

/// Looking on from offset `k`, the search finds the first offset, up to
/// the limit, whose player is still in the game, having passed over only
/// players who are out; it finds none only when all of them are out.
pub proof fn lemma_next_alive_from_first(players: Seq<(PlayerUUID, PlayerView)>, c: int, k: nat)
    requires
        players.len() > 0,
        0 <= c < players.len(),
        k >= 1,
    ensures
        ({
            let n = players.len() as int;
            let limit: int = if n > 1 { n - 1 } else { 1 };
            match next_alive_from(players, c, k) {
                Some(i) => exists|kk: int|
                    k <= kk <= limit && i == (c + kk) % n && !(#[trigger] seat_after(players, c, kk)).is_out()
                        && forall|j: int| k <= j < kk ==> (#[trigger] seat_after(players, c, j)).is_out(),
                None => forall|j: int| k <= j <= limit ==> (#[trigger] seat_after(players, c, j)).is_out(),
            }
        }),
    decreases (if players.len() > 1 { players.len() - 1 } else { 1 }) + 1 - k,
{
    let n = players.len() as int;
    let limit: int = if n > 1 { n - 1 } else { 1 };
    if k > limit {
    } else if !seat_after(players, c, k as int).is_out() {
        assert(next_alive_from(players, c, k) == Some((c + k) % n));
    } else {
        lemma_next_alive_from_first(players, c, k + 1);
        assert(next_alive_from(players, c, k) == next_alive_from(players, c, k + 1));
        match next_alive_from(players, c, k + 1) {
            Some(i) => {
                let kk = choose|kk: int|
                    k + 1 <= kk <= limit && i == (c + kk) % n && !(#[trigger] seat_after(players, c, kk)).is_out()
                        && forall|j: int| k + 1 <= j < kk ==> (#[trigger] seat_after(players, c, j)).is_out();
                assert(forall|j: int| k <= j < kk ==> (#[trigger] seat_after(players, c, j)).is_out());
            },
            None => {},
        }
    }
}

/// The next player still in the game after `u`: none to be found if `u`
/// is not seated; otherwise, with `u` at position `c` of `n` players, the
/// first one in the order `c + 1`, `c + 2`, ..., `c + n - 1` (round the
/// table) who is not out, every player passed over on the way being out;
/// when all of them are out, `OnlyPlayerLeft`, whatever `u`'s own state
/// (in a game of one, the order is `u` alone).
pub proof fn law_next_alive_is_first_alive_after(players: Seq<(PlayerUUID, PlayerView)>, u: PlayerUUID)
    ensures
        !seated(players, u) ==> spec_next_alive(players, u) == NextPlayerUUIDOption::PlayerNotFound,
        seated(players, u) ==> players[uuid_index(players, u)].0 == u,
        seated(players, u) ==> ({
            let c = uuid_index(players, u);
            let n = players.len() as int;
            let limit: int = if n > 1 { n - 1 } else { 1 };
            match spec_next_alive(players, u) {
                NextPlayerUUIDOption::Next(w) => exists|k: int|
                    1 <= k <= limit && w == players[(c + k) % n].0 && !(#[trigger] seat_after(
                        players,
                        c,
                        k,
                    )).is_out() && forall|j: int| 1 <= j < k ==> (#[trigger] seat_after(players, c, j)).is_out(),
                NextPlayerUUIDOption::OnlyPlayerLeft => forall|k: int|
                    1 <= k <= limit ==> (#[trigger] seat_after(players, c, k)).is_out(),
                NextPlayerUUIDOption::PlayerNotFound => false,
            }
        }),
{
    lemma_uuid_index(players, u);
    if seated(players, u) {
        lemma_next_alive_from_first(players, uuid_index(players, u), 1);
    }
}

/// With every player out, no one is left in the game.
pub proof fn lemma_alive_none(players: Seq<(PlayerUUID, PlayerView)>)
    requires
        forall|j: int| 0 <= j < players.len() ==> (#[trigger] players[j]).1.is_out(),
    ensures
        alive_uuids(players).len() == 0,
    decreases players.len(),
{
    if players.len() > 0 {
        let init = players.drop_last();
        assert forall|j: int| 0 <= j < init.len() implies (#[trigger] init[j]).1.is_out() by {
            assert(init[j] == players[j]);
        }
        lemma_alive_none(init);
        assert(players[players.len() - 1].1.is_out());
    }
}

/// A player not out is among those left in the game.
pub proof fn lemma_alive_some(players: Seq<(PlayerUUID, PlayerView)>, i: int)
    requires
        0 <= i < players.len(),
        !players[i].1.is_out(),
    ensures
        alive_uuids(players).len() >= 1,
    decreases players.len(),
{
    if i < players.len() - 1 {
        let init = players.drop_last();
        assert(init[i] == players[i]);
        lemma_alive_some(init, i);
    }
}

/// With exactly one player not out, that player alone is left in the game.
pub proof fn lemma_alive_one(players: Seq<(PlayerUUID, PlayerView)>, i: int)
    requires
        0 <= i < players.len(),
        !players[i].1.is_out(),
        forall|j: int| 0 <= j < players.len() && j != i ==> (#[trigger] players[j]).1.is_out(),
    ensures
        alive_uuids(players) == seq![players[i].0],
    decreases players.len(),
{
    let init = players.drop_last();
    if i == players.len() - 1 {
        assert forall|j: int| 0 <= j < init.len() implies (#[trigger] init[j]).1.is_out() by {
            assert(init[j] == players[j]);
        }
        lemma_alive_none(init);
        assert(alive_uuids(players) =~= seq![players[i].0]);
    } else {
        assert(players[players.len() - 1].1.is_out());
        assert(init[i] == players[i]);
        assert forall|j: int| 0 <= j < init.len() && j != i implies (#[trigger] init[j]).1.is_out() by {
            assert(init[j] == players[j]);
        }
        lemma_alive_one(init, i);
    }
}

/// With two players not out, at least two are left in the game.
pub proof fn lemma_alive_two(players: Seq<(PlayerUUID, PlayerView)>, i: int, j: int)
    requires
        0 <= i < j < players.len(),
        !players[i].1.is_out(),
        !players[j].1.is_out(),
    ensures
        alive_uuids(players).len() >= 2,
    decreases players.len(),
{
    let init = players.drop_last();
    assert(init[i] == players[i]);
    if j == players.len() - 1 {
        lemma_alive_some(init, i);
    } else {
        assert(init[j] == players[j]);
        lemma_alive_two(init, i, j);
    }
}

/// A game in which every player is out is over, with no winner.
pub proof fn law_no_player_left_means_no_winner(players: Seq<(PlayerUUID, PlayerView)>)
    requires
        forall|j: int| 0 <= j < players.len() ==> (#[trigger] players[j]).1.is_out(),
    ensures
        spec_running_state(players) == GameRunningState::Finished(None),
{
    lemma_alive_none(players);
}

/// A game in which exactly one player is not out is over, and that player
/// won.
pub proof fn law_last_player_standing_wins(players: Seq<(PlayerUUID, PlayerView)>, i: int)
    requires
        0 <= i < players.len(),
        !players[i].1.is_out(),
        forall|j: int| 0 <= j < players.len() && j != i ==> (#[trigger] players[j]).1.is_out(),
    ensures
        spec_running_state(players) == GameRunningState::Finished(Some(players[i].0)),
{
    lemma_alive_one(players, i);
}

/// A game in which two players are not out goes on.
pub proof fn law_two_players_left_game_goes_on(players: Seq<(PlayerUUID, PlayerView)>, i: int, j: int)
    requires
        0 <= i < j < players.len(),
        !players[i].1.is_out(),
        !players[j].1.is_out(),
    ensures
        spec_running_state(players) == GameRunningState::Running,
{
    lemma_alive_two(players, i, j);
}

/// Each player starts with 8 gold in a game of two, 10 in a game of three
/// to six, and 12 in a game of seven or more.
pub proof fn law_starting_gold_by_player_count(player_count: nat)
    ensures
        player_count <= 2 ==> starting_gold(player_count) == 8,
        3 <= player_count <= 6 ==> starting_gold(player_count) == 10,
        player_count >= 7 ==> starting_gold(player_count) == 12,
{
}

/// The players left in the game are exactly those not out: an identifier
/// is among them when, and only when, some seat holds it with a player who
/// is not out.
pub proof fn law_players_left_are_those_not_out(players: Seq<(PlayerUUID, PlayerView)>, u: PlayerUUID)
    ensures
        alive_uuids(players).contains(u) <==> exists|i: int|
            0 <= i < players.len() && (#[trigger] players[i]).0 == u && !players[i].1.is_out(),
    decreases players.len(),
{
    if players.len() > 0 {
        let init = players.drop_last();
        let last = players.len() - 1;
        law_players_left_are_those_not_out(init, u);
        let a = alive_uuids(init);
        if exists|i: int| 0 <= i < players.len() && (#[trigger] players[i]).0 == u && !players[i].1.is_out() {
            let i = choose|i: int| 0 <= i < players.len() && (#[trigger] players[i]).0 == u && !players[i].1.is_out();
            if i < last {
                assert(init[i] == players[i]);
                assert(a.contains(u));
                if !players[last].1.is_out() {
                    let k = choose|k: int| 0 <= k < a.len() && a[k] == u;
                    assert(a.push(players[last].0)[k] == u);
                }
            } else {
                assert(a.push(players[last].0)[a.len() as int] == u);
            }
        }
        if alive_uuids(players).contains(u) {
            if !players[last].1.is_out() && u == players[last].0 {
                assert(players[last].0 == u);
            } else {
                let s = alive_uuids(players);
                let k = choose|k: int| 0 <= k < s.len() && s[k] == u;
                if !players[last].1.is_out() {
                    assert(k < a.len());
                    assert(a[k] == u);
                }
                assert(a.contains(u));
                let i = choose|i: int| 0 <= i < init.len() && (#[trigger] init[i]).0 == u && !init[i].1.is_out();
                assert(players[i] == init[i]);
            }
        }
    }
}

} // verus!
