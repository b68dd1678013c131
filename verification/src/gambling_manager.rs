use crate::error::Error;
use crate::game_logic::{TurnInfo, TurnPhase};
use crate::player::{pv_change_gold, PlayerView};
use crate::player_manager::{
    alive_uuids, all_in, lemma_seat_set_index, lemma_uuid_index, seat, lemma_view_index, lemma_view_update, seat_change_gold,
    seated, PlayerManager,
};
use crate::uuid::PlayerUUID;
use vstd::prelude::*;

verus! {

/// A round of gambling in progress.
#[derive(Clone, Debug)]
pub struct GamblingRound {
    /// The players taking part, in seating order.
    pub active_player_uuids: Vec<PlayerUUID>,
    pub current_player_turn: PlayerUUID,
    /// The player in control of the round.
    pub winning_player: PlayerUUID,
    pub pot_amount: i32,
    pub need_cheating_card_to_take_next_control: bool,
}

/// The state of a round of gambling, as plain values.
pub struct GamblingRoundView {
    pub active: Seq<PlayerUUID>,
    pub current: PlayerUUID,
    pub winner: PlayerUUID,
    pub pot: int,
    pub need_cheating: bool,
}

/// The round of gambling, if one is in progress.
#[derive(Clone, Debug)]
pub struct GamblingManager {
    pub gambling_round_or: Option<GamblingRound>,
}

/// The position of the first occurrence of `u` in `s`, or -1.
pub open spec fn id_index(s: Seq<PlayerUUID>, u: PlayerUUID) -> int
    decreases s.len(),
{
    if s.len() == 0 {
        -1
    } else if s[0] == u {
        0
    } else {
        let r = id_index(s.drop_first(), u);
        if r < 0 {
            -1
        } else {
            r + 1
        }
    }
}

/// `id_index` is the first position holding the identifier.
pub proof fn lemma_id_index(s: Seq<PlayerUUID>, u: PlayerUUID)
    ensures
        -1 <= id_index(s, u) < s.len(),
        id_index(s, u) >= 0 ==> s[id_index(s, u)] == u,
        id_index(s, u) < 0 ==> !s.contains(u),
        forall|j: int| 0 <= j < s.len() && j < id_index(s, u) ==> #[trigger] s[j] != u,
    decreases s.len(),
{
    if s.len() > 0 && s[0] != u {
        let rest = s.drop_first();
        lemma_id_index(rest, u);
        assert forall|j: int| 0 <= j < s.len() && j < id_index(s, u) implies #[trigger] s[j] != u by {
            if j > 0 {
                assert(s[j] == rest[j - 1]);
            }
        }
        if id_index(s, u) >= 0 {
            assert(s[id_index(s, u)] == rest[id_index(rest, u)]);
        }
        if id_index(s, u) < 0 {
            assert forall|j: int| 0 <= j < s.len() implies s[j] != u by {
                if j > 0 {
                    assert(s[j] == rest[j - 1]);
                }
            }
        }
    }
}

/// The player after `current` in the round: the one after its first
/// occurrence, wrapping around, or the first one if `current` is not in it.
/// With no players in the round, `current` stays.
pub open spec fn next_turn(active: Seq<PlayerUUID>, current: PlayerUUID) -> PlayerUUID {
    if active.len() == 0 {
        current
    } else {
        let pos = id_index(active, current);
        if pos >= 0 && pos < active.len() - 1 {
            active[pos + 1]
        } else {
            active[0]
        }
    }
}

/// The round and the players after `u` antes: one more gold in the pot (up
/// to `i32::MAX`), one gold less for `u`. Nothing changes without a round.
pub open spec fn g_ante(
    g: Option<GamblingRoundView>,
    players: Seq<(PlayerUUID, PlayerView)>,
    u: PlayerUUID,
) -> (Option<GamblingRoundView>, Seq<(PlayerUUID, PlayerView)>) {
    match g {
        Some(r) => (
            Some(GamblingRoundView { pot: if r.pot < i32::MAX { r.pot + 1 } else { r.pot }, ..r }),
            seat_change_gold(players, u, -1),
        ),
        None => (g, players),
    }
}

/// The round and the players after `u` starts a round of gambling: every
/// player still in the game takes part, `u` is in control and to play, and
/// antes. Nothing changes if a round is already in progress.
pub open spec fn g_start(
    g: Option<GamblingRoundView>,
    players: Seq<(PlayerUUID, PlayerView)>,
    u: PlayerUUID,
) -> (Option<GamblingRoundView>, Seq<(PlayerUUID, PlayerView)>) {
    match g {
        Some(_) => (g, players),
        None => g_ante(
            Some(
                GamblingRoundView {
                    active: alive_uuids(players),
                    current: u,
                    winner: u,
                    pot: 0,
                    need_cheating: false,
                },
            ),
            players,
            u,
        ),
    }
}

/// The round after `u` takes control of it: `u` is in control, the
/// cheating requirement is `need`, and the turn goes to the player after
/// `u`. Nothing changes without a round.
pub open spec fn g_take_control(
    g: Option<GamblingRoundView>,
    u: PlayerUUID,
    need: bool,
) -> Option<GamblingRoundView> {
    match g {
        Some(r) => Some(
            GamblingRoundView { winner: u, need_cheating: need, current: next_turn(r.active, u), ..r },
        ),
        None => None,
    }
}

/// The turn after a round of gambling ended: the order-drinks phase.
pub open spec fn g_end(t: TurnInfo) -> TurnInfo {
    TurnInfo { turn_phase: TurnPhase::OrderDrinks, ..t }
}

/// The round, players and turn after the player to play passes: the turn
/// goes to the next player taking part; if that is the player in control,
/// they win the pot, the round ends, and the turn moves to ordering drinks.
/// Nothing changes without a round.
pub open spec fn g_pass(
    g: Option<GamblingRoundView>,
    players: Seq<(PlayerUUID, PlayerView)>,
    t: TurnInfo,
) -> (Option<GamblingRoundView>, Seq<(PlayerUUID, PlayerView)>, TurnInfo) {
    match g {
        Some(r) => {
            let next = next_turn(r.active, r.current);
            if next == r.winner {
                (None, seat_change_gold(players, r.winner, r.pot), g_end(t))
            } else {
                (Some(GamblingRoundView { current: next, ..r }), players, t)
            }
        },
        None => (g, players, t),
    }
}

/// The round after `u` leaves it (their first place in it is removed);
/// unchanged if there is no round or `u` is not in it.
pub open spec fn g_leave(g: Option<GamblingRoundView>, u: PlayerUUID) -> Option<GamblingRoundView> {
    match g {
        Some(r) => if r.active.contains(u) {
            Some(GamblingRoundView { active: r.active.remove(id_index(r.active, u)), ..r })
        } else {
            g
        },
        None => g,
    }
}

/// It is `u`'s turn in the round of gambling, if there is one.
pub open spec fn g_is_turn(g: Option<GamblingRoundView>, u: PlayerUUID) -> bool {
    match g {
        Some(r) => r.current == u,
        None => false,
    }
}

/// The next card to take control of the round must be a cheating card.
pub open spec fn g_need_cheating(g: Option<GamblingRoundView>) -> bool {
    match g {
        Some(r) => r.need_cheating,
        None => false,
    }
}

/// The players that a round refers to are seated: the one in control and
/// every player taking part.
pub open spec fn g_seated(g: Option<GamblingRoundView>, players: Seq<(PlayerUUID, PlayerView)>) -> bool {
    match g {
        Some(r) => seated(players, r.winner) && all_in(r.active, players),
        None => true,
    }
}

/// Leaving a round keeps the player in control and keeps every player
/// taking part seated.
pub proof fn lemma_g_leave_seated(
    g: Option<GamblingRoundView>,
    players: Seq<(PlayerUUID, PlayerView)>,
    u: PlayerUUID,
)
    requires
        g_seated(g, players),
    ensures
        g_seated(g_leave(g, u), players),
        g_leave(g, u) is Some <==> g is Some,
        g_leave(g, u) matches Some(r2) ==> r2.winner == g->0.winner,
{
    if let Some(r) = g {
        if r.active.contains(u) {
            lemma_id_index(r.active, u);
            let a2 = r.active.remove(id_index(r.active, u));
            assert forall|i: int| 0 <= i < a2.len() implies crate::player_manager::uuid_index(
                players,
                #[trigger] a2[i],
            ) >= 0 by {
                if i < id_index(r.active, u) {
                    assert(a2[i] == r.active[i]);
                } else {
                    assert(a2[i] == r.active[i + 1]);
                }
            }
        }
    }
}

/// The position of the first occurrence of `u` in `v`.
pub fn find_id(v: &Vec<PlayerUUID>, u: &PlayerUUID) -> (r: Option<usize>)
    ensures
        r matches Some(i) ==> i == id_index(v@, *u) && i < v@.len(),
        r is None <==> id_index(v@, *u) < 0,
        r is None <==> !v@.contains(*u),
{
    proof {
        lemma_id_index(v@, *u);
    }
    let mut i: usize = 0;
    while i < v.len()
        invariant
            i <= v@.len(),
            forall|j: int| 0 <= j < i ==> v@[j] != *u,
            -1 <= id_index(v@, *u) < v@.len(),
            id_index(v@, *u) >= 0 ==> v@[id_index(v@, *u)] == *u,
            forall|j: int| 0 <= j < v@.len() && j < id_index(v@, *u) ==> #[trigger] v@[j] != *u,
            id_index(v@, *u) < 0 ==> !v@.contains(*u),
        decreases v@.len() - i,
    {
        if v[i] == *u {
            return Some(i);
        }
        i = i + 1;
    }
    proof {
        if id_index(v@, *u) >= 0 {
            assert(v@[id_index(v@, *u)] == *u);
        }
    }
    None
}

/// The player after `current` among `active` (see `next_turn`).
pub fn next_turn_exec(active: &Vec<PlayerUUID>, current: PlayerUUID) -> (r: PlayerUUID)
    ensures
        r == next_turn(active@, current),
{
    let n = active.len();
    if n == 0 {
        return current;
    }
    match find_id(active, &current) {
        Some(i) => if i < n - 1 {
            active[i + 1]
        } else {
            active[0]
        },
        None => active[0],
    }
}

impl GamblingRound {
    /// The round as plain values.
    pub open spec fn view(&self) -> GamblingRoundView {
        GamblingRoundView {
            active: self.active_player_uuids@,
            current: self.current_player_turn,
            winner: self.winning_player,
            pot: self.pot_amount as int,
            need_cheating: self.need_cheating_card_to_take_next_control,
        }
    }
}

impl GamblingManager {
    /// The round in progress as plain values, if any.
    pub open spec fn view(&self) -> Option<GamblingRoundView> {
        match self.gambling_round_or {
            Some(r) => Some(r.view()),
            None => None,
        }
    }

    /// A round of gambling is in progress.
    pub open spec fn spec_round_in_progress(&self) -> bool {
        self.gambling_round_or is Some
    }

    /// It is the given player's turn in the round in progress.
    pub open spec fn spec_is_turn(&self, player_uuid: PlayerUUID) -> bool {
        match self.gambling_round_or {
            Some(r) => r.current_player_turn == player_uuid,
            None => false,
        }
    }

    /// The next card to take control must be a cheating card.
    pub open spec fn spec_need_cheating(&self) -> bool {
        match self.gambling_round_or {
            Some(r) => r.need_cheating_card_to_take_next_control,
            None => false,
        }
    }

    /// No round of gambling.
    pub fn new() -> (g: Self)
        ensures
            g@ is None,
    {
        GamblingManager { gambling_round_or: None }
    }

    /// Whether a round of gambling is in progress.
    pub fn round_in_progress(&self) -> (b: bool)
        ensures
            b == self.spec_round_in_progress(),
            b == self@ is Some,
    {
        self.gambling_round_or.is_some()
    }

    /// Whether it is the given player's turn in the round of gambling.
    pub fn is_turn(&self, player_uuid: &PlayerUUID) -> (b: bool)
        ensures
            b == self.spec_is_turn(*player_uuid),
            b == g_is_turn(self@, *player_uuid),
    {
        match &self.gambling_round_or {
            Some(gambling_round) => gambling_round.current_player_turn == *player_uuid,
            None => false,
        }
    }

    /// Whether the next card to take control must be a cheating card.
    pub fn need_cheating_card_to_take_next_control(&self) -> (b: bool)
        ensures
            b == self.spec_need_cheating(),
            b == g_need_cheating(self@),
    {
        match &self.gambling_round_or {
            Some(gambling_round) => gambling_round.need_cheating_card_to_take_next_control,
            None => false,
        }
    }

    /// The players taking part in the round, or none without a round.
    pub fn clone_uuids_of_all_active_players(&self) -> (v: Vec<PlayerUUID>)
        ensures
            v@ == match self@ {
                Some(r) => r.active,
                None => Seq::<PlayerUUID>::empty(),
            },
    {
        match &self.gambling_round_or {
            Some(gambling_round) => gambling_round.active_player_uuids.clone(),
            None => Vec::new(),
        }
    }

    /// Passes the turn in the round to the next player taking part.
    fn increment_player_turn(&mut self)
        ensures
            final(self)@ == match old(self)@ {
                Some(r) => Some(GamblingRoundView { current: next_turn(r.active, r.current), ..r }),
                None => None,
            },
    {
        match &mut self.gambling_round_or {
            Some(gambling_round) => {
                let next = next_turn_exec(
                    &gambling_round.active_player_uuids,
                    gambling_round.current_player_turn,
                );
                gambling_round.current_player_turn = next;
            },
            None => {},
        }
    }

    /// Starts a round of gambling with every player still in the game, the
    /// given player in control and to play; that player antes. Nothing
    /// happens if a round is already in progress.
    pub fn start_round(&mut self, player_uuid: PlayerUUID, player_manager: &mut PlayerManager)
        requires
            old(self)@ is None ==> old(player_manager).has(player_uuid),
        ensures
            (final(self)@, final(player_manager)@) == g_start(
                old(self)@,
                old(player_manager)@,
                player_uuid,
            ),
            final(player_manager).players@.len() == old(player_manager).players@.len(),
            forall|i: int|
                0 <= i < old(player_manager).players@.len()
                    ==> (#[trigger] final(player_manager).players@[i]).0
                    == old(player_manager).players@[i].0,
    {
        if self.gambling_round_or.is_none() {
            self.gambling_round_or = Some(
                GamblingRound {
                    active_player_uuids: player_manager.clone_uuids_of_all_alive_players(),
                    current_player_turn: player_uuid,
                    winning_player: player_uuid,
                    pot_amount: 0,
                    need_cheating_card_to_take_next_control: false,
                },
            );
            self.ante_up(&player_uuid, player_manager);
        }
    }

    /// Takes control of the round: the player becomes the one in control,
    /// the cheating requirement is set as given, and the turn passes to the
    /// player after them. Nothing happens without a round.
    pub fn take_control_of_round(
        &mut self,
        player_uuid: PlayerUUID,
        need_cheating_card_to_take_next_control: bool,
    )
        ensures
            final(self)@ == g_take_control(
                old(self)@,
                player_uuid,
                need_cheating_card_to_take_next_control,
            ),
    {
        match &mut self.gambling_round_or {
            Some(gambling_round) => {
                gambling_round.winning_player = player_uuid;
                gambling_round.need_cheating_card_to_take_next_control =
                need_cheating_card_to_take_next_control;
                gambling_round.current_player_turn = player_uuid;
            },
            None => return ,
        }
        self.increment_player_turn();
    }

    /// The player antes: one more gold in the pot (up to `i32::MAX`), one
    /// gold less for the player. Nothing happens without a round.
    pub fn ante_up(&mut self, player_uuid: &PlayerUUID, player_manager: &mut PlayerManager)
        requires
            old(self)@ is Some ==> old(player_manager).has(*player_uuid),
        ensures
            (final(self)@, final(player_manager)@) == g_ante(
                old(self)@,
                old(player_manager)@,
                *player_uuid,
            ),
            final(player_manager).players@.len() == old(player_manager).players@.len(),
            forall|i: int|
                0 <= i < old(player_manager).players@.len()
                    ==> (#[trigger] final(player_manager).players@[i]).0
                    == old(player_manager).players@[i].0,
    {
        match &mut self.gambling_round_or {
            Some(gambling_round) => {
                if gambling_round.pot_amount < i32::MAX {
                    gambling_round.pot_amount = gambling_round.pot_amount + 1;
                }
            },
            None => return ,
        };
        proof {
            lemma_uuid_index(player_manager.players@, *player_uuid);
            lemma_view_index(*player_manager);
        }
        let ghost before = *player_manager;
        match player_manager.get_player_by_uuid_mut(player_uuid) {
            Some(player) => player.change_gold(-1),
            None => {},
        }
        proof {
            let i = before.index_of(*player_uuid);
            lemma_view_update(before, *player_manager, i, *player_uuid, player_manager.players@[i].1);
        }
    }

    /// Passes in the round: the turn goes to the next player taking part. If
    /// it comes back to the player in control, that player wins the pot, the
    /// round ends and the turn moves to ordering drinks. Nothing happens
    /// without a round.
    pub fn pass(&mut self, player_manager: &mut PlayerManager, turn_info: &mut TurnInfo)
        requires
            old(self)@ matches Some(r) ==> old(player_manager).has(r.winner),
        ensures
            (final(self)@, final(player_manager)@, *final(turn_info)) == g_pass(
                old(self)@,
                old(player_manager)@,
                *old(turn_info),
            ),
            final(player_manager).players@.len() == old(player_manager).players@.len(),
            forall|i: int|
                0 <= i < old(player_manager).players@.len()
                    ==> (#[trigger] final(player_manager).players@[i]).0
                    == old(player_manager).players@[i].0,
    {
        self.increment_player_turn();
        let (winner, pot_amount) = match &self.gambling_round_or {
            Some(gambling_round) => {
                if gambling_round.current_player_turn == gambling_round.winning_player {
                    (gambling_round.winning_player, gambling_round.pot_amount)
                } else {
                    return ;
                }
            },
            None => return ,
        };
        proof {
            lemma_uuid_index(player_manager.players@, winner);
            lemma_view_index(*player_manager);
        }
        let ghost before = *player_manager;
        match player_manager.get_player_by_uuid_mut(&winner) {
            Some(player) => player.change_gold(pot_amount),
            None => {},
        }
        proof {
            let i = before.index_of(winner);
            lemma_view_update(before, *player_manager, i, winner, player_manager.players@[i].1);
        }
        self.end_round_and_discard_gold(turn_info);
    }

    /// Ends the round; the pot goes to the inn and the turn moves to
    /// ordering drinks.
    pub fn end_round_and_discard_gold(&mut self, turn_info: &mut TurnInfo)
        ensures
            final(self)@ is None,
            *final(turn_info) == g_end(*old(turn_info)),
    {
        self.gambling_round_or = None;
        turn_info.set_order_drinks_phase();
    }

    /// The player leaves the round of gambling. An error if no round is in
    /// progress or the player is not taking part.
    pub fn leave_gambling_round(&mut self, player_uuid: &PlayerUUID) -> (r: Result<(), Error>)
        ensures
            final(self)@ == g_leave(old(self)@, *player_uuid),
            old(self)@ is None ==> (r matches Err(e) && e.message@
                == "No round of gambling is in progress"@),
            old(self)@ matches Some(g) ==> if g.active.contains(*player_uuid) {
                r is Ok
            } else {
                r matches Err(e) && e.message@ == "Player is not in the round of gambling"@
            },
    {
        match &mut self.gambling_round_or {
            Some(gambling_round) => match find_id(&gambling_round.active_player_uuids, player_uuid) {
                Some(i) => {
                    gambling_round.active_player_uuids.remove(i);
                    Ok(())
                },
                None => Err(Error::new("Player is not in the round of gambling")),
            },
            None => Err(Error::new("No round of gambling is in progress")),
        }
    }
}

impl Default for GamblingManager {
    /// No round of gambling.
    fn default() -> (g: Self)
        ensures
            g@ is None,
    {
        GamblingManager::new()
    }
}

/// Passing in a round pays no one but the player in control. When the turn
/// comes back to them, the round ends, they gain the pot, every other
/// player is as they were, and the turn moves on to ordering drinks;
/// otherwise no player changes and the turn in the round moves to the next
/// player taking part.
pub proof fn law_pass_pays_only_the_winner(
    g: Option<GamblingRoundView>,
    players: Seq<(PlayerUUID, PlayerView)>,
    t: TurnInfo,
)
    requires
        g is Some,
        seated(players, g->0.winner),
    ensures
        ({
            let r = g->0;
            let (g2, p2, t2) = g_pass(g, players, t);
            &&& p2.len() == players.len()
            &&& forall|i: int|
                0 <= i < players.len() && players[i].0 != r.winner ==> #[trigger] p2[i] == players[i]
            &&& g2 is Some ==> p2 == players && t2 == t && g2->0 == (GamblingRoundView {
                current: next_turn(r.active, r.current),
                ..r
            }) && next_turn(r.active, r.current) != r.winner
            &&& g2 is None ==> next_turn(r.active, r.current) == r.winner && seat(p2, r.winner)
                == pv_change_gold(seat(players, r.winner), r.pot) && t2 == (TurnInfo {
                turn_phase: TurnPhase::OrderDrinks,
                ..t
            })
            &&& g2 is None && 0 <= r.pot && 0 <= seat(players, r.winner).gold && seat(
                players,
                r.winner,
            ).gold + r.pot <= i32::MAX ==> seat(p2, r.winner) == (PlayerView {
                gold: seat(players, r.winner).gold + r.pot,
                ..seat(players, r.winner)
            })
        }),
{
    let r = g->0;
    let p = pv_change_gold(seat(players, r.winner), r.pot);
    lemma_uuid_index(players, r.winner);
    lemma_seat_set_index(players, r.winner, p);
}

/// In a round whose players are each in it once, the turn passes in
/// seating order: after the player at position `i` comes the one at
/// position `i + 1`, and after the last comes the first.
pub proof fn law_next_turn_goes_round_in_order(active: Seq<PlayerUUID>, i: int)
    requires
        active.no_duplicates(),
        0 <= i < active.len(),
    ensures
        next_turn(active, active[i]) == active[(i + 1) % (active.len() as int)],
{
    lemma_id_index(active, active[i]);
    assert(active.contains(active[i]));
    let pos = id_index(active, active[i]);
    assert(pos == i);
    let n = active.len() as int;
    if i < n - 1 {
        assert((i + 1) % n == i + 1) by (nonlinear_arith)
            requires
                0 <= i + 1 < n,
        ;
    } else {
        assert((i + 1) % n == 0) by (nonlinear_arith)
            requires
                i + 1 == n,
                n > 0,
        ;
    }
}

/// Anteing moves one gold from the player to the pot: the pot grows by one,
/// the player has one gold less and is otherwise as they were, and every
/// other player is unchanged.
pub proof fn law_ante_moves_one_gold_to_the_pot(
    r: GamblingRoundView,
    players: Seq<(PlayerUUID, PlayerView)>,
    u: PlayerUUID,
)
    requires
        seated(players, u),
        1 <= seat(players, u).gold <= i32::MAX,
        r.pot < i32::MAX,
    ensures
        ({
            let (g2, p2) = g_ante(Some(r), players, u);
            &&& g2 == Some(GamblingRoundView { pot: r.pot + 1, ..r })
            &&& seat(p2, u) == (PlayerView { gold: seat(players, u).gold - 1, ..seat(players, u) })
            &&& p2.len() == players.len()
            &&& forall|i: int|
                0 <= i < players.len() && players[i].0 != u ==> #[trigger] p2[i] == players[i]
        }),
{
    let p = pv_change_gold(seat(players, u), -1);
    lemma_uuid_index(players, u);
    lemma_seat_set_index(players, u, p);
}

/// Starting a round of gambling: every player still in the game takes part,
/// the starting player is in control and to play, no cheating card is
/// needed, and the starting player antes one gold into the pot. A round
/// already going on is left as it is.
pub proof fn law_start_round_with_everyone_still_in(
    players: Seq<(PlayerUUID, PlayerView)>,
    u: PlayerUUID,
)
    requires
        seated(players, u),
        1 <= seat(players, u).gold <= i32::MAX,
    ensures
        ({
            let (g2, p2) = g_start(None, players, u);
            &&& g2 == Some(
                GamblingRoundView {
                    active: alive_uuids(players),
                    current: u,
                    winner: u,
                    pot: 1,
                    need_cheating: false,
                },
            )
            &&& seat(p2, u) == (PlayerView { gold: seat(players, u).gold - 1, ..seat(players, u) })
            &&& forall|i: int|
                0 <= i < players.len() && players[i].0 != u ==> #[trigger] p2[i] == players[i]
        }),
        forall|r: GamblingRoundView| g_start(Some(r), players, u) == (Some(r), players),
{
    let r = GamblingRoundView {
        active: alive_uuids(players),
        current: u,
        winner: u,
        pot: 0,
        need_cheating: false,
    };
    law_ante_moves_one_gold_to_the_pot(r, players, u);
}

} // verus!
