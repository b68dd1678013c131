use crate::deck::AutoShufflingDeck;
use crate::drink::{clamp_i32, create_drink_deck, discardable_cards, DrinkCard};
use crate::error::Error;
use crate::gambling_manager::{
    g_is_turn, g_pass, g_seated, id_index, GamblingManager, GamblingRoundView,
};
use crate::game::Character;
use crate::interrupt_manager::{
    root_item_type, root_name, shown_cards, current_turn, multi_stack, resolve_drink_cards, resolve_player_cards, single_stack,
    spec_increment, spec_push, stacks_ok, InterruptManager, InterruptRoot, InterruptStackResolveData,
    ResolveView, StackView,
};
use crate::player::{
    card_is_directed, card_name, drew_to_full, drink_outcome, player_data_view,
    pv_discard, pv_drink, PlayerView,
};
use crate::player_view::{GameViewInterruptData, GameViewPlayerCard, GameViewPlayerData};
use crate::player_card::{
    card_can_play, card_ok, root_can_play, root_card_ok, spec_interrupt_play,
    spec_pre_interrupt_play, PlayerCard, RootPlayerCard, ShouldInterrupt, TargetStyle,
};
use crate::player_manager::{
    alive_uuids, discard_all, seat, seat_set, seated, spec_next_alive, starting_gold,
    NextPlayerUUIDOption, PlayerManager,
};
use crate::uuid::{uuid_text, PlayerUUID};
use vstd::multiset::Multiset;
use vstd::prelude::*;

verus! {

/// The state that cards act on, as plain values: the players in seating
/// order, the round of gambling if any, and the turn.
pub struct Table {
    pub players: Seq<(PlayerUUID, PlayerView)>,
    pub gambling: Option<GamblingRoundView>,
    pub turn: TurnInfo,
}

/// The table made of a player manager, a gambling manager and a turn.
pub open spec fn table(pm: PlayerManager, gm: GamblingManager, ti: TurnInfo) -> Table {
    Table { players: pm@, gambling: gm@, turn: ti }
}

/// The players that the round of gambling refers to are seated.
pub open spec fn table_ok(s: Table) -> bool {
    g_seated(s.gambling, s.players)
}

/// `a` and `b` seat the same players in the same order.
pub open spec fn same_ids<A, B>(a: Seq<(PlayerUUID, A)>, b: Seq<(PlayerUUID, B)>) -> bool {
    &&& a.len() == b.len()
    &&& forall|i: int| 0 <= i < a.len() ==> (#[trigger] a[i]).0 == b[i].0
}

/// The turn with `amount` more drinks to order (kept within the range of
/// `i32`).
pub open spec fn add_drinks(t: TurnInfo, amount: int) -> TurnInfo {
    TurnInfo { drinks_to_order: clamp_i32(t.drinks_to_order + amount) as i32, ..t }
}

/// The phase of a player's turn.
#[derive(Clone, Copy, PartialEq, Eq, Structural, Debug)]
pub enum TurnPhase {
    DiscardAndDraw,
    Action,
    OrderDrinks,
}

/// Whose turn it is, in which phase, and how many drinks are left to order.
#[derive(Clone, Copy, PartialEq, Eq, Structural, Debug)]
pub struct TurnInfo {
    pub player_turn: PlayerUUID,
    pub turn_phase: TurnPhase,
    pub drinks_to_order: i32,
}

impl TurnInfo {
    /// The start of the given player's turn: discard-and-draw phase, one
    /// drink to order.
    pub fn new(player_uuid: PlayerUUID) -> (t: Self)
        ensures
            t == (TurnInfo {
                player_turn: player_uuid,
                turn_phase: TurnPhase::DiscardAndDraw,
                drinks_to_order: 1,
            }),
    {
        TurnInfo {
            player_turn: player_uuid,
            turn_phase: TurnPhase::DiscardAndDraw,
            drinks_to_order: 1,
        }
    }

    /// Moves to the order-drinks phase.
    pub fn set_order_drinks_phase(&mut self)
        ensures
            *final(self) == (TurnInfo { turn_phase: TurnPhase::OrderDrinks, ..*old(self) }),
    {
        self.turn_phase = TurnPhase::OrderDrinks;
    }

    /// Whether it is the order-drinks phase.
    pub fn is_order_drink_phase(&self) -> (b: bool)
        ensures
            b == (self.turn_phase == TurnPhase::OrderDrinks),
    {
        self.turn_phase == TurnPhase::OrderDrinks
    }

    /// Adds to the number of drinks left to order (kept within the range of
    /// `i32`).
    pub fn add_drinks_to_order(&mut self, amount: i32)
        ensures
            *final(self) == add_drinks(*old(self), amount as int),
    {
        let v: i64 = self.drinks_to_order as i64 + amount as i64;
        if v > i32::MAX as i64 {
            self.drinks_to_order = i32::MAX;
        } else if v < i32::MIN as i64 {
            self.drinks_to_order = i32::MIN;
        } else {
            self.drinks_to_order = v as i32;
        }
    }

    /// Whose turn it is.
    pub fn get_current_player_turn(&self) -> (u: PlayerUUID)
        ensures
            u == self.player_turn,
    {
        self.player_turn
    }

    /// The phase of the turn.
    pub fn get_turn_phase(&self) -> (p: TurnPhase)
        ensures
            p == self.turn_phase,
    {
        self.turn_phase
    }

    /// An action card may be played by the player: it is their action phase
    /// and no round of gambling is in progress.
    pub open spec fn spec_can_play_action_card(
        &self,
        player_uuid: PlayerUUID,
        gambling: Option<GamblingRoundView>,
    ) -> bool {
        &&& self.player_turn == player_uuid
        &&& self.turn_phase == TurnPhase::Action
        &&& gambling is None
    }

    /// Whether the player may play an action card now.
    pub fn can_play_action_card(
        &self,
        player_uuid: &PlayerUUID,
        gambling_manager: &GamblingManager,
    ) -> (b: bool)
        ensures
            b == self.spec_can_play_action_card(*player_uuid, gambling_manager@),
    {
        self.player_turn == *player_uuid && self.turn_phase == TurnPhase::Action
            && !gambling_manager.round_in_progress()
    }
}


/// The game logic of a running game: the players, the round of gambling,
/// the interrupts, the drink deck and the turn.
#[derive(Clone, Debug)]
pub struct GameLogic {
    pub player_manager: PlayerManager,
    pub gambling_manager: GamblingManager,
    pub interrupt_manager: InterruptManager,
    pub drink_deck: AutoShufflingDeck<DrinkCard>,
    pub turn_info: TurnInfo,
}

/// The game logic as plain values.
pub struct GameLogicView {
    pub table: Table,
    pub stacks: Seq<StackView>,
    pub drink_draw: Seq<DrinkCard>,
    pub drink_discard: Seq<DrinkCard>,
}

impl View for GameLogic {
    type V = GameLogicView;

    open spec fn view(&self) -> GameLogicView {
        GameLogicView {
            table: table(self.player_manager, self.gambling_manager, self.turn_info),
            stacks: self.interrupt_manager@,
            drink_draw: self.drink_deck.draw_pile@,
            drink_discard: self.drink_deck.discard_pile@,
        }
    }
}

/// The game with the given table.
pub open spec fn with_table(v: GameLogicView, t: Table) -> GameLogicView {
    GameLogicView { table: t, ..v }
}

/// The game with the given players.
pub open spec fn with_players(v: GameLogicView, p: Seq<(PlayerUUID, PlayerView)>) -> GameLogicView {
    GameLogicView { table: Table { players: p, ..v.table }, ..v }
}

/// The game with the turn in the given phase.
pub open spec fn with_phase(v: GameLogicView, phase: TurnPhase) -> GameLogicView {
    GameLogicView {
        table: Table { turn: TurnInfo { turn_phase: phase, ..v.table.turn }, ..v.table },
        ..v
    }
}

/// The turn's action phase ends: the order-drinks phase follows. An error
/// outside the action phase.
pub open spec fn spec_skip(v: GameLogicView) -> Result<GameLogicView, Seq<char>> {
    if v.table.turn.turn_phase == TurnPhase::Action {
        Ok(with_phase(v, TurnPhase::OrderDrinks))
    } else {
        Err("It is not the player's action phase"@)
    }
}

/// The resolved root ends the current player's action phase: it is an
/// Action card that is not a gambling card.
pub open spec fn action_over(r: ResolveView) -> bool {
    r.root matches Some((c, _)) && c.spec_is_action_card() && !c.spec_is_gambling_card()
}

/// The spent cards go back: player cards to their owners' discard piles,
/// drink cards to the drink deck's discard pile.
pub open spec fn discard_spent(v: GameLogicView, r: ResolveView) -> GameLogicView {
    GameLogicView {
        table: Table { players: discard_all(v.table.players, resolve_player_cards(r)), ..v.table },
        drink_discard: v.drink_discard + resolve_drink_cards(r),
        ..v
    }
}

/// After an interrupt moved on: if a session resolved, its cards go back,
/// and a resolved Action card ends the action phase (an error outside it,
/// with the cards not handed back).
pub open spec fn settle(v: GameLogicView, r: Option<ResolveView>) -> Result<
    GameLogicView,
    (Seq<char>, GameLogicView),
> {
    match r {
        None => Ok(v),
        Some(res) => if action_over(res) {
            match spec_skip(v) {
                Ok(v2) => Ok(discard_spent(v2, res)),
                Err(m) => Err((m, v)),
            }
        } else {
            Ok(discard_spent(v, res))
        },
    }
}

/// The game with the stacks and table an interrupt step left.
pub open spec fn after_step(
    v: GameLogicView,
    x: (Option<ResolveView>, Seq<StackView>, Table),
) -> GameLogicView {
    GameLogicView { table: x.2, stacks: x.1, ..v }
}

/// The outcome of `u` passing: during an interrupt, passing on it if it is
/// their turn to interrupt; otherwise passing in the round of gambling if it
/// is their turn there; otherwise ending their action phase if they may play
/// an action card. An error if none applies.
pub open spec fn spec_pass(v: GameLogicView, u: PlayerUUID) -> (Result<(), Seq<char>>, GameLogicView) {
    if v.stacks.len() > 0 {
        if current_turn(v.stacks) == Some(u) {
            match spec_increment(v.stacks, v.table, true) {
                Err(m) => (Err(m), v),
                Ok(x) => match settle(after_step(v, x), x.0) {
                    Ok(v2) => (Ok(()), v2),
                    Err((m, v2)) => (Err(m), v2),
                },
            }
        } else {
            (Err("Cannot pass at this time"@), v)
        }
    } else if g_is_turn(v.table.gambling, u) {
        let (g, p, t) = g_pass(v.table.gambling, v.table.players, v.table.turn);
        (Ok(()), with_table(v, Table { players: p, gambling: g, turn: t }))
    } else if v.table.turn.spec_can_play_action_card(u, v.table.gambling) {
        (Ok(()), with_phase(v, TurnPhase::OrderDrinks))
    } else {
        (Err("Cannot pass at this time"@), v)
    }
}

/// The identifiers rotated to start with `u` (unchanged if `u` is not
/// among them).
pub open spec fn rotate_to(ids: Seq<PlayerUUID>, u: PlayerUUID) -> Seq<PlayerUUID> {
    let i = if id_index(ids, u) < 0 {
        0
    } else {
        id_index(ids, u)
    };
    ids.skip(i) + ids.take(i)
}

/// The players still in the game other than `u`, starting after `u`.
pub open spec fn other_targets(players: Seq<(PlayerUUID, PlayerView)>, u: PlayerUUID) -> Seq<
    PlayerUUID,
> {
    let t = rotate_to(alive_uuids(players), u);
    if t.len() > 0 {
        t.drop_first()
    } else {
        t
    }
}

/// The players taking part in the round of gambling, starting with `u`.
pub open spec fn gambling_targets(g: Option<GamblingRoundView>, u: PlayerUUID) -> Seq<PlayerUUID> {
    rotate_to(
        match g {
            Some(r) => r.active,
            None => Seq::empty(),
        },
        u,
    )
}

/// The players and the round after the root card acts on each target in
/// turn.
pub open spec fn play_on_all(
    card: RootPlayerCard,
    targets: Seq<PlayerUUID>,
    players: Seq<(PlayerUUID, PlayerView)>,
    g: Option<GamblingRoundView>,
) -> (Seq<(PlayerUUID, PlayerView)>, Option<GamblingRoundView>)
    decreases targets.len(),
{
    if targets.len() == 0 {
        (players, g)
    } else {
        let (p1, g1) = play_on_all(card, targets.drop_last(), players, g);
        spec_interrupt_play(card, targets.last(), p1, g1)
    }
}

/// `u` plays the root card aimed at `target` alone: its effect before any
/// interrupt; then it opens an interrupt for the target if it has interrupt
/// data, or acts on the target at once. `Ok(Some(card))` hands the card to
/// the discard pile, `Ok(None)` leaves it on the stack, an error hands it
/// back.
pub open spec fn spec_play_single(
    v: GameLogicView,
    card: RootPlayerCard,
    u: PlayerUUID,
    target: PlayerUUID,
) -> (Result<Option<RootPlayerCard>, (RootPlayerCard, Seq<char>)>, GameLogicView) {
    let (si, t1) = spec_pre_interrupt_play(card, u, v.table);
    let v1 = with_table(v, t1);
    if si == ShouldInterrupt::No {
        (Ok(Some(card)), v1)
    } else {
        match card.interrupt_data_or {
            Some(d) => if v1.stacks.len() > 0 {
                (Err((card, "An interrupt is already in progress"@)), v1)
            } else {
                (
                    Ok(None),
                    GameLogicView {
                        stacks: seq![single_stack(card, u, target, d.interrupt_type_output)],
                        ..v1
                    },
                )
            },
            None => {
                let (p, g) = spec_interrupt_play(card, target, t1.players, t1.gambling);
                (Ok(Some(card)), with_table(v1, Table { players: p, gambling: g, ..t1 }))
            },
        }
    }
}

/// `u` plays the root card aimed at each of `targets` (see
/// `spec_play_single`); it may not be directed at one player.
pub open spec fn spec_play_list(
    v: GameLogicView,
    card: RootPlayerCard,
    u: PlayerUUID,
    other: Option<PlayerUUID>,
    targets: Seq<PlayerUUID>,
) -> (Result<Option<RootPlayerCard>, (RootPlayerCard, Seq<char>)>, GameLogicView) {
    if other is Some {
        (Err((card, "Cannot direct this card at another player"@)), v)
    } else {
        let (si, t1) = spec_pre_interrupt_play(card, u, v.table);
        let v1 = with_table(v, t1);
        if si == ShouldInterrupt::No {
            (Ok(Some(card)), v1)
        } else {
            match card.interrupt_data_or {
                Some(d) => if v1.stacks.len() > 0 {
                    (Err((card, "An interrupt is already in progress"@)), v1)
                } else if targets.len() == 0 {
                    (Err((card, "Cannot start an interrupt with no targeted players"@)), v1)
                } else {
                    (
                        Ok(None),
                        GameLogicView {
                            stacks: seq![multi_stack(card, u, targets, d.interrupt_type_output)],
                            ..v1
                        },
                    )
                },
                None => {
                    let (p, g) = play_on_all(card, targets, t1.players, t1.gambling);
                    (Ok(Some(card)), with_table(v1, Table { players: p, gambling: g, ..t1 }))
                },
            }
        }
    }
}

/// `u` plays a root card, directed at `other` or not: it must be playable,
/// and directed as its target style asks.
pub open spec fn spec_process_root(
    v: GameLogicView,
    card: RootPlayerCard,
    u: PlayerUUID,
    other: Option<PlayerUUID>,
) -> (Result<Option<RootPlayerCard>, (RootPlayerCard, Seq<char>)>, GameLogicView) {
    if !root_can_play(card, u, v.table.gambling, v.stacks.len() > 0, v.table.turn) {
        (Err((card, "Cannot play card at this time"@)), v)
    } else {
        match card.target_style {
            TargetStyle::SelfPlayer => if other is Some {
                (Err((card, "Cannot direct this card at another player"@)), v)
            } else {
                spec_play_single(v, card, u, u)
            },
            TargetStyle::SingleOtherPlayer => match other {
                Some(t) => if t == u {
                    (Err((card, "Must not direct this card at yourself"@)), v)
                } else {
                    spec_play_single(v, card, u, t)
                },
                None => (Err((card, "Must direct this card at another player"@)), v),
            },
            TargetStyle::AllOtherPlayers => spec_play_list(
                v,
                card,
                u,
                other,
                other_targets(v.table.players, u),
            ),
            TargetStyle::AllGamblingPlayersIncludingSelf => spec_play_list(
                v,
                card,
                u,
                other,
                gambling_targets(v.table.gambling, u),
            ),
        }
    }
}

/// `u` plays a card, directed at `other` or not: a root card as
/// `spec_process_root` says; an interrupt card goes on the current stack
/// and the turn to interrupt moves on. (In a well-formed game an interrupt
/// card that may be played always ends up on the stack; the other outcomes
/// written here cannot happen.)
pub open spec fn spec_process_card(
    v: GameLogicView,
    card: PlayerCard,
    u: PlayerUUID,
    other: Option<PlayerUUID>,
) -> (Result<Option<PlayerCard>, (PlayerCard, Seq<char>)>, GameLogicView) {
    if !card_can_play(card, u, v.table.gambling, v.stacks, v.table.turn) {
        (Err((card, "Card cannot be played at this time"@)), v)
    } else {
        match card {
            PlayerCard::RootPlayerCard(r) => {
                let (res, v1) = spec_process_root(v, r, u, other);
                (
                    match res {
                        Ok(Some(c)) => Ok(Some(PlayerCard::RootPlayerCard(c))),
                        Ok(None) => Ok(None),
                        Err((c, m)) => Err((PlayerCard::RootPlayerCard(c), m)),
                    },
                    v1,
                )
            },
            PlayerCard::InterruptPlayerCard(c) => if other is Some {
                (Err((card, "Cannot direct this card at another player"@)), v)
            } else {
                match spec_increment(spec_push(v.stacks, c, u), v.table, false) {
                    Ok(x) => match settle(after_step(v, x), x.0) {
                        Ok(v2) => (Ok(None), v2),
                        Err((_, v2)) => (Ok(None), v2),
                    },
                    Err(_) => (Ok(None), v),
                }
            },
        }
    }
}

/// The next player still in the game starts their turn (nothing changes if
/// there is none).
pub open spec fn spec_next_turn(v: GameLogicView) -> GameLogicView {
    match spec_next_alive(v.table.players, v.table.turn.player_turn) {
        NextPlayerUUIDOption::Next(n) => with_table(
            v,
            Table {
                turn: TurnInfo {
                    player_turn: n,
                    turn_phase: TurnPhase::DiscardAndDraw,
                    drinks_to_order: 1,
                },
                ..v.table
            },
        ),
        _ => v,
    }
}

/// The message for a player who is not in the game.
pub open spec fn no_player_message(u: PlayerUUID) -> Seq<char> {
    "Player does not exist with player id "@ + uuid_text(u.value)
}

/// `u` drinks from the top of their drink pile, the drink cards go to the
/// drink deck's discard pile, and the next player's turn starts.
pub open spec fn spec_drink_phase(v: GameLogicView, u: PlayerUUID) -> Result<GameLogicView, Seq<char>> {
    if !seated(v.table.players, u) {
        Err(no_player_message(u))
    } else {
        let p = seat(v.table.players, u);
        let (drinks, ignored, _) = drink_outcome(p.drink_me_pile);
        Ok(
            spec_next_turn(
                GameLogicView {
                    table: Table { players: seat_set(v.table.players, u, pv_drink(p)), ..v.table },
                    drink_discard: v.drink_discard + discardable_cards(drinks, ignored),
                    ..v
                },
            ),
        )
    }
}

/// The root card is a game card, if the root is a card.
pub open spec fn root_ok(root: InterruptRoot) -> bool {
    match root {
        InterruptRoot::RootPlayerCard(r) => root_card_ok(r.root_card),
        InterruptRoot::Drink(_) => true,
    }
}

/// The root is an Action card that is not a gambling card.
pub open spec fn is_action_root(root: InterruptRoot) -> bool {
    root matches InterruptRoot::RootPlayerCard(r) && r.root_card.spec_is_action_card()
        && !r.root_card.spec_is_gambling_card()
}

/// Every card the player holds is a game card.
pub open spec fn holds_ok(p: PlayerView) -> bool {
    forall|c: PlayerCard| #[trigger] p.cards().count(c) > 0 ==> card_ok(c)
}

/// Every card any player holds is a game card.
pub open spec fn cards_ok(players: Seq<(PlayerUUID, PlayerView)>) -> bool {
    forall|i: int| 0 <= i < players.len() ==> holds_ok(#[trigger] players[i].1)
}

/// A consistent game: the interrupt state is consistent (see
/// `interrupt_wf`), the player whose turn it is is seated, and every card
/// held is a game card.
pub open spec fn game_wf(v: GameLogicView) -> bool {
    &&& crate::consistency::interrupt_wf(v.stacks, v.table)
    &&& seated(v.table.players, v.table.turn.player_turn)
    &&& cards_ok(v.table.players)
}

/// A result carrying an error's message in place of the error.
pub open spec fn res_msg(r: Result<(), Error>) -> Result<(), Seq<char>> {
    match r {
        Ok(()) => Ok(()),
        Err(e) => Err(e.message@),
    }
}

/// The error for a player who is not in the game.
fn no_player_error(player_uuid: &PlayerUUID) -> (e: Error)
    ensures
        e.message@ == no_player_message(*player_uuid),
{
    let mut message = String::from_str("Player does not exist with player id ");
    let id = player_uuid.to_string();
    message.append(id.as_str());
    Error::from_string(message)
}

/// The identifiers rotated to start with `starting_player_uuid` (unchanged
/// if it is not among them).
pub fn rotate_player_vec_to_start_with_player(
    players: Vec<PlayerUUID>,
    starting_player_uuid: &PlayerUUID,
) -> (r: Vec<PlayerUUID>)
    ensures
        r@ == rotate_to(players@, *starting_player_uuid),
{
    let player_index = match crate::gambling_manager::find_id(&players, starting_player_uuid) {
        Some(i) => i,
        None => 0,
    };
    let mut rotated: Vec<PlayerUUID> = Vec::new();
    let n = players.len();
    let mut k: usize = player_index;
    while k < n
        invariant
            player_index <= k <= n,
            n == players@.len(),
            rotated@ == players@.subrange(player_index as int, k as int),
        decreases n - k,
    {
        rotated.push(players[k]);
        k = k + 1;
        proof {
            assert(rotated@ =~= players@.subrange(player_index as int, k as int));
        }
    }
    let mut j: usize = 0;
    while j < player_index
        invariant
            j <= player_index <= n,
            n == players@.len(),
            rotated@ == players@.skip(player_index as int) + players@.take(j as int),
        decreases player_index - j,
    {
        rotated.push(players[j]);
        j = j + 1;
        proof {
            assert(rotated@ =~= players@.skip(player_index as int) + players@.take(j as int));
        }
    }
    rotated
}

impl GameLogic {
    /// A new game for the given players with their characters: each player
    /// starts fresh with the starting gold for this number of players, the
    /// drink deck is shuffled, and the first player's turn begins. An error
    /// unless there are 2 to 8 players.
    pub fn new(players_with_characters: Vec<(PlayerUUID, Character)>) -> (r: Result<Self, Error>)
        ensures
            !(2 <= players_with_characters@.len() <= 8) ==> (r matches Err(e) && e.message@
                == "Must have between 2 and 8 players"@),
            2 <= players_with_characters@.len() <= 8 ==> (r matches Ok(g) && {
                &&& g.player_manager.players@.len() == players_with_characters@.len()
                &&& forall|i: int|
                    0 <= i < g.player_manager.players@.len() ==> {
                        &&& (#[trigger] g.player_manager.players@[i]).0
                            == players_with_characters@[i].0
                        &&& g.player_manager.players@[i].1.is_fresh(
                            players_with_characters@[i].1,
                            starting_gold(players_with_characters@.len()),
                        )
                    }
                &&& g@.table.gambling is None
                &&& g@.stacks == Seq::<StackView>::empty()
                &&& g@.drink_draw.len() == 30
                &&& exists|d: Seq<DrinkCard>|
                    crate::drink::is_drink_deck(d) && #[trigger] d.to_multiset()
                        == g@.drink_draw.to_multiset()
                &&& g@.drink_discard == Seq::<DrinkCard>::empty()
                &&& g@.table.turn == TurnInfo {
                    player_turn: players_with_characters@[0].0,
                    turn_phase: TurnPhase::DiscardAndDraw,
                    drinks_to_order: 1,
                }
                &&& game_wf(g@)
            }),
    {
        let n = players_with_characters.len();
        if n < 2 || n > 8 {
            return Err(Error::new("Must have between 2 and 8 players"));
        }
        let first_player_uuid = players_with_characters[0].0;
        let player_manager = PlayerManager::new(players_with_characters);
        let deck = create_drink_deck();
        let drink_deck = AutoShufflingDeck::new(deck);
        let g = GameLogic {
            player_manager,
            gambling_manager: GamblingManager::new(),
            interrupt_manager: InterruptManager::new(),
            drink_deck,
            turn_info: TurnInfo::new(first_player_uuid),
        };
        proof {
            assert(g.player_manager.players@[0].0 == first_player_uuid);
            crate::player_manager::lemma_view_index(g.player_manager);
            assert(uuid_index_zero(g.player_manager@, first_player_uuid));
            assert(g@.drink_draw.to_multiset() == deck@.to_multiset());
        }
        Ok(g)
    }

    /// Whose turn it is, in which phase.
    pub fn get_turn_info(&self) -> (t: &TurnInfo)
        ensures
            *t == self.turn_info,
    {
        &self.turn_info
    }

    /// The phase of the current turn.
    pub fn get_turn_phase(&self) -> (p: TurnPhase)
        ensures
            p == self.turn_info.turn_phase,
    {
        self.turn_info.turn_phase
    }

    /// Whether two or more players are still in the game.
    pub fn is_running(&self) -> (b: bool)
        ensures
            b == (alive_uuids(self@.table.players).len() > 1),
    {
        self.player_manager.is_game_running()
    }

    /// The winner, once the game is over and someone is left.
    pub fn get_winner_or(&self) -> (r: Option<PlayerUUID>)
        ensures
            r == match crate::player_manager::spec_running_state(self@.table.players) {
                crate::player_manager::GameRunningState::Running => None,
                crate::player_manager::GameRunningState::Finished(w) => w,
            },
    {
        self.player_manager.get_winner_or()
    }

    /// Ends the action phase (see `spec_skip`).
    fn skip_action_phase(&mut self) -> (r: Result<(), Error>)
        ensures
            match spec_skip(old(self)@) {
                Ok(v) => r is Ok && final(self)@ == v,
                Err(m) => (r matches Err(e) && e.message@ == m) && final(self)@ == old(self)@,
            },
    {
        if self.turn_info.turn_phase == TurnPhase::Action {
            self.turn_info.turn_phase = TurnPhase::OrderDrinks;
            Ok(())
        } else {
            Err(Error::new("It is not the player's action phase"))
        }
    }

    /// The next player still in the game starts their turn.
    fn start_next_player_turn(&mut self)
        ensures
            final(self)@ == spec_next_turn(old(self)@),
    {
        match self.player_manager.get_next_alive_player_uuid(&self.turn_info.player_turn) {
            NextPlayerUUIDOption::Next(next_player_uuid) => {
                self.turn_info = TurnInfo::new(next_player_uuid);
            },
            NextPlayerUUIDOption::PlayerNotFound => {},
            NextPlayerUUIDOption::OnlyPlayerLeft => {},
        }
    }

    /// The player drinks from their drink pile, the drink cards go to the
    /// drink deck's discard pile, and the next player's turn starts (see
    /// `spec_drink_phase`).
    fn perform_drink_phase(&mut self, player_uuid: &PlayerUUID) -> (r: Result<(), Error>)
        ensures
            match spec_drink_phase(old(self)@, *player_uuid) {
                Ok(v) => r is Ok && final(self)@ == v,
                Err(m) => (r matches Err(e) && e.message@ == m) && final(self)@ == old(self)@,
            },
    {
        proof {
            crate::player_manager::lemma_uuid_index(self.player_manager.players@, *player_uuid);
            crate::player_manager::lemma_view_index(self.player_manager);
        }
        let ghost before = self.player_manager;
        let ghost v0 = self@;
        let drink_cards = match self.player_manager.get_player_by_uuid_mut(player_uuid) {
            Some(player) => player.drink_from_drink_pile(),
            None => {
                return Err(no_player_error(player_uuid));
            },
        };
        proof {
            let i = before.index_of(*player_uuid);
            crate::player_manager::lemma_view_update(
                before,
                self.player_manager,
                i,
                *player_uuid,
                self.player_manager.players@[i].1,
            );
        }
        let ghost cards0 = drink_cards@;
        let ghost discard0 = self.drink_deck.discard_pile@;
        let ghost pm1 = self.player_manager;
        let mut drink_cards = drink_cards;
        let ghost mut done: int = 0;
        while drink_cards.len() > 0
            invariant
                0 <= done <= cards0.len(),
                drink_cards@ == cards0.skip(done),
                self.drink_deck.discard_pile@ == discard0 + cards0.take(done),
                self.drink_deck.draw_pile@ == v0.drink_draw,
                self.player_manager == pm1,
                self.gambling_manager == old(self).gambling_manager,
                self.interrupt_manager == old(self).interrupt_manager,
                self.turn_info == old(self).turn_info,
            decreases drink_cards@.len(),
        {
            let card = drink_cards.remove(0);
            self.drink_deck.discard_card(card);
            proof {
                assert(cards0[done] == card);
                done = done + 1;
                assert(drink_cards@ =~= cards0.skip(done));
                assert(self.drink_deck.discard_pile@ =~= discard0 + cards0.take(done));
            }
        }
        proof {
            assert(cards0.take(done) =~= cards0);
        }
        self.start_next_player_turn();
        Ok(())
    }
}

/// The first seat holds the given player.
pub open spec fn uuid_index_zero(players: Seq<(PlayerUUID, PlayerView)>, u: PlayerUUID) -> bool {
    players.len() > 0 && players[0].0 == u ==> seated(players, u)
}

/// A card result carrying an error's message in place of the error.
pub open spec fn card_res(r: Result<Option<PlayerCard>, (PlayerCard, Error)>) -> Result<
    Option<PlayerCard>,
    (PlayerCard, Seq<char>),
> {
    match r {
        Ok(o) => Ok(o),
        Err((c, e)) => Err((c, e.message@)),
    }
}

/// A root card result carrying an error's message in place of the error.
pub open spec fn root_res(r: Result<Option<RootPlayerCard>, (RootPlayerCard, Error)>) -> Result<
    Option<RootPlayerCard>,
    (RootPlayerCard, Seq<char>),
> {
    match r {
        Ok(o) => Ok(o),
        Err((c, e)) => Err((c, e.message@)),
    }
}

impl GameLogic {
    /// The spent cards of a resolved session go back (see
    /// `discard_spent`).
    fn discard_spent_cards(&mut self, spent: InterruptStackResolveData)
        ensures
            final(self)@ == discard_spent(old(self)@, spent@),
    {
        let ghost sv = spent@;
        let (cards, drink_cards) = spent.take_all_player_cards();
        let _ = self.player_manager.discard_cards(cards);
        let ghost cards0 = drink_cards@;
        let ghost discard0 = self.drink_deck.discard_pile@;
        let ghost pm1 = self.player_manager;
        let mut drink_cards = drink_cards;
        let ghost mut done: int = 0;
        while drink_cards.len() > 0
            invariant
                0 <= done <= cards0.len(),
                drink_cards@ == cards0.skip(done),
                self.drink_deck.discard_pile@ == discard0 + cards0.take(done),
                self.drink_deck.draw_pile@ == old(self).drink_deck.draw_pile@,
                self.player_manager == pm1,
                self.gambling_manager == old(self).gambling_manager,
                self.interrupt_manager == old(self).interrupt_manager,
                self.turn_info == old(self).turn_info,
            decreases drink_cards@.len(),
        {
            let card = drink_cards.remove(0);
            self.drink_deck.discard_card(card);
            proof {
                assert(cards0[done] == card);
                done = done + 1;
                assert(drink_cards@ =~= cards0.skip(done));
                assert(self.drink_deck.discard_pile@ =~= discard0 + cards0.take(done));
            }
        }
        proof {
            assert(cards0.take(done) =~= cards0);
        }
    }

    /// The player passes (see `spec_pass`).
    pub fn pass(&mut self, player_uuid: &PlayerUUID) -> (r: Result<(), Error>)
        requires
            game_wf(old(self)@),
        ensures
            res_msg(r) == spec_pass(old(self)@, *player_uuid).0,
            final(self)@ == spec_pass(old(self)@, *player_uuid).1,
            game_wf(final(self)@),
    {
        proof {
            crate::consistency::lemma_pass_wf(self@, *player_uuid);
        }
        if self.interrupt_manager.interrupt_in_progress() {
            if self.interrupt_manager.is_turn_to_interrupt(player_uuid) {
                let spent_cards_or = match self.interrupt_manager.pass(
                    &mut self.player_manager,
                    &mut self.gambling_manager,
                    &mut self.turn_info,
                ) {
                    Ok(spent_cards_or) => spent_cards_or,
                    Err(e) => return Err(e),
                };
                if let Some(spent_cards) = spent_cards_or {
                    if spent_cards.current_user_action_phase_is_over() {
                        match self.skip_action_phase() {
                            Ok(()) => {},
                            Err(e) => return Err(e),
                        }
                    }
                    self.discard_spent_cards(spent_cards);
                }
                return Ok(());
            } else {
                return Err(Error::new("Cannot pass at this time"));
            }
        }
        if self.gambling_manager.is_turn(player_uuid) {
            proof {
                crate::player_manager::lemma_view_index(self.player_manager);
            }
            self.gambling_manager.pass(&mut self.player_manager, &mut self.turn_info);
            return Ok(());
        }
        if self.turn_info.can_play_action_card(player_uuid, &self.gambling_manager) {
            match self.skip_action_phase() {
                Ok(()) => {},
                Err(e) => return Err(e),
            }
            return Ok(());
        }
        Err(Error::new("Cannot pass at this time"))
    }
}

/// `player_uuid` plays the root card aimed at `targeted_player_uuid` alone
/// (see `spec_play_single`).
fn play_root_card_at_single_player(
    root_player_card: RootPlayerCard,
    player_uuid: &PlayerUUID,
    targeted_player_uuid: &PlayerUUID,
    game_logic: &mut GameLogic,
) -> (r: Result<Option<RootPlayerCard>, (RootPlayerCard, Error)>)
    requires
        root_card_ok(root_player_card),
        root_player_card.effect is GamblingImIn && old(game_logic)@.table.gambling is None ==> seated(
            old(game_logic)@.table.players,
            *player_uuid,
        ),
    ensures
        (root_res(r), final(game_logic)@) == spec_play_single(
            old(game_logic)@,
            root_player_card,
            *player_uuid,
            *targeted_player_uuid,
        ),
{
    proof {
        crate::player_manager::lemma_view_index(game_logic.player_manager);
    }
    match root_player_card.pre_interrupt_play(
        player_uuid,
        &mut game_logic.player_manager,
        &mut game_logic.gambling_manager,
        &mut game_logic.turn_info,
    ) {
        ShouldInterrupt::Yes => {
            if root_player_card.get_interrupt_data_or().is_some() {
                match game_logic.interrupt_manager.start_single_player_root_player_card_interrupt(
                    root_player_card,
                    *player_uuid,
                    *targeted_player_uuid,
                ) {
                    Ok(()) => Ok(None),
                    Err((card, e)) => Err((card, e)),
                }
            } else {
                root_player_card.interrupt_play(
                    player_uuid,
                    targeted_player_uuid,
                    &mut game_logic.player_manager,
                    &mut game_logic.gambling_manager,
                );
                Ok(Some(root_player_card))
            }
        },
        ShouldInterrupt::No => Ok(Some(root_player_card)),
    }
}

/// `player_uuid` plays the root card aimed at each of the targets (see
/// `spec_play_list`).
fn target_root_card_at_list_of_players(
    player_uuid: &PlayerUUID,
    targeted_player_uuid_or: &Option<PlayerUUID>,
    targeted_player_uuids: Vec<PlayerUUID>,
    root_player_card: RootPlayerCard,
    game_logic: &mut GameLogic,
) -> (r: Result<Option<RootPlayerCard>, (RootPlayerCard, Error)>)
    requires
        root_card_ok(root_player_card),
        root_player_card.effect is GamblingImIn && old(game_logic)@.table.gambling is None ==> seated(
            old(game_logic)@.table.players,
            *player_uuid,
        ),
    ensures
        (root_res(r), final(game_logic)@) == spec_play_list(
            old(game_logic)@,
            root_player_card,
            *player_uuid,
            *targeted_player_uuid_or,
            targeted_player_uuids@,
        ),
{
    if targeted_player_uuid_or.is_some() {
        return Err((root_player_card, Error::new("Cannot direct this card at another player")));
    }
    proof {
        crate::player_manager::lemma_view_index(game_logic.player_manager);
    }
    match root_player_card.pre_interrupt_play(
        player_uuid,
        &mut game_logic.player_manager,
        &mut game_logic.gambling_manager,
        &mut game_logic.turn_info,
    ) {
        ShouldInterrupt::Yes => {
            if root_player_card.get_interrupt_data_or().is_some() {
                match game_logic.interrupt_manager.start_multi_player_root_player_card_interrupt(
                    root_player_card,
                    *player_uuid,
                    targeted_player_uuids,
                ) {
                    Ok(()) => Ok(None),
                    Err((card, e)) => Err((card, e)),
                }
            } else {
                let ghost p0 = game_logic.player_manager@;
                let ghost g0 = game_logic.gambling_manager@;
                let n = targeted_player_uuids.len();
                let mut i: usize = 0;
                proof {
                    assert(targeted_player_uuids@.take(0) =~= Seq::<PlayerUUID>::empty());
                }
                while i < n
                    invariant
                        i <= n,
                        n == targeted_player_uuids@.len(),
                        root_card_ok(root_player_card),
                        root_player_card.interrupt_data_or is None,
                        (game_logic.player_manager@, game_logic.gambling_manager@) == play_on_all(
                            root_player_card,
                            targeted_player_uuids@.take(i as int),
                            p0,
                            g0,
                        ),
                        game_logic.turn_info == old(game_logic).turn_info,
                        game_logic.interrupt_manager == old(game_logic).interrupt_manager,
                        game_logic.drink_deck == old(game_logic).drink_deck,
                        game_logic.turn_info == old(game_logic).turn_info,
                    decreases n - i,
                {
                    root_player_card.interrupt_play(
                        player_uuid,
                        &targeted_player_uuids[i],
                        &mut game_logic.player_manager,
                        &mut game_logic.gambling_manager,
                    );
                    proof {
                        assert(targeted_player_uuids@.take(i + 1).drop_last()
                            =~= targeted_player_uuids@.take(i as int));
                    }
                    i = i + 1;
                }
                proof {
                    assert(targeted_player_uuids@.take(i as int) =~= targeted_player_uuids@);
                }
                Ok(Some(root_player_card))
            }
        },
        ShouldInterrupt::No => Ok(Some(root_player_card)),
    }
}

/// `player_uuid` plays a root card (see `spec_process_root`).
fn process_root_player_card(
    root_player_card: RootPlayerCard,
    player_uuid: &PlayerUUID,
    targeted_player_uuid_or: &Option<PlayerUUID>,
    game_logic: &mut GameLogic,
) -> (r: Result<Option<RootPlayerCard>, (RootPlayerCard, Error)>)
    requires
        root_card_ok(root_player_card),
        game_wf(old(game_logic)@),
    ensures
        (root_res(r), final(game_logic)@) == spec_process_root(
            old(game_logic)@,
            root_player_card,
            *player_uuid,
            *targeted_player_uuid_or,
        ),
{
    if !root_player_card.can_play(
        player_uuid,
        &game_logic.gambling_manager,
        &game_logic.interrupt_manager,
        &game_logic.turn_info,
    ) {
        return Err((root_player_card, Error::new("Cannot play card at this time")));
    }
    match root_player_card.get_target_style() {
        TargetStyle::SelfPlayer => {
            if targeted_player_uuid_or.is_some() {
                return Err(
                    (root_player_card, Error::new("Cannot direct this card at another player")),
                );
            }
            play_root_card_at_single_player(root_player_card, player_uuid, player_uuid, game_logic)
        },
        TargetStyle::SingleOtherPlayer => {
            match targeted_player_uuid_or {
                Some(targeted_player_uuid) => {
                    if *player_uuid == *targeted_player_uuid {
                        return Err(
                            (root_player_card, Error::new("Must not direct this card at yourself")),
                        );
                    }
                    play_root_card_at_single_player(
                        root_player_card,
                        player_uuid,
                        targeted_player_uuid,
                        game_logic,
                    )
                },
                None => Err(
                    (root_player_card, Error::new("Must direct this card at another player")),
                ),
            }
        },
        TargetStyle::AllOtherPlayers => {
            let mut targeted_player_uuids = rotate_player_vec_to_start_with_player(
                game_logic.player_manager.clone_uuids_of_all_alive_players(),
                player_uuid,
            );
            if targeted_player_uuids.len() > 0 {
                targeted_player_uuids.remove(0);
            }
            proof {
                assert(targeted_player_uuids@ =~= other_targets(
                    old(game_logic)@.table.players,
                    *player_uuid,
                ));
            }
            target_root_card_at_list_of_players(
                player_uuid,
                targeted_player_uuid_or,
                targeted_player_uuids,
                root_player_card,
                game_logic,
            )
        },
        TargetStyle::AllGamblingPlayersIncludingSelf => {
            let targeted_player_uuids = rotate_player_vec_to_start_with_player(
                game_logic.gambling_manager.clone_uuids_of_all_active_players(),
                player_uuid,
            );
            target_root_card_at_list_of_players(
                player_uuid,
                targeted_player_uuid_or,
                targeted_player_uuids,
                root_player_card,
                game_logic,
            )
        },
    }
}

/// Replacing a seated player by one holding only game cards keeps the game
/// consistent.
pub proof fn lemma_set_player_wf(v: GameLogicView, u: PlayerUUID, p: PlayerView)
    requires
        game_wf(v),
        seated(v.table.players, u),
        holds_ok(p),
    ensures
        game_wf(with_players(v, seat_set(v.table.players, u, p))),
{
    let players = v.table.players;
    let np = seat_set(players, u, p);
    crate::player_manager::lemma_seat_set_index(players, u, p);
    crate::player_manager::lemma_uuid_index(players, u);
    let w = with_players(v, np);
    assert(table_ok(w.table)) by {
        if let Some(r) = w.table.gambling {
            assert forall|i: int| 0 <= i < r.active.len() implies crate::player_manager::uuid_index(
                np,
                #[trigger] r.active[i],
            ) >= 0 by {
                assert(crate::player_manager::uuid_index(players, r.active[i]) >= 0);
            }
        }
    }
    assert(stacks_ok(w.stacks, np)) by {
        assert forall|k: int| 0 <= k < w.stacks.len() implies crate::interrupt_manager::stack_ok(
            #[trigger] w.stacks[k],
            np,
        ) by {
            assert(crate::interrupt_manager::stack_ok(v.stacks[k], players));
        }
    }
    assert(cards_ok(np)) by {
        assert forall|i: int| 0 <= i < np.len() implies holds_ok(#[trigger] np[i].1) by {
            if i != crate::player_manager::uuid_index(players, u) {
                assert(np[i] == players[i]);
            }
        }
    }
}

impl GameLogic {
    /// The player plays a card, directed at `other_player_uuid_or` or not
    /// (see `spec_process_card`). `Ok(Some(card))` hands the card to the
    /// discard pile, `Ok(None)` leaves it on an interrupt stack, an error
    /// hands it back.
    pub fn process_card(
        &mut self,
        card: PlayerCard,
        player_uuid: &PlayerUUID,
        other_player_uuid_or: &Option<PlayerUUID>,
    ) -> (r: Result<Option<PlayerCard>, (PlayerCard, Error)>)
        requires
            game_wf(old(self)@),
            card_ok(card),
            seated(old(self)@.table.players, *player_uuid),
        ensures
            (card_res(r), final(self)@) == spec_process_card(
                old(self)@,
                card,
                *player_uuid,
                *other_player_uuid_or,
            ),
            game_wf(final(self)@),
            r matches Ok(Some(c)) ==> c == card,
            r matches Err((c, _)) ==> c == card,
    {
        proof {
            crate::consistency::lemma_process_card_wf(
                self@,
                card,
                *player_uuid,
                *other_player_uuid_or,
            );
        }
        if !card.can_play(player_uuid, &self.gambling_manager, &self.interrupt_manager, &self.turn_info) {
            return Err((card, Error::new("Card cannot be played at this time")));
        }
        match card {
            PlayerCard::RootPlayerCard(root_player_card) => {
                match process_root_player_card(root_player_card, player_uuid, other_player_uuid_or, self) {
                    Ok(card_or) => Ok(
                        match card_or {
                            Some(c) => Some(PlayerCard::RootPlayerCard(c)),
                            None => None,
                        },
                    ),
                    Err((c, e)) => Err((PlayerCard::RootPlayerCard(c), e)),
                }
            },
            PlayerCard::InterruptPlayerCard(interrupt_player_card) => {
                if other_player_uuid_or.is_some() {
                    return Err(
                        (
                            PlayerCard::InterruptPlayerCard(interrupt_player_card),
                            Error::new("Cannot direct this card at another player"),
                        ),
                    );
                }
                let ghost v0 = self@;
                proof {
                    crate::player_manager::lemma_view_index(self.player_manager);
                    assert(v0.stacks.len() > 0);
                    assert(v0.stacks[0].sessions.len() > 0);
                }
                match self.interrupt_manager.play_interrupt_card(
                    interrupt_player_card,
                    *player_uuid,
                    &mut self.player_manager,
                    &mut self.gambling_manager,
                    &mut self.turn_info,
                ) {
                    Ok(spent_cards_or) => {
                        if let Some(spent_cards) = spent_cards_or {
                            if spent_cards.current_user_action_phase_is_over() {
                                proof {
                                    lemma_action_root_phase(
                                        spec_push(v0.stacks, interrupt_player_card, *player_uuid),
                                        v0.table,
                                    );
                                }
                                let skipped = self.skip_action_phase();
                                proof {
                                    assert(skipped is Ok);
                                }
                            }
                            self.discard_spent_cards(spent_cards);
                        }
                        Ok(None)
                    },
                    Err((c, e)) => Err((PlayerCard::InterruptPlayerCard(c), e)),
                }
            },
        }
    }
}

/// A session resolved over an Action card (that is not a gambling card)
/// leaves the turn's phase as it was: such a card only changes fortitude.
pub proof fn lemma_action_root_phase(stacks: Seq<StackView>, s: Table)
    requires
        stacks.len() > 0,
        stacks[0].sessions.len() > 0,
        root_ok(stacks[0].root),
        is_action_root(stacks[0].root) ==> s.turn.turn_phase == TurnPhase::Action && s.gambling is None,
    ensures
        action_over(crate::interrupt_manager::spec_resolve(stacks, s).0) ==> crate::interrupt_manager::spec_resolve(
            stacks,
            s,
        ).2.turn.turn_phase == TurnPhase::Action,
{
}

/// The outcome of `u` playing the card at `idx` in their hand, directed at
/// `other` or not: the card leaves the hand and is played (see
/// `spec_process_card`); it then goes to the player's discard pile, stays on
/// an interrupt stack, or, on an error, goes back to its place in the hand.
pub open spec fn spec_play_card(
    v: GameLogicView,
    u: PlayerUUID,
    other: Option<PlayerUUID>,
    idx: int,
) -> (Result<(), Seq<char>>, GameLogicView) {
    if !seated(v.table.players, u) {
        (Err(no_player_message(u)), v)
    } else {
        let p = seat(v.table.players, u);
        if idx >= p.hand.len() {
            (Err("Card does not exist"@), v)
        } else {
            let card = p.hand[idx];
            let v1 = with_players(
                v,
                seat_set(v.table.players, u, PlayerView { hand: p.hand.remove(idx), ..p }),
            );
            let (res, v2) = spec_process_card(v1, card, u, other);
            let q = seat(v2.table.players, u);
            match res {
                Ok(Some(c)) => (
                    Ok(()),
                    with_players(v2, seat_set(v2.table.players, u, pv_discard(q, c))),
                ),
                Ok(None) => (Ok(()), v2),
                Err((c, m)) => (
                    Err(m),
                    with_players(
                        v2,
                        seat_set(
                            v2.table.players,
                            u,
                            PlayerView {
                                hand: q.hand.insert(
                                    if idx > q.hand.len() {
                                        q.hand.len() as int
                                    } else {
                                        idx
                                    },
                                    c,
                                ),
                                ..q
                            },
                        ),
                    ),
                ),
            }
        }
    }
}

impl GameLogic {
    /// The player plays the card at `card_index` in their hand, directed at
    /// another player or not (see `spec_play_card`).
    pub fn play_card(
        &mut self,
        player_uuid: &PlayerUUID,
        other_player_uuid_or: &Option<PlayerUUID>,
        card_index: usize,
    ) -> (r: Result<(), Error>)
        requires
            game_wf(old(self)@),
        ensures
            (res_msg(r), final(self)@) == spec_play_card(
                old(self)@,
                *player_uuid,
                *other_player_uuid_or,
                card_index as int,
            ),
            game_wf(final(self)@),
    {
        proof {
            crate::consistency::lemma_play_card_wf(
                self@,
                *player_uuid,
                *other_player_uuid_or,
                card_index as int,
            );
        }
        proof {
            crate::player_manager::lemma_uuid_index(self.player_manager.players@, *player_uuid);
            crate::player_manager::lemma_view_index(self.player_manager);
        }
        let ghost v0 = self@;
        let ghost pm0 = self.player_manager;
        let card_or = match self.player_manager.get_player_by_uuid_mut(player_uuid) {
            Some(player) => player.pop_card_from_hand(card_index),
            None => {
                return Err(no_player_error(player_uuid));
            },
        };
        proof {
            let i = pm0.index_of(*player_uuid);
            crate::player_manager::lemma_view_update(
                pm0,
                self.player_manager,
                i,
                *player_uuid,
                self.player_manager.players@[i].1,
            );
        }
        let card = match card_or {
            Some(card) => card,
            None => {
                proof {
                    assert(self@.table.players =~= v0.table.players);
                }
                return Err(Error::new("Card does not exist"));
            },
        };
        proof {
            let p = seat(v0.table.players, *player_uuid);
            let p1 = PlayerView { hand: p.hand.remove(card_index as int), ..p };
            assert(self@ == with_players(v0, seat_set(v0.table.players, *player_uuid, p1)));
            broadcast use vstd::seq_lib::group_to_multiset_ensures;
            assert(p.cards().count(card) > 0);
            assert(holds_ok(p1)) by {
                assert forall|c: PlayerCard| #[trigger] p1.cards().count(c) > 0 implies card_ok(c) by {
                    assert(p.cards().count(c) > 0);
                }
            }
            lemma_set_player_wf(v0, *player_uuid, p1);
            crate::player_manager::lemma_seat_set_index(v0.table.players, *player_uuid, p1);
        }
        let ghost v1 = self@;
        match self.process_card(card, player_uuid, other_player_uuid_or) {
            Ok(card_or) => {
                if let Some(card) = card_or {
                    proof {
                        crate::player_manager::lemma_uuid_index(
                            self.player_manager.players@,
                            *player_uuid,
                        );
                        crate::player_manager::lemma_view_index(self.player_manager);
                    }
                    let ghost pm2 = self.player_manager;
                    match self.player_manager.get_player_by_uuid_mut(player_uuid) {
                        Some(player) => player.discard_card(card),
                        None => {},
                    }
                    proof {
                        if pm2.has(*player_uuid) {
                            let i = pm2.index_of(*player_uuid);
                            crate::player_manager::lemma_view_update(
                                pm2,
                                self.player_manager,
                                i,
                                *player_uuid,
                                self.player_manager.players@[i].1,
                            );
                        }
                    }
                }
                Ok(())
            },
            Err((card, err)) => {
                proof {
                    crate::player_manager::lemma_uuid_index(
                        self.player_manager.players@,
                        *player_uuid,
                    );
                    crate::player_manager::lemma_view_index(self.player_manager);
                }
                let ghost pm2 = self.player_manager;
                match self.player_manager.get_player_by_uuid_mut(player_uuid) {
                    Some(player) => player.return_card_to_hand(card, card_index),
                    None => {},
                }
                proof {
                    if pm2.has(*player_uuid) {
                        let i = pm2.index_of(*player_uuid);
                        crate::player_manager::lemma_view_update(
                            pm2,
                            self.player_manager,
                            i,
                            *player_uuid,
                            self.player_manager.players@[i].1,
                        );
                    }
                }
                Err(err)
            },
        }
    }
}

/// Some index occurs twice.
pub open spec fn has_dup(s: Seq<usize>) -> bool {
    exists|i: int, j: int| 0 <= i < j < s.len() && s[i] == s[j]
}

/// `x` inserted into the non-increasing `s` before its first element not
/// above `x`.
pub open spec fn insert_desc(s: Seq<usize>, x: usize) -> Seq<usize>
    decreases s.len(),
{
    if s.len() == 0 {
        seq![x]
    } else if x >= s[0] {
        seq![x] + s
    } else {
        seq![s[0]] + insert_desc(s.drop_first(), x)
    }
}

/// The indices sorted from the largest down.
pub open spec fn sort_desc(s: Seq<usize>) -> Seq<usize>
    decreases s.len(),
{
    if s.len() == 0 {
        Seq::empty()
    } else {
        insert_desc(sort_desc(s.drop_last()), s.last())
    }
}

/// The player after taking the cards at the given positions out of the hand
/// in turn, each onto the discard pile; with whether every position held a
/// card when its turn came (the taking stops at the first that did not).
pub open spec fn discard_at(p: PlayerView, desc: Seq<usize>) -> (PlayerView, bool)
    decreases desc.len(),
{
    if desc.len() == 0 {
        (p, true)
    } else if desc[0] >= p.hand.len() {
        (p, false)
    } else {
        discard_at(
            PlayerView {
                hand: p.hand.remove(desc[0] as int),
                discard_pile: p.discard_pile.push(p.hand[desc[0] as int]),
                ..p
            },
            desc.drop_first(),
        )
    }
}

/// Where `insert_desc` puts `x`: before the first element not above it.
pub proof fn lemma_insert_desc(s: Seq<usize>, x: usize, j: int)
    requires
        0 <= j <= s.len(),
        forall|k: int| 0 <= k < j ==> x < #[trigger] s[k],
        j < s.len() ==> x >= s[j],
    ensures
        insert_desc(s, x) == s.insert(j, x),
    decreases s.len(),
{
    if s.len() == 0 {
        assert(insert_desc(s, x) =~= s.insert(j, x));
    } else if x >= s[0] {
        assert(insert_desc(s, x) =~= s.insert(j, x));
    } else {
        lemma_insert_desc(s.drop_first(), x, j - 1);
        assert(insert_desc(s, x) =~= s.insert(j, x));
    }
}

/// Whether some index occurs twice.
fn has_duplicate_index(v: &Vec<usize>) -> (b: bool)
    ensures
        b == has_dup(v@),
{
    let n = v.len();
    let mut i: usize = 0;
    while i < n
        invariant
            n == v@.len(),
            i <= n,
            forall|a: int, b: int| 0 <= a < i && a < b < n ==> v@[a] != v@[b],
        decreases n - i,
    {
        let mut j: usize = i + 1;
        while j < n
            invariant
                n == v@.len(),
                i < n,
                i + 1 <= j <= n,
                forall|a: int, b: int| 0 <= a < i && a < b < n ==> v@[a] != v@[b],
                forall|b: int| i < b < j ==> v@[i as int] != v@[b],
            decreases n - j,
        {
            if v[i] == v[j] {
                return true;
            }
            j = j + 1;
        }
        i = i + 1;
    }
    false
}

/// The indices sorted from the largest down (see `sort_desc`).
fn sort_descending(v: &Vec<usize>) -> (r: Vec<usize>)
    ensures
        r@ == sort_desc(v@),
{
    let mut sorted: Vec<usize> = Vec::new();
    let n = v.len();
    let mut i: usize = 0;
    proof {
        assert(v@.take(0) =~= Seq::<usize>::empty());
    }
    while i < n
        invariant
            n == v@.len(),
            i <= n,
            sorted@ == sort_desc(v@.take(i as int)),
        decreases n - i,
    {
        let x = v[i];
        let m = sorted.len();
        let mut j: usize = 0;
        while j < m && x < sorted[j]
            invariant
                m == sorted@.len(),
                j <= m,
                forall|k: int| 0 <= k < j ==> x < #[trigger] sorted@[k],
            decreases m - j,
        {
            j = j + 1;
        }
        proof {
            lemma_insert_desc(sorted@, x, j as int);
            assert(v@.take(i + 1).drop_last() =~= v@.take(i as int));
            assert(v@.take(i + 1).last() == x);
        }
        sorted.insert(j, x);
        i = i + 1;
    }
    proof {
        assert(v@.take(i as int) =~= v@);
    }
    sorted
}

/// The outcome of `u` discarding the cards at the given positions of their
/// hand and drawing back to a full hand, given the player they become after
/// drawing: only the player whose turn it is may, in the discard phase, and
/// an index may not occur twice. The cards are taken out from the largest
/// position down onto the discard pile; then the player draws and the
/// action phase begins.
pub open spec fn spec_discard_and_draw(
    v: GameLogicView,
    u: PlayerUUID,
    indices: Seq<usize>,
    drawn: PlayerView,
) -> (Result<(), Seq<char>>, GameLogicView) {
    if v.table.turn.player_turn != u || v.table.turn.turn_phase != TurnPhase::DiscardAndDraw {
        (Err("Cannot discard cards at this time"@), v)
    } else if !seated(v.table.players, u) {
        (Err("Player is not in the game"@), v)
    } else if has_dup(indices) {
        (Err("Cannot discard the same card twice"@), v)
    } else {
        let (mid, ok) = discard_at(seat(v.table.players, u), sort_desc(indices));
        if !ok {
            (
                Err("Card indices do not all correspond to cards in the player's hand"@),
                with_players(v, seat_set(v.table.players, u, mid)),
            )
        } else {
            (
                Ok(()),
                with_phase(
                    with_players(v, seat_set(v.table.players, u, drawn)),
                    TurnPhase::Action,
                ),
            )
        }
    }
}

impl GameLogic {
    /// The player discards the cards at the given positions of their hand
    /// and draws back to a full hand (see `spec_discard_and_draw`; the
    /// drawing shuffles when the draw pile runs out, so what is drawn is
    /// stated as `drew_to_full`).
    pub fn discard_cards_and_draw_to_full(
        &mut self,
        player_uuid: &PlayerUUID,
        card_indices: Vec<usize>,
    ) -> (r: Result<(), Error>)
        requires
            game_wf(old(self)@),
            old(self)@.table.turn.player_turn == *player_uuid && seated(
                old(self)@.table.players,
                *player_uuid,
            ) ==> seat(old(self)@.table.players, *player_uuid).card_count() >= crate::player::full_hand(),
        ensures
            ({
                let p = seat(final(self)@.table.players, *player_uuid);
                let mid = discard_at(
                    seat(old(self)@.table.players, *player_uuid),
                    sort_desc(card_indices@),
                ).0;
                &&& (res_msg(r), final(self)@) == spec_discard_and_draw(
                    old(self)@,
                    *player_uuid,
                    card_indices@,
                    p,
                )
                &&& r is Ok ==> drew_to_full(mid, p)
            }),
            game_wf(final(self)@),
    {
        let ghost v_start = self@;
        let ghost indices_start = card_indices@;
        if self.turn_info.player_turn != *player_uuid || self.turn_info.turn_phase
            != TurnPhase::DiscardAndDraw {
            return Err(Error::new("Cannot discard cards at this time"));
        }
        proof {
            crate::player_manager::lemma_uuid_index(self.player_manager.players@, *player_uuid);
            crate::player_manager::lemma_view_index(self.player_manager);
        }
        let ghost v0 = self@;
        let ghost pm0 = self.player_manager;
        if !self.player_manager.find_index(player_uuid).is_some() {
            return Err(Error::new("Player is not in the game"));
        }
        if has_duplicate_index(&card_indices) {
            return Err(Error::new("Cannot discard the same card twice"));
        }
        let card_indices = sort_descending(&card_indices);
        let ghost desc = card_indices@;
        let player = match self.player_manager.get_player_by_uuid_mut(player_uuid) {
            Some(player) => player,
            None => {
                return Err(Error::new("Player is not in the game"));
            },
        };
        let ghost p0 = *player;
        proof {
            assert(p0@ == seat(v0.table.players, *player_uuid));
        }
        let n = card_indices.len();
        let mut k: usize = 0;
        let mut all_found = true;
        proof {
            assert(desc.skip(0) =~= desc);
        }
        while k < n && all_found
            invariant
                n == desc.len(),
                card_indices@ == desc,
                k <= n,
                all_found ==> discard_at(p0@, desc) == discard_at(player@, desc.skip(k as int)),
                !all_found ==> discard_at(p0@, desc) == (player@, false),
                player@.card_count() == p0@.card_count(),
                player@.is_orc == p0@.is_orc,
                player@.is_troll == p0@.is_troll,
            decreases n - k + (if all_found { 1int } else { 0int }),
        {
            let ghost before = player@;
            match player.pop_card_from_hand(card_indices[k]) {
                Some(card) => {
                    player.discard_card(card);
                    proof {
                        assert(desc.skip(k as int).drop_first() =~= desc.skip(k + 1));
                        assert(player@ == PlayerView {
                            hand: before.hand.remove(desc[k as int] as int),
                            discard_pile: before.discard_pile.push(before.hand[desc[k as int] as int]),
                            ..before
                        });
                    }
                    k = k + 1;
                },
                None => {
                    proof {
                        assert(player@ == before);
                    }
                    all_found = false;
                },
            }
        }
        proof {
            if all_found {
                assert(desc.skip(k as int) =~= Seq::<usize>::empty());
            }
        }
        if !all_found {
            proof {
                crate::player_manager::lemma_view_update(
                    pm0,
                    self.player_manager,
                    pm0.index_of(*player_uuid),
                    *player_uuid,
                    self.player_manager.players@[pm0.index_of(*player_uuid)].1,
                );
                crate::consistency::lemma_discard_and_draw_wf(
                    v_start,
                    *player_uuid,
                    indices_start,
                    seat(self@.table.players, *player_uuid),
                );
            }
            return Err(Error::new("Card indices do not all correspond to cards in the player's hand"));
        }
        let ghost mid = player@;
        proof {
            assert(discard_at(p0@, desc) == (mid, true));
        }
        player.draw_to_full();
        let ghost drawn = player@;
        self.turn_info.turn_phase = TurnPhase::Action;
        proof {
            crate::player_manager::lemma_view_update(
                pm0,
                self.player_manager,
                pm0.index_of(*player_uuid),
                *player_uuid,
                self.player_manager.players@[pm0.index_of(*player_uuid)].1,
            );
            crate::player_manager::lemma_view_index(self.player_manager);
            crate::player_manager::lemma_same_seating_index(
                self.player_manager.players@,
                pm0.players@,
            );
            assert(seat(self@.table.players, *player_uuid) == drawn);
            crate::consistency::lemma_discard_and_draw_wf(
                v_start,
                *player_uuid,
                indices_start,
                drawn,
            );
        }
        Ok(())
    }
}

/// The outcome of `u` ordering a drink for `other`, once `drawn` was drawn
/// from the drink deck (the deck's piles in `v` are those left by the
/// draw): the drink goes on top of `other`'s drink pile (if there was one;
/// an error if `other` is not in the game), one drink fewer is left to
/// order, and when none is left `u` drinks (see `spec_drink_phase`).
pub open spec fn spec_order_after_draw(
    v: GameLogicView,
    u: PlayerUUID,
    other: PlayerUUID,
    drawn: Option<DrinkCard>,
) -> (Result<(), Seq<char>>, GameLogicView) {
    if drawn is Some && !seated(v.table.players, other) {
        (Err(no_player_message(u)), v)
    } else {
        let v1 = match drawn {
            Some(c) => {
                let q = seat(v.table.players, other);
                with_players(
                    v,
                    seat_set(
                        v.table.players,
                        other,
                        PlayerView { drink_me_pile: q.drink_me_pile.push(c), ..q },
                    ),
                )
            },
            None => v,
        };
        let v2 = with_table(
            v1,
            Table {
                turn: TurnInfo {
                    drinks_to_order: (v1.table.turn.drinks_to_order - 1) as i32,
                    ..v1.table.turn
                },
                ..v1.table
            },
        );
        if v2.table.turn.drinks_to_order == 0 {
            match spec_drink_phase(v2, u) {
                Ok(v3) => (Ok(()), v3),
                Err(m) => (Err(m), v2),
            }
        } else {
            (Ok(()), v2)
        }
    }
}

impl GameLogic {
    /// The player orders a drink for another player (see
    /// `spec_order_after_draw`): only the player whose turn it is may, in the
    /// order-drinks phase, and not for themselves. The drink deck shuffles
    /// when its draw pile runs out, so what is drawn is stated as
    /// `drew_card`.
    pub fn order_drink(&mut self, player_uuid: &PlayerUUID, other_player_uuid: &PlayerUUID) -> (r:
        Result<(), Error>)
        requires
            game_wf(old(self)@),
            old(self)@.table.turn.player_turn == *player_uuid && old(self)@.table.turn.turn_phase
                == TurnPhase::OrderDrinks && *player_uuid != *other_player_uuid
                ==> old(self)@.table.turn.drinks_to_order > i32::MIN,
        ensures
            old(self)@.table.turn.player_turn != *player_uuid || old(self)@.table.turn.turn_phase
                != TurnPhase::OrderDrinks ==> (r matches Err(e) && e.message@
                == "Cannot order drinks at this time"@) && final(self)@ == old(self)@,
            old(self)@.table.turn.player_turn == *player_uuid && old(self)@.table.turn.turn_phase
                == TurnPhase::OrderDrinks && *player_uuid == *other_player_uuid ==> (r matches Err(
                e,
            ) && e.message@ == "Cannot order drink for yourself"@) && final(self)@ == old(self)@,
            old(self)@.table.turn.player_turn == *player_uuid && old(self)@.table.turn.turn_phase
                == TurnPhase::OrderDrinks && *player_uuid != *other_player_uuid ==> exists|
                drawn: Option<DrinkCard>,
                draw1: Seq<DrinkCard>,
                discard1: Seq<DrinkCard>,
            |
                #[trigger] crate::deck::drew_card(
                    old(self)@.drink_draw,
                    old(self)@.drink_discard,
                    drawn,
                    draw1,
                    discard1,
                ) && (res_msg(r), final(self)@) == spec_order_after_draw(
                    GameLogicView { drink_draw: draw1, drink_discard: discard1, ..old(self)@ },
                    *player_uuid,
                    *other_player_uuid,
                    drawn,
                ),
            game_wf(final(self)@),
    {
        if self.turn_info.player_turn != *player_uuid || self.turn_info.turn_phase
            != TurnPhase::OrderDrinks {
            return Err(Error::new("Cannot order drinks at this time"));
        }
        if *player_uuid == *other_player_uuid {
            return Err(Error::new("Cannot order drink for yourself"));
        }
        let ghost v0 = self@;
        let drawn = self.drink_deck.draw_card();
        let ghost drawn_g = drawn;
        let ghost v1 = self@;
        proof {
            assert(v1 == GameLogicView {
                drink_draw: v1.drink_draw,
                drink_discard: v1.drink_discard,
                ..v0
            });
            crate::consistency::lemma_order_wf(v1, *player_uuid, *other_player_uuid, drawn_g);
            crate::player_manager::lemma_uuid_index(self.player_manager.players@, *other_player_uuid);
            crate::player_manager::lemma_view_index(self.player_manager);
        }
        let ghost pm0 = self.player_manager;
        match drawn {
            Some(drink) => match self.player_manager.get_player_by_uuid_mut(other_player_uuid) {
                Some(other_player) => other_player.add_drink_to_drink_pile(drink),
                None => {
                    proof {
                        assert(crate::deck::drew_card(
                            v0.drink_draw,
                            v0.drink_discard,
                            drawn_g,
                            v1.drink_draw,
                            v1.drink_discard,
                        ));
                    }
                    return Err(no_player_error(player_uuid));
                },
            },
            None => {},
        }
        proof {
            if drawn_g is Some {
                let i = pm0.index_of(*other_player_uuid);
                crate::player_manager::lemma_view_update(
                    pm0,
                    self.player_manager,
                    i,
                    *other_player_uuid,
                    self.player_manager.players@[i].1,
                );
            }
        }
        self.turn_info.drinks_to_order = self.turn_info.drinks_to_order - 1;
        if self.turn_info.drinks_to_order == 0 {
            match self.perform_drink_phase(player_uuid) {
                Ok(()) => {},
                Err(e) => {
                    proof {
                        assert(crate::deck::drew_card(
                            v0.drink_draw,
                            v0.drink_discard,
                            drawn_g,
                            v1.drink_draw,
                            v1.drink_discard,
                        ));
                    }
                    return Err(e);
                },
            }
        }
        proof {
            assert(crate::deck::drew_card(
                v0.drink_draw,
                v0.drink_discard,
                drawn_g,
                v1.drink_draw,
                v1.drink_discard,
            ));
        }
        Ok(())
    }
}

impl GameLogic {
    /// Whether the player may pass now: exactly when passing would succeed
    /// (see `spec_pass`).
    pub fn player_can_pass(&self, player_uuid: &PlayerUUID) -> (b: bool)
        requires
            game_wf(self@),
        ensures
            b == (spec_pass(self@, *player_uuid).0 is Ok),
    {
        proof {
            crate::player_manager::lemma_view_index(self.player_manager);
        }
        if self.interrupt_manager.interrupt_in_progress() {
            if !self.interrupt_manager.is_turn_to_interrupt(player_uuid) {
                return false;
            }
            let ghost v = self@;
            proof {
                assert(crate::interrupt_manager::stack_ok(v.stacks[0], v.table.players));
                lemma_action_root_phase(v.stacks, v.table);
            }
            let stack = &self.interrupt_manager.interrupt_stacks[0];
            let n = stack.sessions.len();
            proof {
                if n > 0 {
                    assert(v.stacks[0].sessions.last() == stack.sessions@[n - 1]@);
                }
            }
            if n > 0 && stack.sessions[n - 1].only_targeted_player_can_interrupt
                && stack.current_interrupt_turn == stack.sessions[n - 1].targeted_player_uuid {
                return true;
            }
            return self.player_manager.find_index(player_uuid).is_some();
        }
        if self.gambling_manager.is_turn(player_uuid) {
            return true;
        }
        self.turn_info.can_play_action_card(player_uuid, &self.gambling_manager)
    }
}

/// `v` shows every player's public state, in seating order.
pub open spec fn player_data_shown(v: Seq<GameViewPlayerData>, g: GameLogicView) -> bool {
    &&& v.len() == g.table.players.len()
    &&& forall|i: int|
        0 <= i < v.len() ==> #[trigger] v[i] == player_data_view(
            g.table.players[i].0,
            g.table.players[i].1,
        )
}

/// `v` shows the hand of `u` to them: each card's name and description,
/// whether they may play it now, and whether it is aimed at a single other
/// player; nothing for a player not in the game.
pub open spec fn hand_shown(v: Seq<GameViewPlayerCard>, g: GameLogicView, u: PlayerUUID) -> bool {
    if !seated(g.table.players, u) {
        v.len() == 0
    } else {
        let hand = seat(g.table.players, u).hand;
        &&& v.len() == hand.len()
        &&& forall|i: int|
            0 <= i < v.len() ==> {
                &&& (#[trigger] v[i]).card_name@ == card_name(hand[i])
                &&& v[i].is_playable == card_can_play(
                    hand[i],
                    u,
                    g.table.gambling,
                    g.stacks,
                    g.table.turn,
                )
                &&& v[i].is_directed == card_is_directed(hand[i])
            }
    }
}

/// `r` shows the interrupts in progress: for each stack its root and the
/// names of the interrupt cards played on its current session, in order;
/// and whose turn it is to interrupt. Nothing without an interrupt.
pub open spec fn interrupts_shown(r: Option<GameViewInterruptData>, stacks: Seq<StackView>) -> bool {
    if stacks.len() == 0 {
        r is None
    } else {
        r matches Some(d) && {
            &&& d.current_interrupt_turn == stacks[0].turn
            &&& d.interrupts@.len() == stacks.len()
            &&& forall|k: int|
                0 <= k < stacks.len() ==> {
                    &&& (#[trigger] d.interrupts@[k]).root_item.name@ == root_name(stacks[k].root)
                    &&& d.interrupts@[k].root_item.item_type@ == root_item_type(stacks[k].root)
                    &&& d.interrupts@[k].interrupt_card_names@.len() == shown_cards(
                        stacks[k],
                    ).len()
                    &&& forall|j: int|
                        0 <= j < shown_cards(stacks[k]).len()
                            ==> (#[trigger] d.interrupts@[k].interrupt_card_names@[j])@
                            == shown_cards(stacks[k])[j].card.display_name@
                }
        }
    }
}

impl GameLogic {
    /// Every player's public state, in seating order.
    pub fn get_game_view_player_data_of_all_players(&self) -> (v: Vec<GameViewPlayerData>)
        ensures
            player_data_shown(v@, self@),
    {
        self.player_manager.get_game_view_player_data_of_all_players()
    }

    /// The player's hand as shown to them; empty for a player not in the
    /// game.
    pub fn get_game_view_player_hand(&self, player_uuid: &PlayerUUID) -> (v: Vec<GameViewPlayerCard>)
        ensures
            hand_shown(v@, self@, *player_uuid),
    {
        proof {
            crate::player_manager::lemma_view_index(self.player_manager);
            crate::player_manager::lemma_uuid_index(self.player_manager.players@, *player_uuid);
        }
        match self.player_manager.get_player_by_uuid(player_uuid) {
            Some(player) => {
                proof {
                    assert(player@ == seat(self@.table.players, *player_uuid));
                    assert(player.hand@ == seat(self@.table.players, *player_uuid).hand);
                }
                player.get_game_view_hand(
                    player_uuid,
                    &self.gambling_manager,
                    &self.interrupt_manager,
                    &self.turn_info,
                )
            },
            None => Vec::new(),
        }
    }

    /// The interrupts in progress as shown to everyone.
    pub fn get_game_view_interrupt_data_or(&self) -> (r: Option<GameViewInterruptData>)
        ensures
            interrupts_shown(r, self@.stacks),
    {
        self.interrupt_manager.get_game_view_interrupt_data_or()
    }
}

/// A new turn goes to the next player still in the game after the one
/// whose turn ends, who starts by discarding and drawing with one drink to
/// order; nothing else changes. With no such player the game stays as it
/// is.
pub proof fn law_new_turn_goes_to_next_player_still_in(v: GameLogicView)
    ensures
        spec_next_alive(v.table.players, v.table.turn.player_turn) matches NextPlayerUUIDOption::Next(n)
            ==> spec_next_turn(v) == (GameLogicView {
            table: Table {
                turn: TurnInfo {
                    player_turn: n,
                    turn_phase: TurnPhase::DiscardAndDraw,
                    drinks_to_order: 1,
                },
                ..v.table
            },
            ..v
        }),
        !(spec_next_alive(v.table.players, v.table.turn.player_turn) is Next) ==> spec_next_turn(v)
            == v,
{
}

} // verus!
