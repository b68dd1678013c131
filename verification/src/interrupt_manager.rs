use crate::player_view::{
    GameViewInterruptData, GameViewInterruptStack, GameViewInterruptStackRootItem,
};
use crate::drink::{
    drink_names, clamp_i32, discardable_cards, spec_combined_alcohol, spec_combined_fortitude, DrinkCard,
    DrinkWithPossibleChasers,
};
use crate::error::Error;
use crate::gambling_manager::{
    g_leave, g_seated, lemma_g_leave_seated, GamblingManager, GamblingRoundView,
};
use crate::game_logic::{table, table_ok, Table, TurnInfo};
use crate::player::{pv_change_alcohol, pv_change_fortitude, PlayerView};
use crate::player_card::{
    interrupt_outcome, spec_can_interrupt, spec_interrupt_play, spec_post_interrupt_play,
    InterruptPlayerCard, PlayerCard, RootPlayerCard, ShouldCancelPreviousCard,
};
use crate::player_manager::{
    lemma_uuid_index, lemma_view_index, lemma_view_update, seat, seat_set, seated, spec_next_alive,
    NextPlayerUUIDOption, PlayerManager,
};
use crate::uuid::PlayerUUID;
use vstd::prelude::*;

verus! {

/// What kind of event an interrupt card may be played against.
#[derive(Clone, Copy, PartialEq, Eq, Structural, Debug)]
pub enum GameInterruptType {
    AboutToAnte,
    DirectedActionCardPlayed(PlayerCardInfo),
    SometimesCardPlayed(PlayerCardInfo),
    ModifyDrink,
    AboutToDrink,
}

/// Facts about a played card that interrupt cards may react to.
#[derive(Clone, Copy, PartialEq, Eq, Structural, Debug)]
pub struct PlayerCardInfo {
    pub affects_fortitude: bool,
    pub is_i_dont_think_so_card: bool,
}

/// A root card at the bottom of an interrupt stack, with its owner.
#[derive(Clone, Debug)]
pub struct RootPlayerCardWithInterruptData {
    pub root_card: RootPlayerCard,
    pub root_card_owner_uuid: PlayerUUID,
}

/// A drink at the bottom of an interrupt stack.
#[derive(Clone, Debug)]
pub struct DrinkWithInterruptData {
    pub drink: DrinkWithPossibleChasers,
}

/// What an interrupt stack was opened for.
#[derive(Clone, Debug)]
pub enum InterruptRoot {
    RootPlayerCard(RootPlayerCardWithInterruptData),
    Drink(DrinkWithInterruptData),
}

/// An interrupt card played on a stack, with its owner and the event it
/// produces.
#[derive(Clone, Debug)]
pub struct GameInterruptData {
    pub card: InterruptPlayerCard,
    pub card_interrupt_type: GameInterruptType,
    pub card_owner_uuid: PlayerUUID,
}

/// One targeted player's part of an interrupt stack: the interrupt cards
/// played on it, most recent last.
#[derive(Clone, Debug)]
pub struct GameInterruptStackSession {
    pub root_card_interrupt_type: GameInterruptType,
    /// The player that the root is aimed at in this session.
    pub targeted_player_uuid: PlayerUUID,
    pub interrupt_cards: Vec<GameInterruptData>,
    pub only_targeted_player_can_interrupt: bool,
}

/// An interrupt stack: its root, whose turn it is to interrupt, and its
/// sessions; the last session is the current one.
#[derive(Clone, Debug)]
pub struct GameInterruptStack {
    pub root: InterruptRoot,
    pub current_interrupt_turn: PlayerUUID,
    pub sessions: Vec<GameInterruptStackSession>,
}

/// The interrupt stacks in progress; the first is the current one.
#[derive(Clone, Debug)]
pub struct InterruptManager {
    pub interrupt_stacks: Vec<GameInterruptStack>,
}

/// What a resolved interrupt session hands back: the root card and its
/// owner or the drink, when the whole stack is done, and the interrupt
/// cards spent, each with its owner.
#[derive(Clone, Debug)]
pub struct InterruptStackResolveData {
    pub root_card_with_owner_or: Option<(RootPlayerCard, PlayerUUID)>,
    pub interrupt_cards: Vec<(PlayerUUID, InterruptPlayerCard)>,
    pub drink_or: Option<DrinkWithPossibleChasers>,
}

/// A session as plain values.
pub struct SessionView {
    pub root_type: GameInterruptType,
    pub target: PlayerUUID,
    pub cards: Seq<GameInterruptData>,
    pub only_targeted: bool,
}

/// A stack as plain values.
pub struct StackView {
    pub root: InterruptRoot,
    pub turn: PlayerUUID,
    pub sessions: Seq<SessionView>,
}

/// Resolve data as plain values.
pub struct ResolveView {
    pub root: Option<(RootPlayerCard, PlayerUUID)>,
    pub cards: Seq<(PlayerUUID, InterruptPlayerCard)>,
    pub drink: Option<DrinkWithPossibleChasers>,
}

impl View for GameInterruptStackSession {
    type V = SessionView;

    open spec fn view(&self) -> SessionView {
        SessionView {
            root_type: self.root_card_interrupt_type,
            target: self.targeted_player_uuid,
            cards: self.interrupt_cards@,
            only_targeted: self.only_targeted_player_can_interrupt,
        }
    }
}

impl View for GameInterruptStack {
    type V = StackView;

    open spec fn view(&self) -> StackView {
        StackView {
            root: self.root,
            turn: self.current_interrupt_turn,
            sessions: Seq::new(self.sessions@.len(), |i: int| self.sessions@[i]@),
        }
    }
}

impl View for InterruptManager {
    type V = Seq<StackView>;

    open spec fn view(&self) -> Seq<StackView> {
        Seq::new(self.interrupt_stacks@.len(), |i: int| self.interrupt_stacks@[i]@)
    }
}

impl View for InterruptStackResolveData {
    type V = ResolveView;

    open spec fn view(&self) -> ResolveView {
        ResolveView {
            root: self.root_card_with_owner_or,
            cards: self.interrupt_cards@,
            drink: self.drink_or,
        }
    }
}

/// The event that the next interrupt card on a stack would answer: the
/// last card of its current session, or that session's root event.
pub open spec fn stack_current_interrupt(st: StackView) -> Option<GameInterruptType> {
    if st.sessions.len() == 0 {
        None
    } else {
        let ses = st.sessions.last();
        if ses.cards.len() > 0 {
            Some(ses.cards.last().card_interrupt_type)
        } else {
            Some(ses.root_type)
        }
    }
}

/// The event that the next interrupt card would answer, if an interrupt
/// is in progress.
pub open spec fn current_interrupt(stacks: Seq<StackView>) -> Option<GameInterruptType> {
    if stacks.len() == 0 {
        None
    } else {
        stack_current_interrupt(stacks[0])
    }
}

/// Whose turn it is to interrupt, if an interrupt is in progress.
pub open spec fn current_turn(stacks: Seq<StackView>) -> Option<PlayerUUID> {
    if stacks.len() == 0 {
        None
    } else {
        Some(stacks[0].turn)
    }
}

/// The last player to have played on the current stack: the owner of the
/// last interrupt card of its current session, or else the root card's
/// owner, or for a drink the session's target.
pub open spec fn last_player(stacks: Seq<StackView>) -> Option<PlayerUUID> {
    if stacks.len() == 0 || stacks[0].sessions.len() == 0 {
        None
    } else {
        let ses = stacks[0].sessions.last();
        if ses.cards.len() > 0 {
            Some(ses.cards.last().card_owner_uuid)
        } else {
            match stacks[0].root {
                InterruptRoot::RootPlayerCard(r) => Some(r.root_card_owner_uuid),
                InterruptRoot::Drink(_) => Some(ses.target),
            }
        }
    }
}

/// Every stack has a session.
pub open spec fn stacks_wf(stacks: Seq<StackView>) -> bool {
    forall|i: int| 0 <= i < stacks.len() ==> (#[trigger] stacks[i]).sessions.len() > 0
}

/// A spent interrupt card with its owner.
pub open spec fn spent(d: GameInterruptData) -> (PlayerUUID, InterruptPlayerCard) {
    (d.card_owner_uuid, d.card)
}

/// Resolves the interrupt cards of a session from the top down, given the
/// event then current and the round of gambling: each card acts; one that
/// cancels takes the card beneath it out with it, or, with none beneath,
/// cancels the root. Gives the cancellation of the root, the spent cards in
/// the order they were taken off, and the round afterwards.
pub open spec fn resolve_cards(
    cards: Seq<GameInterruptData>,
    cur: Option<GameInterruptType>,
    g: Option<GamblingRoundView>,
) -> (ShouldCancelPreviousCard, Seq<(PlayerUUID, InterruptPlayerCard)>, Option<GamblingRoundView>)
    decreases cards.len(),
{
    if cards.len() == 0 {
        (ShouldCancelPreviousCard::No, Seq::empty(), g)
    } else {
        let d = cards.last();
        let rest = cards.drop_last();
        let (r, leaves) = interrupt_outcome(d.card, cur);
        let g1 = if leaves {
            g_leave(g, d.card_owner_uuid)
        } else {
            g
        };
        if r != ShouldCancelPreviousCard::No {
            if rest.len() > 0 {
                let (c, sp, g2) = resolve_cards(rest.drop_last(), cur, g1);
                (c, seq![spent(rest.last()), spent(d)] + sp, g2)
            } else {
                (r, seq![spent(d)], g1)
            }
        } else {
            let (c, sp, g2) = resolve_cards(rest, cur, g1);
            (c, seq![spent(d)] + sp, g2)
        }
    }
}

/// Resolving interrupt cards keeps the round's players seated and its
/// player in control.
pub proof fn lemma_resolve_cards_seated(
    cards: Seq<GameInterruptData>,
    cur: Option<GameInterruptType>,
    g: Option<GamblingRoundView>,
    players: Seq<(PlayerUUID, PlayerView)>,
)
    requires
        g_seated(g, players),
    ensures
        g_seated(resolve_cards(cards, cur, g).2, players),
    decreases cards.len(),
{
    if cards.len() > 0 {
        let d = cards.last();
        let rest = cards.drop_last();
        let (r, leaves) = interrupt_outcome(d.card, cur);
        let g1 = if leaves {
            g_leave(g, d.card_owner_uuid)
        } else {
            g
        };
        lemma_g_leave_seated(g, players, d.card_owner_uuid);
        if r != ShouldCancelPreviousCard::No {
            if rest.len() > 0 {
                lemma_resolve_cards_seated(rest.drop_last(), cur, g1, players);
            }
        } else {
            lemma_resolve_cards_seated(rest, cur, g1, players);
        }
    }
}

/// The interrupt cards of a session, top first, with their owners.
pub open spec fn cards_top_first(cards: Seq<GameInterruptData>) -> Seq<(PlayerUUID, InterruptPlayerCard)>
    decreases cards.len(),
{
    if cards.len() == 0 {
        Seq::empty()
    } else {
        seq![spent(cards.last())] + cards_top_first(cards.drop_last())
    }
}

/// All interrupt cards of the sessions, session by session from the
/// first, each session's cards top first.
pub open spec fn drain_cards(sessions: Seq<SessionView>) -> Seq<(PlayerUUID, InterruptPlayerCard)>
    decreases sessions.len(),
{
    if sessions.len() == 0 {
        Seq::empty()
    } else {
        drain_cards(sessions.drop_last()) + cards_top_first(sessions.last().cards)
    }
}

/// The resolve data handing back a stack's root together with the given
/// spent cards.
pub open spec fn root_resolve(root: InterruptRoot, cards: Seq<(PlayerUUID, InterruptPlayerCard)>) -> ResolveView {
    match root {
        InterruptRoot::RootPlayerCard(r) => ResolveView {
            root: Some((r.root_card, r.root_card_owner_uuid)),
            cards,
            drink: None,
        },
        InterruptRoot::Drink(d) => ResolveView { root: None, cards, drink: Some(d.drink) },
    }
}

/// The player after drinking the drink group.
pub open spec fn drink_effect(d: DrinkWithPossibleChasers, p: PlayerView) -> PlayerView {
    pv_change_fortitude(
        pv_change_alcohol(p, clamp_i32(spec_combined_alcohol(d.drinks@, p.is_orc, p.is_troll))),
        clamp_i32(spec_combined_fortitude(d.drinks@, p.is_orc, p.is_troll)),
    )
}

/// The effect of a stack's root on the table, for the session that just
/// resolved uncancelled: a root card acts on the session's target and then
/// does what follows its interrupt; a drink is drunk by the target when the
/// session is the one about drinking.
pub open spec fn apply_root(root: InterruptRoot, ses: SessionView, s: Table) -> Table {
    match root {
        InterruptRoot::RootPlayerCard(r) => {
            let (p, g) = spec_interrupt_play(r.root_card, ses.target, s.players, s.gambling);
            let s1 = Table { players: p, gambling: g, ..s };
            match r.root_card.interrupt_data_or {
                Some(d) => spec_post_interrupt_play(d, r.root_card_owner_uuid, s1),
                None => s1,
            }
        },
        InterruptRoot::Drink(d) => if seated(s.players, ses.target) && ses.root_type
            == GameInterruptType::AboutToDrink {
            Table {
                players: seat_set(
                    s.players,
                    ses.target,
                    drink_effect(d.drink, seat(s.players, ses.target)),
                ),
                ..s
            }
        } else {
            s
        },
    }
}

/// Resolves the current session of the current stack: its interrupt cards
/// act, then, unless negated, the root acts for the session (unless
/// ignored). A negated root ends the stack and hands back every card on it;
/// otherwise the stack goes on with its next session, whose target is to
/// interrupt first, or, with none left, ends and hands back its root.
pub open spec fn spec_resolve(stacks: Seq<StackView>, s: Table) -> (ResolveView, Seq<StackView>, Table) {
    let st = stacks[0];
    let rest = stacks.drop_first();
    let ses = st.sessions.last();
    let remaining = st.sessions.drop_last();
    let (cancel, spent_cards, g1) = resolve_cards(ses.cards, current_interrupt(rest), s.gambling);
    let s1 = Table { gambling: g1, ..s };
    if cancel == ShouldCancelPreviousCard::Negate {
        (root_resolve(st.root, drain_cards(remaining) + spent_cards), rest, s1)
    } else {
        let s2 = if cancel == ShouldCancelPreviousCard::No {
            apply_root(st.root, ses, s1)
        } else {
            s1
        };
        if remaining.len() > 0 {
            (
                ResolveView { root: None, cards: spent_cards, drink: None },
                seq![StackView { turn: remaining.last().target, sessions: remaining, ..st }] + rest,
                s2,
            )
        } else {
            (root_resolve(st.root, spent_cards), rest, s2)
        }
    }
}

/// Moves the turn to interrupt on: the targeted player passing on a
/// session only they may interrupt resolves it; otherwise the turn goes to
/// the next player still in the game, and resolves the session when it
/// comes back to the last player who played on it or no one else is left.
pub open spec fn spec_increment(stacks: Seq<StackView>, s: Table, is_passing: bool) -> Result<
    (Option<ResolveView>, Seq<StackView>, Table),
    Seq<char>,
> {
    if stacks.len() == 0 {
        Err("It is not anyone's turn to interrupt"@)
    } else {
        let st = stacks[0];
        let only = st.sessions.len() > 0 && st.sessions.last().only_targeted;
        if only && is_passing && st.turn == st.sessions.last().target {
            let (r, ns, nt) = spec_resolve(stacks, s);
            Ok((Some(r), ns, nt))
        } else {
            match spec_next_alive(s.players, st.turn) {
                NextPlayerUUIDOption::Next(n) => if Some(n) == last_player(stacks) {
                    let (r, ns, nt) = spec_resolve(stacks, s);
                    Ok((Some(r), ns, nt))
                } else {
                    Ok((None, stacks.update(0, StackView { turn: n, ..st }), s))
                },
                NextPlayerUUIDOption::PlayerNotFound => Err(
                    "Uh oh! Failed to increment player turn. This is an internal error, due to some sort of bug."@,
                ),
                NextPlayerUUIDOption::OnlyPlayerLeft => {
                    let (r, ns, nt) = spec_resolve(stacks, s);
                    Ok((Some(r), ns, nt))
                },
            }
        }
    }
}

/// The stacks after `u` plays `card` on the current session.
pub open spec fn spec_push(stacks: Seq<StackView>, card: InterruptPlayerCard, u: PlayerUUID) -> Seq<StackView> {
    let st = stacks[0];
    let ses = st.sessions.last();
    stacks.update(
        0,
        StackView {
            sessions: st.sessions.update(
                st.sessions.len() - 1,
                SessionView {
                    cards: ses.cards.push(
                        GameInterruptData {
                            card,
                            card_interrupt_type: card.interrupt_type_output,
                            card_owner_uuid: u,
                        },
                    ),
                    ..ses
                },
            ),
            ..st
        },
    )
}

/// A stack that can be resolved: it has a session, its root card's owner
/// and every interrupt card's owner are seated, and, for a root card that
/// makes players ante, so is every session's target.
pub open spec fn stack_ok(st: StackView, players: Seq<(PlayerUUID, PlayerView)>) -> bool {
    &&& st.sessions.len() > 0
    &&& forall|i: int, j: int|
        0 <= i < st.sessions.len() && 0 <= j < st.sessions[i].cards.len() ==> seated(
            players,
            (#[trigger] st.sessions[i].cards[j]).card_owner_uuid,
        )
    &&& st.root matches InterruptRoot::RootPlayerCard(r) ==> {
        &&& seated(players, r.root_card_owner_uuid)
        &&& (r.root_card.effect is GamblingImIn || r.root_card.effect is IRaise) ==> forall|i: int|
            0 <= i < st.sessions.len() ==> seated(players, (#[trigger] st.sessions[i]).target)
    }
}

/// Every stack can be resolved.
pub open spec fn stacks_ok(stacks: Seq<StackView>, players: Seq<(PlayerUUID, PlayerView)>) -> bool {
    forall|i: int| 0 <= i < stacks.len() ==> stack_ok(#[trigger] stacks[i], players)
}

/// The stack opened by a root card of `owner` aimed at `target` alone.
pub open spec fn single_stack(
    card: RootPlayerCard,
    owner: PlayerUUID,
    target: PlayerUUID,
    t: GameInterruptType,
) -> StackView {
    StackView {
        root: InterruptRoot::RootPlayerCard(
            RootPlayerCardWithInterruptData { root_card: card, root_card_owner_uuid: owner },
        ),
        turn: target,
        sessions: seq![
            SessionView { root_type: t, target, cards: Seq::empty(), only_targeted: true },
        ],
    }
}

/// The stack opened by a root card of `owner` aimed at each of `targets`
/// in turn.
pub open spec fn multi_stack(
    card: RootPlayerCard,
    owner: PlayerUUID,
    targets: Seq<PlayerUUID>,
    t: GameInterruptType,
) -> StackView {
    StackView {
        root: InterruptRoot::RootPlayerCard(
            RootPlayerCardWithInterruptData { root_card: card, root_card_owner_uuid: owner },
        ),
        turn: targets[0],
        sessions: target_sessions(targets, t),
    }
}

/// One session per targeted player, in reverse order of the targets (so the
/// first target's session is the current one), each answering `t` and
/// interruptible only by its target.
pub open spec fn target_sessions(targets: Seq<PlayerUUID>, t: GameInterruptType) -> Seq<SessionView> {
    Seq::new(
        targets.len(),
        |i: int|
            SessionView {
                root_type: t,
                target: targets[targets.len() - 1 - i],
                cards: Seq::empty(),
                only_targeted: true,
            },
    )
}

/// The interrupt cards as player cards, with their owners.
pub open spec fn as_player_cards(cards: Seq<(PlayerUUID, InterruptPlayerCard)>) -> Seq<
    (PlayerUUID, PlayerCard),
>
    decreases cards.len(),
{
    if cards.len() == 0 {
        Seq::empty()
    } else {
        as_player_cards(cards.drop_last()).push(
            (cards.last().0, PlayerCard::InterruptPlayerCard(cards.last().1)),
        )
    }
}

/// The player cards of resolve data, each with its owner: the root card
/// first, then the interrupt cards in order.
pub open spec fn resolve_player_cards(r: ResolveView) -> Seq<(PlayerUUID, PlayerCard)> {
    let root: Seq<(PlayerUUID, PlayerCard)> = match r.root {
        Some((c, u)) => seq![(u, PlayerCard::RootPlayerCard(c))],
        None => Seq::empty(),
    };
    root + as_player_cards(r.cards)
}

/// The drink cards of resolve data: those of its drink group, if any.
pub open spec fn resolve_drink_cards(r: ResolveView) -> Seq<DrinkCard> {
    match r.drink {
        Some(d) => discardable_cards(d.drinks@, d.ignored_card_or),
        None => Seq::empty(),
    }
}

/// The resolve data as plain values, if any.
pub open spec fn opt_view(o: Option<InterruptStackResolveData>) -> Option<ResolveView> {
    match o {
        Some(d) => Some(d@),
        None => None,
    }
}

impl InterruptManager {
    /// No interrupt in progress.
    pub fn new() -> (im: Self)
        ensures
            im@ == Seq::<StackView>::empty(),
    {
        InterruptManager { interrupt_stacks: Vec::new() }
    }

    /// Whether an interrupt is in progress.
    pub fn interrupt_in_progress(&self) -> (b: bool)
        ensures
            b == (self@.len() > 0),
    {
        self.interrupt_stacks.len() > 0
    }

    /// The event that the next interrupt card would answer, if an interrupt
    /// is in progress.
    pub fn get_current_interrupt(&self) -> (r: Option<GameInterruptType>)
        ensures
            r == current_interrupt(self@),
    {
        if self.interrupt_stacks.len() == 0 {
            None
        } else {
            self.interrupt_stacks[0].get_current_interrupt()
        }
    }

    /// Whose turn it is to interrupt, if an interrupt is in progress.
    pub fn get_current_interrupt_turn_or(&self) -> (r: Option<PlayerUUID>)
        ensures
            r == current_turn(self@),
    {
        if self.interrupt_stacks.len() == 0 {
            None
        } else {
            Some(self.interrupt_stacks[0].get_current_interrupt_turn())
        }
    }

    /// Whether it is the given player's turn to interrupt.
    pub fn is_turn_to_interrupt(&self, player_uuid: &PlayerUUID) -> (b: bool)
        ensures
            b == (current_turn(self@) == Some(*player_uuid)),
    {
        match self.get_current_interrupt_turn_or() {
            Some(u) => u == *player_uuid,
            None => false,
        }
    }
}

impl InterruptManager {
    /// Resolves the current session of the current stack (see
    /// `spec_resolve`). An error if no interrupt is in progress.
    pub fn resolve_current_stack_session(
        &mut self,
        player_manager: &mut PlayerManager,
        gambling_manager: &mut GamblingManager,
        turn_info: &mut TurnInfo,
    ) -> (r: Result<InterruptStackResolveData, Error>)
        requires
            old(self)@.len() > 0 ==> stack_ok(old(self)@[0], old(player_manager)@) && table_ok(
                table(*old(player_manager), *old(gambling_manager), *old(turn_info)),
            ),
        ensures
            old(self)@.len() == 0 ==> {
                &&& r matches Err(e) && e.message@ == "No stacks to resolve"@
                &&& final(self)@ == old(self)@
                &&& *final(player_manager) == *old(player_manager)
                &&& *final(gambling_manager) == *old(gambling_manager)
                &&& *final(turn_info) == *old(turn_info)
            },
            old(self)@.len() > 0 ==> (r matches Ok(d) && (
                d@,
                final(self)@,
                table(*final(player_manager), *final(gambling_manager), *final(turn_info)),
            ) == spec_resolve(
                old(self)@,
                table(*old(player_manager), *old(gambling_manager), *old(turn_info)),
            )),
            final(player_manager).players@.len() == old(player_manager).players@.len(),
            forall|i: int|
                0 <= i < old(player_manager).players@.len()
                    ==> (#[trigger] final(player_manager).players@[i]).0
                    == old(player_manager).players@[i].0,
    {
        if self.interrupt_stacks.len() == 0 {
            return Err(Error::new("No stacks to resolve"));
        }
        let ghost stacks0 = self@;
        let ghost s0 = table(*player_manager, *gambling_manager, *turn_info);
        let mut current_stack = self.interrupt_stacks.remove(0);
        proof {
            assert(self@ =~= stacks0.drop_first());
            assert(current_stack@ == stacks0[0]);
        }
        let ghost st = current_stack@;
        let ghost cur = current_interrupt(self@);
        let mut spent_interrupt_cards: Vec<(PlayerUUID, InterruptPlayerCard)> = Vec::new();
        let mut should_cancel_root_card = ShouldCancelPreviousCard::No;
        let mut session = current_stack.sessions.pop().unwrap();
        proof {
            assert(session@ == st.sessions.last());
            assert(current_stack@.sessions =~= st.sessions.drop_last());
        }
        let ghost total = resolve_cards(session@.cards, cur, gambling_manager@);
        while session.interrupt_cards.len() > 0
            invariant
                self@ == stacks0.drop_first(),
                cur == current_interrupt(self@),
                session.targeted_player_uuid == st.sessions.last().target,
                session.root_card_interrupt_type == st.sessions.last().root_type,
                current_stack@.root == st.root,
                current_stack@.sessions == st.sessions.drop_last(),
                *player_manager == *old(player_manager),
                *turn_info == *old(turn_info),
                ({
                    let rc = resolve_cards(session@.cards, cur, gambling_manager@);
                    &&& total.0 == (if session@.cards.len() == 0 {
                        should_cancel_root_card
                    } else {
                        rc.0
                    })
                    &&& total.1 == spent_interrupt_cards@ + rc.1
                    &&& total.2 == rc.2
                }),
                session@.cards.len() > 0 ==> should_cancel_root_card == ShouldCancelPreviousCard::No,
            decreases session@.cards.len(),
        {
            let ghost cards = session@.cards;
            let ghost g = gambling_manager@;
            let ghost acc = spent_interrupt_cards@;
            let game_interrupt_data = session.interrupt_cards.pop().unwrap();
            let r = game_interrupt_data.card.interrupt(
                &game_interrupt_data.card_owner_uuid,
                self,
                gambling_manager,
            );
            let ghost g1 = gambling_manager@;
            let ghost rest = cards.drop_last();
            proof {
                assert(game_interrupt_data == cards.last());
                assert(session@.cards == rest);
            }
            if r != ShouldCancelPreviousCard::No {
                if session.interrupt_cards.len() > 0 {
                    let beneath = session.interrupt_cards.pop().unwrap();
                    proof {
                        assert(beneath == rest.last());
                        assert(session@.cards == rest.drop_last());
                    }
                    spent_interrupt_cards.push((beneath.card_owner_uuid, beneath.card));
                } else {
                    should_cancel_root_card = r;
                }
            }
            spent_interrupt_cards.push((game_interrupt_data.card_owner_uuid, game_interrupt_data.card));
            proof {
                let rc = resolve_cards(session@.cards, cur, gambling_manager@);
                if r != ShouldCancelPreviousCard::No && rest.len() > 0 {
                    assert(acc + (seq![spent(rest.last()), spent(cards.last())] + rc.1)
                        =~= spent_interrupt_cards@ + rc.1);
                } else if r != ShouldCancelPreviousCard::No {
                    assert(acc + seq![spent(cards.last())] =~= spent_interrupt_cards@ + rc.1);
                } else {
                    assert(acc + (seq![spent(cards.last())] + rc.1) =~= spent_interrupt_cards@ + rc.1);
                }
            }
        }
        proof {
            assert(spent_interrupt_cards@ =~= total.1);
        }
        if should_cancel_root_card == ShouldCancelPreviousCard::Negate {
            let mut interrupt_stack_resolve_data = current_stack.drain_all_cards();
            interrupt_stack_resolve_data.interrupt_cards.append(&mut spent_interrupt_cards);
            return Ok(interrupt_stack_resolve_data);
        }
        let ghost s1 = table(*player_manager, *gambling_manager, *turn_info);
        proof {
            lemma_resolve_cards_seated(st.sessions.last().cards, cur, s0.gambling, s0.players);
            assert(g_seated(gambling_manager@, player_manager@));
            lemma_view_index(*player_manager);
        }
        if should_cancel_root_card == ShouldCancelPreviousCard::No {
            match &current_stack.root {
                InterruptRoot::RootPlayerCard(root_player_card_with_interrupt_data) => {
                    proof {
                        let last = (st.sessions.len() - 1) as int;
                        assert(st.sessions[last].target == session.targeted_player_uuid);
                        if gambling_manager@ is Some {
                            lemma_uuid_index(player_manager.players@, gambling_manager@->0.winner);
                        }
                    }
                    let ghost pm_before = *player_manager;
                    root_player_card_with_interrupt_data.root_card.interrupt_play(
                        &root_player_card_with_interrupt_data.root_card_owner_uuid,
                        &session.targeted_player_uuid,
                        player_manager,
                        gambling_manager,
                    );
                    proof {
                        crate::player_manager::lemma_same_seating_index(
                            player_manager.players@,
                            pm_before.players@,
                        );
                    }
                    if let Some(interrupt_data) =
                        root_player_card_with_interrupt_data.root_card.get_interrupt_data_or() {
                        interrupt_data.post_interrupt_play(
                            &root_player_card_with_interrupt_data.root_card_owner_uuid,
                            player_manager,
                            gambling_manager,
                            turn_info,
                        );
                    }
                },
                InterruptRoot::Drink(drink_with_interrupt_data) => {
                    proof {
                        lemma_uuid_index(player_manager.players@, session.targeted_player_uuid);
                        lemma_view_index(*player_manager);
                    }
                    let ghost before = *player_manager;
                    if let Some(targeted_player) = player_manager.get_player_by_uuid_mut(
                        &session.targeted_player_uuid,
                    ) {
                        if session.root_card_interrupt_type == GameInterruptType::AboutToDrink {
                            drink_with_interrupt_data.drink.process(targeted_player);
                        }
                    }
                    proof {
                        if before.has(session.targeted_player_uuid) {
                            let i = before.index_of(session.targeted_player_uuid);
                            lemma_view_update(
                                before,
                                *player_manager,
                                i,
                                session.targeted_player_uuid,
                                player_manager.players@[i].1,
                            );
                            if session.root_card_interrupt_type != GameInterruptType::AboutToDrink {
                                assert(player_manager@ =~= before@);
                            }
                        }
                    }
                },
            }
        }
        let n = current_stack.sessions.len();
        if n > 0 {
            current_stack.current_interrupt_turn = current_stack.sessions[n - 1].targeted_player_uuid;
            let ghost st2 = current_stack@;
            self.interrupt_stacks.insert(0, current_stack);
            proof {
                assert(self@ =~= seq![st2] + stacks0.drop_first());
            }
            Ok(
                InterruptStackResolveData {
                    root_card_with_owner_or: None,
                    interrupt_cards: spent_interrupt_cards,
                    drink_or: None,
                },
            )
        } else {
            Ok(
                match current_stack.root {
                    InterruptRoot::RootPlayerCard(root_player_card_with_interrupt_data) => {
                        InterruptStackResolveData {
                            root_card_with_owner_or: Some(
                                (
                                    root_player_card_with_interrupt_data.root_card,
                                    root_player_card_with_interrupt_data.root_card_owner_uuid,
                                ),
                            ),
                            interrupt_cards: spent_interrupt_cards,
                            drink_or: None,
                        }
                    },
                    InterruptRoot::Drink(drink_with_interrupt_data) => InterruptStackResolveData {
                        root_card_with_owner_or: None,
                        interrupt_cards: spent_interrupt_cards,
                        drink_or: Some(drink_with_interrupt_data.drink),
                    },
                },
            )
        }
    }
}

impl InterruptManager {
    /// Moves the turn to interrupt on (see `spec_increment`); an error, with
    /// nothing changed, if no interrupt is in progress or the player whose
    /// turn it is is not in the game.
    pub fn increment_player_turn(
        &mut self,
        player_manager: &mut PlayerManager,
        gambling_manager: &mut GamblingManager,
        turn_info: &mut TurnInfo,
        is_passing: bool,
    ) -> (r: Result<Option<InterruptStackResolveData>, Error>)
        requires
            stacks_ok(old(self)@, old(player_manager)@),
            table_ok(table(*old(player_manager), *old(gambling_manager), *old(turn_info))),
        ensures
            match r {
                Ok(o) => spec_increment(
                    old(self)@,
                    table(*old(player_manager), *old(gambling_manager), *old(turn_info)),
                    is_passing,
                ) == Ok::<(Option<ResolveView>, Seq<StackView>, Table), Seq<char>>(
                    (
                        opt_view(o),
                        final(self)@,
                        table(*final(player_manager), *final(gambling_manager), *final(turn_info)),
                    ),
                ),
                Err(e) => {
                    &&& spec_increment(
                        old(self)@,
                        table(*old(player_manager), *old(gambling_manager), *old(turn_info)),
                        is_passing,
                    ) == Err::<(Option<ResolveView>, Seq<StackView>, Table), Seq<char>>(e.message@)
                    &&& final(self)@ == old(self)@
                    &&& *final(player_manager) == *old(player_manager)
                    &&& *final(gambling_manager) == *old(gambling_manager)
                    &&& *final(turn_info) == *old(turn_info)
                },
            },
            final(player_manager).players@.len() == old(player_manager).players@.len(),
            forall|i: int|
                0 <= i < old(player_manager).players@.len()
                    ==> (#[trigger] final(player_manager).players@[i]).0
                    == old(player_manager).players@[i].0,
    {
        if self.interrupt_stacks.len() == 0 {
            return Err(Error::new("It is not anyone's turn to interrupt"));
        }
        proof {
            assert(stack_ok(self@[0], player_manager@));
            lemma_view_index(*player_manager);
        }
        let n = self.interrupt_stacks[0].sessions.len();
        let only = n > 0 && self.interrupt_stacks[0].sessions[n - 1].only_targeted_player_can_interrupt;
        let current_interrupt_turn = self.interrupt_stacks[0].current_interrupt_turn;
        proof {
            if n > 0 {
                assert(self@[0].sessions.last() == self.interrupt_stacks@[0].sessions@[n - 1]@);
            }
        }
        if only {
            if is_passing && current_interrupt_turn
                == self.interrupt_stacks[0].sessions[n - 1].targeted_player_uuid {
                return match self.resolve_current_stack_session(
                    player_manager,
                    gambling_manager,
                    turn_info,
                ) {
                    Ok(d) => Ok(Some(d)),
                    Err(e) => Err(e),
                };
            }
        }
        match player_manager.get_next_alive_player_uuid(&current_interrupt_turn) {
            NextPlayerUUIDOption::Next(next_player_uuid) => {
                let last = self.get_last_player_to_play_on_current_stack();
                let back_to_last = match last {
                    Some(l) => l == next_player_uuid,
                    None => false,
                };
                if back_to_last {
                    match self.resolve_current_stack_session(
                        player_manager,
                        gambling_manager,
                        turn_info,
                    ) {
                        Ok(d) => Ok(Some(d)),
                        Err(e) => Err(e),
                    }
                } else {
                    let ghost before = self@;
                    self.interrupt_stacks[0].current_interrupt_turn = next_player_uuid;
                    proof {
                        assert(self@ =~= before.update(
                            0,
                            StackView { turn: next_player_uuid, ..before[0] },
                        ));
                    }
                    Ok(None)
                }
            },
            NextPlayerUUIDOption::PlayerNotFound => Err(
                Error::new(
                    "Uh oh! Failed to increment player turn. This is an internal error, due to some sort of bug.",
                ),
            ),
            NextPlayerUUIDOption::OnlyPlayerLeft => {
                match self.resolve_current_stack_session(player_manager, gambling_manager, turn_info) {
                    Ok(d) => Ok(Some(d)),
                    Err(e) => Err(e),
                }
            },
        }
    }

    /// The current player passes on interrupting (see `spec_increment`).
    pub fn pass(
        &mut self,
        player_manager: &mut PlayerManager,
        gambling_manager: &mut GamblingManager,
        turn_info: &mut TurnInfo,
    ) -> (r: Result<Option<InterruptStackResolveData>, Error>)
        requires
            stacks_ok(old(self)@, old(player_manager)@),
            table_ok(table(*old(player_manager), *old(gambling_manager), *old(turn_info))),
        ensures
            match r {
                Ok(o) => spec_increment(
                    old(self)@,
                    table(*old(player_manager), *old(gambling_manager), *old(turn_info)),
                    true,
                ) == Ok::<(Option<ResolveView>, Seq<StackView>, Table), Seq<char>>(
                    (
                        opt_view(o),
                        final(self)@,
                        table(*final(player_manager), *final(gambling_manager), *final(turn_info)),
                    ),
                ),
                Err(e) => {
                    &&& spec_increment(
                        old(self)@,
                        table(*old(player_manager), *old(gambling_manager), *old(turn_info)),
                        true,
                    ) == Err::<(Option<ResolveView>, Seq<StackView>, Table), Seq<char>>(e.message@)
                    &&& final(self)@ == old(self)@
                    &&& *final(player_manager) == *old(player_manager)
                    &&& *final(gambling_manager) == *old(gambling_manager)
                    &&& *final(turn_info) == *old(turn_info)
                },
            },
            final(player_manager).players@.len() == old(player_manager).players@.len(),
            forall|i: int|
                0 <= i < old(player_manager).players@.len()
                    ==> (#[trigger] final(player_manager).players@[i]).0
                    == old(player_manager).players@[i].0,
    {
        self.increment_player_turn(player_manager, gambling_manager, turn_info, true)
    }

    /// The last player to have played on the current stack (see
    /// `last_player`).
    pub fn get_last_player_to_play_on_current_stack(&self) -> (r: Option<PlayerUUID>)
        ensures
            r == last_player(self@),
    {
        if self.interrupt_stacks.len() == 0 {
            return None;
        }
        let current_stack = &self.interrupt_stacks[0];
        let n = current_stack.sessions.len();
        if n == 0 {
            return None;
        }
        proof {
            assert(self@[0].sessions.last() == current_stack.sessions@[n - 1]@);
        }
        match current_stack.sessions[n - 1].get_last_player_to_play() {
            Some(player_uuid) => Some(player_uuid),
            None => match &current_stack.root {
                InterruptRoot::RootPlayerCard(root_player_card_with_interrupt_data) => Some(
                    root_player_card_with_interrupt_data.root_card_owner_uuid,
                ),
                InterruptRoot::Drink(_) => Some(current_stack.sessions[n - 1].targeted_player_uuid),
            },
        }
    }

    /// Whether the card may be played on the current stack: an error if
    /// there is nothing to interrupt or the card does not answer the current
    /// event.
    pub fn can_push_to_current_stack(&self, card: &InterruptPlayerCard) -> (r: Result<(), Error>)
        ensures
            match current_interrupt(self@) {
                Some(cur) => if spec_can_interrupt(*card, cur) {
                    r is Ok
                } else {
                    r matches Err(e) && e.message@
                        == "This card cannot interrupt the last played card"@
                },
                None => r matches Err(e) && e.message@ == "No card to interrupt"@,
            },
    {
        match self.get_current_interrupt() {
            Some(current_interrupt) => {
                if !card.can_interrupt(current_interrupt) {
                    return Err(Error::new("This card cannot interrupt the last played card"));
                }
            },
            None => return Err(Error::new("No card to interrupt")),
        };
        Ok(())
    }

    /// Plays the card on the current session of the current stack, for
    /// its owner; fails as `can_push_to_current_stack` says, handing the
    /// card back.
    pub fn push_to_current_stack(&mut self, card: InterruptPlayerCard, card_owner_uuid: PlayerUUID) -> (r:
        Result<(), (InterruptPlayerCard, Error)>)
        ensures
            match current_interrupt(old(self)@) {
                Some(cur) => if spec_can_interrupt(card, cur) {
                    r is Ok && final(self)@ == spec_push(old(self)@, card, card_owner_uuid)
                } else {
                    final(self)@ == old(self)@ && (r matches Err((c, e)) && c == card
                        && e.message@ == "This card cannot interrupt the last played card"@)
                },
                None => final(self)@ == old(self)@ && (r matches Err((c, e)) && c == card
                    && e.message@ == "No card to interrupt"@),
            },
    {
        if let Err(err) = self.can_push_to_current_stack(&card) {
            return Err((card, err));
        };
        if self.interrupt_stacks.len() == 0 {
            return Err((card, Error::new("No card to interrupt")));
        }
        let card_interrupt_type = card.get_interrupt_type_output();
        let ghost before = self@;
        let ghost data = GameInterruptData { card, card_interrupt_type, card_owner_uuid };
        let pushed = self.interrupt_stacks[0].push_game_interrupt_data_to_current_stack(
            GameInterruptData { card, card_interrupt_type, card_owner_uuid },
        );
        proof {
            assert(self@ =~= spec_push(before, card, card_owner_uuid));
        }
        match pushed {
            Ok(()) => Ok(()),
            Err((game_interrupt_data, err)) => Err((game_interrupt_data.card, err)),
        }
    }

    /// The player plays an interrupt card: it must be their turn to
    /// interrupt and the card must answer the current event (otherwise the
    /// card is handed back with an error); then the turn moves on (see
    /// `spec_increment`).
    pub fn play_interrupt_card(
        &mut self,
        card: InterruptPlayerCard,
        player_uuid: PlayerUUID,
        player_manager: &mut PlayerManager,
        gambling_manager: &mut GamblingManager,
        turn_info: &mut TurnInfo,
    ) -> (r: Result<Option<InterruptStackResolveData>, (InterruptPlayerCard, Error)>)
        requires
            stacks_ok(old(self)@, old(player_manager)@),
            table_ok(table(*old(player_manager), *old(gambling_manager), *old(turn_info))),
            current_turn(old(self)@) == Some(player_uuid) ==> seated(old(player_manager)@, player_uuid),
        ensures
            current_turn(old(self)@) != Some(player_uuid) ==> {
                &&& r matches Err((c, e)) && c == card && e.message@
                    == "It is not your turn to play an interrupt card"@
                &&& final(self)@ == old(self)@
                &&& *final(player_manager) == *old(player_manager)
                &&& *final(gambling_manager) == *old(gambling_manager)
                &&& *final(turn_info) == *old(turn_info)
            },
            current_turn(old(self)@) == Some(player_uuid) ==> match current_interrupt(old(self)@) {
                Some(cur) => if spec_can_interrupt(card, cur) {
                    r matches Ok(o) && spec_increment(
                        spec_push(old(self)@, card, player_uuid),
                        table(*old(player_manager), *old(gambling_manager), *old(turn_info)),
                        false,
                    ) == Ok::<(Option<ResolveView>, Seq<StackView>, Table), Seq<char>>(
                        (
                            opt_view(o),
                            final(self)@,
                            table(
                                *final(player_manager),
                                *final(gambling_manager),
                                *final(turn_info),
                            ),
                        ),
                    )
                } else {
                    &&& r matches Err((c, e)) && c == card && e.message@
                        == "This card cannot interrupt the last played card"@
                    &&& final(self)@ == old(self)@
                    &&& *final(player_manager) == *old(player_manager)
                    &&& *final(gambling_manager) == *old(gambling_manager)
                    &&& *final(turn_info) == *old(turn_info)
                },
                None => {
                    &&& r matches Err((c, e)) && c == card && e.message@ == "No card to interrupt"@
                    &&& final(self)@ == old(self)@
                    &&& *final(player_manager) == *old(player_manager)
                    &&& *final(gambling_manager) == *old(gambling_manager)
                    &&& *final(turn_info) == *old(turn_info)
                },
            },
            final(player_manager).players@.len() == old(player_manager).players@.len(),
            forall|i: int|
                0 <= i < old(player_manager).players@.len()
                    ==> (#[trigger] final(player_manager).players@[i]).0
                    == old(player_manager).players@[i].0,
    {
        if !self.is_turn_to_interrupt(&player_uuid) {
            return Err((card, Error::new("It is not your turn to play an interrupt card")));
        }
        let ghost before = self@;
        match self.push_to_current_stack(card, player_uuid) {
            Ok(_) => {
                proof {
                    lemma_push_ok(before, card, player_uuid, player_manager@);
                    lemma_uuid_index(player_manager@, player_uuid);
                }
                Ok(
                    self.increment_player_turn(
                        player_manager,
                        gambling_manager,
                        turn_info,
                        false,
                    ).unwrap(),
                )
            },
            Err(err) => Err(err),
        }
    }
}

impl InterruptManager {
    /// Opens an interrupt for a root card aimed at one player, who is first
    /// to interrupt and the only one who may. Fails, handing the card back,
    /// if an interrupt is in progress or the card opens none.
    pub fn start_single_player_root_player_card_interrupt(
        &mut self,
        root_card: RootPlayerCard,
        root_card_owner_uuid: PlayerUUID,
        targeted_player_uuid: PlayerUUID,
    ) -> (r: Result<(), (RootPlayerCard, Error)>)
        ensures
            old(self)@.len() > 0 ==> final(self)@ == old(self)@ && (r matches Err((c, e)) && c
                == root_card && e.message@ == "An interrupt is already in progress"@),
            old(self)@.len() == 0 ==> match root_card.interrupt_data_or {
                Some(d) => r is Ok && final(self)@ == seq![
                    single_stack(
                        root_card,
                        root_card_owner_uuid,
                        targeted_player_uuid,
                        d.interrupt_type_output,
                    ),
                ],
                None => final(self)@ == old(self)@ && (r matches Err((c, e)) && c == root_card
                    && e.message@ == "Card is not interruptable"@),
            },
    {
        if self.interrupt_in_progress() {
            return Err((root_card, Error::new("An interrupt is already in progress")));
        }
        match root_card.get_interrupt_data_or() {
            Some(interrupt_data) => {
                let root_card_interrupt_type = interrupt_data.get_interrupt_type_output();
                let mut sessions: Vec<GameInterruptStackSession> = Vec::new();
                sessions.push(
                    GameInterruptStackSession {
                        root_card_interrupt_type,
                        targeted_player_uuid,
                        interrupt_cards: Vec::new(),
                        only_targeted_player_can_interrupt: true,
                    },
                );
                let stack = GameInterruptStack {
                    root: InterruptRoot::RootPlayerCard(
                        RootPlayerCardWithInterruptData { root_card, root_card_owner_uuid },
                    ),
                    current_interrupt_turn: targeted_player_uuid,
                    sessions,
                };
                self.interrupt_stacks.push(stack);
                proof {
                    assert(stack@.sessions =~= seq![
                        SessionView {
                            root_type: root_card_interrupt_type,
                            target: targeted_player_uuid,
                            cards: Seq::empty(),
                            only_targeted: true,
                        },
                    ]);
                    assert(self@ =~= seq![stack@]);
                }
                Ok(())
            },
            None => Err((root_card, Error::new("Card is not interruptable"))),
        }
    }

    /// Opens an interrupt for a drink about to be drunk by the targeted
    /// player: first anyone may modify the drink, starting with the target;
    /// then the target alone may interrupt their drinking. Fails, handing
    /// the drink back, if an interrupt is in progress.
    pub fn start_single_player_drink_interrupt(
        &mut self,
        drink: DrinkWithPossibleChasers,
        targeted_player_uuid: PlayerUUID,
    ) -> (r: Result<(), (DrinkWithPossibleChasers, Error)>)
        ensures
            old(self)@.len() > 0 ==> final(self)@ == old(self)@ && (r matches Err((d, e)) && d
                == drink && e.message@ == "An interrupt is already in progress"@),
            old(self)@.len() == 0 ==> r is Ok && final(self)@ == seq![
                StackView {
                    root: InterruptRoot::Drink(DrinkWithInterruptData { drink }),
                    turn: targeted_player_uuid,
                    sessions: seq![
                        SessionView {
                            root_type: GameInterruptType::AboutToDrink,
                            target: targeted_player_uuid,
                            cards: Seq::empty(),
                            only_targeted: true,
                        },
                        SessionView {
                            root_type: GameInterruptType::ModifyDrink,
                            target: targeted_player_uuid,
                            cards: Seq::empty(),
                            only_targeted: false,
                        },
                    ],
                },
            ],
    {
        if self.interrupt_in_progress() {
            return Err((drink, Error::new("An interrupt is already in progress")));
        }
        let mut sessions: Vec<GameInterruptStackSession> = Vec::new();
        sessions.push(
            GameInterruptStackSession {
                root_card_interrupt_type: GameInterruptType::AboutToDrink,
                targeted_player_uuid,
                interrupt_cards: Vec::new(),
                only_targeted_player_can_interrupt: true,
            },
        );
        sessions.push(
            GameInterruptStackSession {
                root_card_interrupt_type: GameInterruptType::ModifyDrink,
                targeted_player_uuid,
                interrupt_cards: Vec::new(),
                only_targeted_player_can_interrupt: false,
            },
        );
        let stack = GameInterruptStack {
            root: InterruptRoot::Drink(DrinkWithInterruptData { drink }),
            current_interrupt_turn: targeted_player_uuid,
            sessions,
        };
        self.interrupt_stacks.push(stack);
        proof {
            assert(stack@.sessions =~= seq![
                SessionView {
                    root_type: GameInterruptType::AboutToDrink,
                    target: targeted_player_uuid,
                    cards: Seq::empty(),
                    only_targeted: true,
                },
                SessionView {
                    root_type: GameInterruptType::ModifyDrink,
                    target: targeted_player_uuid,
                    cards: Seq::empty(),
                    only_targeted: false,
                },
            ]);
            assert(self@ =~= seq![stack@]);
        }
        Ok(())
    }

    /// Opens an interrupt for a root card that affects several players one
    /// by one (such as "I raise!", which makes each ante): one session per
    /// targeted player, the first target's first; each target alone may
    /// interrupt their session. Fails, handing the card back, if an
    /// interrupt is in progress, there is no target, or the card opens no
    /// interrupt.
    pub fn start_multi_player_root_player_card_interrupt(
        &mut self,
        root_card: RootPlayerCard,
        root_card_owner_uuid: PlayerUUID,
        targeted_player_uuids: Vec<PlayerUUID>,
    ) -> (r: Result<(), (RootPlayerCard, Error)>)
        ensures
            old(self)@.len() > 0 ==> final(self)@ == old(self)@ && (r matches Err((c, e)) && c
                == root_card && e.message@ == "An interrupt is already in progress"@),
            old(self)@.len() == 0 && targeted_player_uuids@.len() == 0 ==> final(self)@ == old(
                self,
            )@ && (r matches Err((c, e)) && c == root_card && e.message@
                == "Cannot start an interrupt with no targeted players"@),
            old(self)@.len() == 0 && targeted_player_uuids@.len() > 0 ==> match root_card.interrupt_data_or {
                Some(d) => r is Ok && final(self)@ == seq![
                    multi_stack(
                        root_card,
                        root_card_owner_uuid,
                        targeted_player_uuids@,
                        d.interrupt_type_output,
                    ),
                ],
                None => final(self)@ == old(self)@ && (r matches Err((c, e)) && c == root_card
                    && e.message@ == "Card is not interruptable"@),
            },
    {
        if self.interrupt_in_progress() {
            return Err((root_card, Error::new("An interrupt is already in progress")));
        }
        if targeted_player_uuids.len() == 0 {
            return Err((root_card, Error::new("Cannot start an interrupt with no targeted players")));
        }
        match root_card.get_interrupt_data_or() {
            Some(interrupt_data) => {
                let root_card_interrupt_type = interrupt_data.get_interrupt_type_output();
                let mut sessions: Vec<GameInterruptStackSession> = Vec::new();
                let current_interrupt_turn = targeted_player_uuids[0];
                let n = targeted_player_uuids.len();
                let mut i: usize = n;
                while i > 0
                    invariant
                        n == targeted_player_uuids@.len(),
                        i <= n,
                        sessions@.len() == n - i,
                        forall|k: int|
                            0 <= k < sessions@.len() ==> (#[trigger] sessions@[k])@ == target_sessions(
                                targeted_player_uuids@,
                                root_card_interrupt_type,
                            )[k],
                    decreases i,
                {
                    i = i - 1;
                    sessions.push(
                        GameInterruptStackSession {
                            root_card_interrupt_type,
                            targeted_player_uuid: targeted_player_uuids[i],
                            interrupt_cards: Vec::new(),
                            only_targeted_player_can_interrupt: true,
                        },
                    );
                    proof {
                        assert(sessions@.last()@.cards =~= Seq::<GameInterruptData>::empty());
                    }
                }
                let stack = GameInterruptStack {
                    root: InterruptRoot::RootPlayerCard(
                        RootPlayerCardWithInterruptData { root_card, root_card_owner_uuid },
                    ),
                    current_interrupt_turn,
                    sessions,
                };
                self.interrupt_stacks.push(stack);
                proof {
                    assert(stack@.sessions =~= target_sessions(
                        targeted_player_uuids@,
                        root_card_interrupt_type,
                    ));
                    assert(self@ =~= seq![stack@]);
                }
                Ok(())
            },
            None => Err((root_card, Error::new("Card is not interruptable"))),
        }
    }
}

impl InterruptStackResolveData {
    /// Whether the resolved root ends the current player's action phase: it
    /// is an Action card that is not a gambling card.
    pub fn current_user_action_phase_is_over(&self) -> (b: bool)
        ensures
            b == (self@.root matches Some((c, _)) && c.spec_is_action_card()
                && !c.spec_is_gambling_card()),
    {
        match &self.root_card_with_owner_or {
            Some((root_card, _)) => root_card.is_action_card() && !root_card.is_gambling_card(),
            None => false,
        }
    }

    /// Hands out every card: the player cards with their owners (the root
    /// card first), and the drink cards to discard.
    pub fn take_all_player_cards(self) -> (r: (Vec<(PlayerUUID, PlayerCard)>, Vec<DrinkCard>))
        ensures
            r.0@ == resolve_player_cards(self@),
            r.1@ == resolve_drink_cards(self@),
    {
        let ghost v = self@;
        let mut cards: Vec<(PlayerUUID, PlayerCard)> = Vec::new();
        if let Some((root_card, root_card_owner_uuid)) = self.root_card_with_owner_or {
            cards.push((root_card_owner_uuid, PlayerCard::RootPlayerCard(root_card)));
        }
        let ghost root_part = cards@;
        let ghost cards0 = self.interrupt_cards@;
        let mut interrupt_cards = self.interrupt_cards;
        let ghost mut done: int = 0;
        proof {
            assert(cards0.take(0) =~= Seq::<(PlayerUUID, InterruptPlayerCard)>::empty());
            assert(cards@ =~= root_part + as_player_cards(cards0.take(0)));
        }
        while interrupt_cards.len() > 0
            invariant
                0 <= done <= cards0.len(),
                interrupt_cards@ == cards0.skip(done),
                cards@ == root_part + as_player_cards(cards0.take(done)),
            decreases interrupt_cards@.len(),
        {
            let (card_owner_uuid, card) = interrupt_cards.remove(0);
            cards.push((card_owner_uuid, PlayerCard::InterruptPlayerCard(card)));
            proof {
                assert(cards0[done] == (card_owner_uuid, card));
                assert(cards0.take(done + 1).drop_last() =~= cards0.take(done));
                done = done + 1;
                assert(interrupt_cards@ =~= cards0.skip(done));
                assert(cards@ =~= root_part + as_player_cards(cards0.take(done)));
            }
        }
        proof {
            assert(cards0.take(done) =~= cards0);
        }
        let drink_cards = match self.drink_or {
            Some(drink) => drink.take_all_discardable_drink_cards(),
            None => Vec::new(),
        };
        (cards, drink_cards)
    }
}

/// The name shown for a stack's root: the root card's name, or the drink
/// group's names in brackets.
pub open spec fn root_name(root: InterruptRoot) -> Seq<char> {
    match root {
        InterruptRoot::RootPlayerCard(r) => r.root_card.display_name@,
        InterruptRoot::Drink(d) => "["@ + drink_names(d.drink.drinks@) + "]"@,
    }
}

/// The kind shown for a stack's root.
pub open spec fn root_item_type(root: InterruptRoot) -> Seq<char> {
    match root {
        InterruptRoot::RootPlayerCard(_) => "rootPlayerCard"@,
        InterruptRoot::Drink(_) => "drinkEvent"@,
    }
}

/// The interrupt cards played on the stack's current session, if any.
pub open spec fn shown_cards(st: StackView) -> Seq<GameInterruptData> {
    if st.sessions.len() > 0 {
        st.sessions.last().cards
    } else {
        Seq::empty()
    }
}

impl InterruptManager {
    /// The interrupts in progress as shown to everyone: for each stack its
    /// root and the names of the interrupt cards played on its current
    /// session, in order; and whose turn it is to interrupt. `None` without
    /// an interrupt.
    pub fn get_game_view_interrupt_data_or(&self) -> (r: Option<GameViewInterruptData>)
        ensures
            self@.len() == 0 ==> r is None,
            self@.len() > 0 ==> (r matches Some(d) && {
                &&& d.current_interrupt_turn == self@[0].turn
                &&& d.interrupts@.len() == self@.len()
                &&& forall|k: int|
                    0 <= k < self@.len() ==> {
                        &&& (#[trigger] d.interrupts@[k]).root_item.name@ == root_name(
                            self@[k].root,
                        )
                        &&& d.interrupts@[k].root_item.item_type@ == root_item_type(self@[k].root)
                        &&& d.interrupts@[k].interrupt_card_names@.len() == shown_cards(
                            self@[k],
                        ).len()
                        &&& forall|j: int|
                            0 <= j < shown_cards(self@[k]).len()
                                ==> (#[trigger] d.interrupts@[k].interrupt_card_names@[j])@
                                == shown_cards(self@[k])[j].card.display_name@
                    }
            }),
    {
        let current_interrupt_turn = match self.get_current_interrupt_turn_or() {
            Some(current_interrupt_turn) => current_interrupt_turn,
            None => return None,
        };
        let mut interrupts: Vec<GameViewInterruptStack> = Vec::new();
        let mut k: usize = 0;
        while k < self.interrupt_stacks.len()
            invariant
                k <= self@.len(),
                interrupts@.len() == k,
                forall|m: int|
                    0 <= m < k ==> {
                        &&& (#[trigger] interrupts@[m]).root_item.name@ == root_name(self@[m].root)
                        &&& interrupts@[m].root_item.item_type@ == root_item_type(self@[m].root)
                        &&& interrupts@[m].interrupt_card_names@.len() == shown_cards(
                            self@[m],
                        ).len()
                        &&& forall|j: int|
                            0 <= j < shown_cards(self@[m]).len()
                                ==> (#[trigger] interrupts@[m].interrupt_card_names@[j])@
                                == shown_cards(self@[m])[j].card.display_name@
                    },
            decreases self@.len() - k,
        {
            let interrupt_stack = &self.interrupt_stacks[k];
            let ghost sv = self@[k as int];
            let mut interrupt_card_names: Vec<String> = Vec::new();
            let n = interrupt_stack.sessions.len();
            if n > 0 {
                let session = &interrupt_stack.sessions[n - 1];
                proof {
                    assert(sv.sessions.last() == session@);
                }
                let mut j: usize = 0;
                while j < session.interrupt_cards.len()
                    invariant
                        j <= session@.cards.len(),
                        interrupt_card_names@.len() == j,
                        forall|i: int|
                            0 <= i < j ==> (#[trigger] interrupt_card_names@[i])@
                                == session@.cards[i].card.display_name@,
                    decreases session@.cards.len() - j,
                {
                    interrupt_card_names.push(
                        String::from_str(session.interrupt_cards[j].card.get_display_name()),
                    );
                    j = j + 1;
                }
            }
            let root_item = match &interrupt_stack.root {
                InterruptRoot::RootPlayerCard(root_player_card_with_interrupt_data) => {
                    GameViewInterruptStackRootItem {
                        name: String::from_str(
                            root_player_card_with_interrupt_data.root_card.get_display_name(),
                        ),
                        item_type: String::from_str("rootPlayerCard"),
                    }
                },
                InterruptRoot::Drink(drink_with_interrupt_data) => GameViewInterruptStackRootItem {
                    name: drink_with_interrupt_data.drink.get_display_name(),
                    item_type: String::from_str("drinkEvent"),
                },
            };
            proof {
                reveal_strlit("rootPlayerCard");
                reveal_strlit("drinkEvent");
            }
            interrupts.push(GameViewInterruptStack { root_item, interrupt_card_names });
            k = k + 1;
        }
        Some(GameViewInterruptData { interrupts, current_interrupt_turn })
    }
}

/// Playing an interrupt card by a seated player keeps the stacks
/// resolvable.
pub proof fn lemma_push_ok(
    stacks: Seq<StackView>,
    card: InterruptPlayerCard,
    u: PlayerUUID,
    players: Seq<(PlayerUUID, PlayerView)>,
)
    requires
        stacks_ok(stacks, players),
        stacks.len() > 0,
        seated(players, u),
    ensures
        stacks_ok(spec_push(stacks, card, u), players),
        spec_push(stacks, card, u).len() == stacks.len(),
        spec_push(stacks, card, u)[0].turn == stacks[0].turn,
{
    let p = spec_push(stacks, card, u);
    assert(stack_ok(stacks[0], players));
    assert forall|k: int| 0 <= k < p.len() implies stack_ok(#[trigger] p[k], players) by {
        if k == 0 {
            let st = stacks[0];
            let last = st.sessions.len() - 1;
            assert forall|i: int, j: int|
                0 <= i < p[0].sessions.len() && 0 <= j < p[0].sessions[i].cards.len() implies seated(
                players,
                (#[trigger] p[0].sessions[i].cards[j]).card_owner_uuid,
            ) by {
                if i == last && j == st.sessions[last].cards.len() {
                } else {
                    assert(p[0].sessions[i].cards[j] == st.sessions[i].cards[j]);
                }
            }
            assert forall|i: int| 0 <= i < p[0].sessions.len() implies p[0].sessions[i].target
                == st.sessions[i].target by {}
        } else {
            assert(stack_ok(stacks[k], players));
        }
    }
}

impl GameInterruptStack {
    /// Hands back the stack's root and every interrupt card on it, session
    /// by session from the first, each session's cards top first.
    pub fn drain_all_cards(self) -> (d: InterruptStackResolveData)
        ensures
            d@ == root_resolve(self@.root, drain_cards(self@.sessions)),
    {
        let ghost sessions0 = self@.sessions;
        let root = self.root;
        let mut sessions = self.sessions;
        let mut interrupt_cards: Vec<(PlayerUUID, InterruptPlayerCard)> = Vec::new();
        let ghost mut done: int = 0;
        proof {
            assert(sessions0.take(0) =~= Seq::<SessionView>::empty());
        }
        while sessions.len() > 0
            invariant
                0 <= done <= sessions0.len(),
                sessions@.len() == sessions0.len() - done,
                forall|i: int| 0 <= i < sessions@.len() ==> (#[trigger] sessions@[i])@ == sessions0[done + i],
                interrupt_cards@ == drain_cards(sessions0.take(done)),
            decreases sessions@.len(),
        {
            let session = sessions.remove(0);
            proof {
                assert(session@ == sessions0[done]);
            }
            let mut cards = session.interrupt_cards;
            let ghost cards0 = cards@;
            let ghost acc0 = interrupt_cards@;
            proof {
                assert(interrupt_cards@ + cards_top_first(cards@) =~= acc0 + cards_top_first(cards0));
            }
            while cards.len() > 0
                invariant
                    interrupt_cards@ + cards_top_first(cards@) == acc0 + cards_top_first(cards0),
                decreases cards@.len(),
            {
                let ghost c = cards@;
                let game_interrupt_data = cards.pop().unwrap();
                interrupt_cards.push((game_interrupt_data.card_owner_uuid, game_interrupt_data.card));
                proof {
                    assert(game_interrupt_data == c.last());
                    assert(cards@ == c.drop_last());
                    assert(interrupt_cards@ + cards_top_first(cards@) =~= (interrupt_cards@.drop_last()
                        + cards_top_first(c)));
                }
            }
            proof {
                assert(cards_top_first(cards@) =~= Seq::<(PlayerUUID, InterruptPlayerCard)>::empty());
                assert(interrupt_cards@ =~= acc0 + cards_top_first(cards0));
                assert(sessions0.take(done + 1).drop_last() =~= sessions0.take(done));
                done = done + 1;
                assert forall|i: int| 0 <= i < sessions@.len() implies (#[trigger] sessions@[i])@
                    == sessions0[done + i] by {}
            }
        }
        proof {
            assert(sessions0.take(done) =~= sessions0);
        }
        match root {
            InterruptRoot::RootPlayerCard(root_player_card_with_interrupt_data) => {
                InterruptStackResolveData {
                    root_card_with_owner_or: Some(
                        (
                            root_player_card_with_interrupt_data.root_card,
                            root_player_card_with_interrupt_data.root_card_owner_uuid,
                        ),
                    ),
                    interrupt_cards,
                    drink_or: None,
                }
            },
            InterruptRoot::Drink(drink_with_interrupt_data) => InterruptStackResolveData {
                root_card_with_owner_or: None,
                interrupt_cards,
                drink_or: Some(drink_with_interrupt_data.drink),
            },
        }
    }
}

impl GameInterruptStackSession {
    /// The owner of the last interrupt card of the session.
    pub fn get_last_player_to_play(&self) -> (r: Option<PlayerUUID>)
        ensures
            r == (if self@.cards.len() > 0 {
                Some(self@.cards.last().card_owner_uuid)
            } else {
                None::<PlayerUUID>
            }),
    {
        let n = self.interrupt_cards.len();
        if n == 0 {
            None
        } else {
            Some(self.interrupt_cards[n - 1].card_owner_uuid)
        }
    }
}

impl GameInterruptStack {
    /// The event that the next interrupt card on this stack would answer.
    pub fn get_current_interrupt(&self) -> (r: Option<GameInterruptType>)
        ensures
            r == stack_current_interrupt(self@),
    {
        let n = self.sessions.len();
        if n == 0 {
            return None;
        }
        let current_session = &self.sessions[n - 1];
        let m = current_session.interrupt_cards.len();
        proof {
            assert(self@.sessions.last() == current_session@);
        }
        if m > 0 {
            Some(current_session.interrupt_cards[m - 1].card_interrupt_type)
        } else {
            Some(current_session.root_card_interrupt_type)
        }
    }

    /// Whose turn it is to interrupt on this stack.
    pub fn get_current_interrupt_turn(&self) -> (u: PlayerUUID)
        ensures
            u == self.current_interrupt_turn,
    {
        self.current_interrupt_turn
    }

    /// Plays an interrupt card on the current session. Fails, handing the
    /// card back, if the stack has no session.
    pub fn push_game_interrupt_data_to_current_stack(
        &mut self,
        game_interrupt_data: GameInterruptData,
    ) -> (r: Result<(), (GameInterruptData, Error)>)
        ensures
            old(self)@.sessions.len() > 0 ==> r is Ok && final(self)@ == (StackView {
                sessions: old(self)@.sessions.update(
                    old(self)@.sessions.len() - 1,
                    SessionView {
                        cards: old(self)@.sessions.last().cards.push(game_interrupt_data),
                        ..old(self)@.sessions.last()
                    },
                ),
                ..old(self)@
            }),
            old(self)@.sessions.len() == 0 ==> final(self)@ == old(self)@ && (r matches Err(
                (d, e),
            ) && d == game_interrupt_data && e.message@
                == "Game interrupt stack has no session to push to - this is an internal error"@),
    {
        let n = self.sessions.len();
        if n == 0 {
            return Err(
                (
                    game_interrupt_data,
                    Error::new(
                        "Game interrupt stack has no session to push to - this is an internal error",
                    ),
                ),
            );
        }
        let ghost before = self@;
        self.sessions[n - 1].interrupt_cards.push(game_interrupt_data);
        proof {
            assert(self@.sessions =~= before.sessions.update(
                before.sessions.len() - 1,
                SessionView {
                    cards: before.sessions.last().cards.push(game_interrupt_data),
                    ..before.sessions.last()
                },
            ));
        }
        Ok(())
    }
}

impl Default for InterruptManager {
    /// No interrupt in progress.
    fn default() -> (im: Self)
        ensures
            im@ == Seq::<StackView>::empty(),
    {
        InterruptManager::new()
    }
}

/// Resolving the current session either ends the first stack (the stacks
/// after it are left as they were) or keeps it in place. When it stays, it
/// goes on with the sessions below the resolved one, with the same root, and
/// the turn to interrupt goes to the target of its new current session:
/// the player the card now acts on answers it first.
pub proof fn law_next_session_starts_with_its_target(stacks: Seq<StackView>, s: Table)
    requires
        stacks.len() > 0,
    ensures
        ({
            let ns = spec_resolve(stacks, s).1;
            &&& ns.len() == stacks.len() || ns == stacks.drop_first()
            &&& ns.len() == stacks.len() ==> {
                &&& ns[0].sessions == stacks[0].sessions.drop_last()
                &&& ns[0].sessions.len() > 0
                &&& ns[0].root == stacks[0].root
                &&& ns[0].turn == ns[0].sessions.last().target
                &&& ns.drop_first() == stacks.drop_first()
            }
        }),
{
    let ns = spec_resolve(stacks, s).1;
    if ns.len() == stacks.len() {
        let st = stacks[0];
        let remaining = st.sessions.drop_last();
        assert(ns.drop_first() =~= stacks.drop_first());
    }
}

} // verus!
