use crate::gambling_manager::{
    g_ante, g_end, g_is_turn, g_leave, g_need_cheating, g_pass, g_start, g_take_control,
    GamblingManager, GamblingRoundView,
};
use crate::game_logic::{add_drinks, table, Table, TurnInfo};
use crate::interrupt_manager::{
    current_interrupt, current_turn, GameInterruptType, InterruptManager, PlayerCardInfo, StackView,
};
use crate::player::PlayerView;
use crate::player_manager::{
    lemma_uuid_index, lemma_view_index, lemma_view_update, seat, seat_change_fortitude, seat_change_gold,
    seated, PlayerManager,
};
use crate::text::{decimal, decimal_string, signed_decimal, signed_decimal_string};
use crate::uuid::PlayerUUID;
use vstd::prelude::*;

verus! {

/// A card in a player's deck.
#[derive(Clone, Debug)]
pub enum PlayerCard {
    RootPlayerCard(RootPlayerCard),
    InterruptPlayerCard(InterruptPlayerCard),
}

/// When a root card may be played.
#[derive(Clone, Copy, PartialEq, Eq, Structural, Debug)]
pub enum RootPlayerCardType {
    Action,
    ActionGambling,
    Anytime,
    Gambling,
    Cheating,
    Sometimes,
}

/// Whom a root card is aimed at.
#[derive(Clone, Copy, PartialEq, Eq, Structural, Debug)]
pub enum TargetStyle {
    SelfPlayer,
    SingleOtherPlayer,
    AllOtherPlayers,
    AllGamblingPlayersIncludingSelf,
}

/// Whether playing a root card opens an interrupt.
#[derive(Clone, Copy, PartialEq, Eq, Structural, Debug)]
pub enum ShouldInterrupt {
    Yes,
    No,
}

/// What an interrupt card does to the card it interrupts.
#[derive(Clone, Copy, PartialEq, Eq, Structural, Debug)]
pub enum ShouldCancelPreviousCard {
    Negate,
    Ignore,
    No,
}

/// The game effect of a root card.
#[derive(Clone, Copy, PartialEq, Eq, Structural, Debug)]
pub enum RootCardEffect {
    /// Starts a round of gambling (everyone antes) or takes control of one.
    GamblingImIn,
    /// Takes control of a round of gambling; everyone in it antes again.
    IRaise,
    /// Takes control of a round of gambling; the next to take control must
    /// cheat.
    WinningHand,
    /// Takes control of a round of gambling.
    GamblingCheat,
    /// Another player's fortitude changes by the amount.
    ChangeOtherPlayerFortitude(i32),
    /// Every other player's fortitude changes by the amount.
    ChangeAllOtherPlayerFortitude(i32),
    /// The player's own fortitude changes by the amount, at any time.
    GainFortitudeAnytime(i32),
    /// Two more drinks to order this turn.
    WenchBringSomeDrinks,
    /// The round of gambling ends; the pot goes to the inn.
    OhIGuessTheWenchThoughtThatWasHerTip,
}

/// What happens once a root card's interrupt resolved without being
/// cancelled, after its effect on the targeted player.
#[derive(Clone, Copy, PartialEq, Eq, Structural, Debug)]
pub enum PostInterruptPlay {
    /// Nothing more.
    Nothing,
    /// If it is the card owner's turn in the round of gambling, the owner
    /// passes in it.
    PassIfOwnersGamblingTurn,
    /// The card owner takes control of the round of gambling.
    TakeControlOfRound,
}

/// How a root card behaves as the root of an interrupt.
#[derive(Clone, Copy, PartialEq, Eq, Structural, Debug)]
pub struct RootPlayerCardInterruptData {
    pub interrupt_type_output: GameInterruptType,
    pub post_interrupt_play: PostInterruptPlay,
}

/// A card that is played on its own (not in response to another card).
#[derive(Clone, Debug)]
pub struct RootPlayerCard {
    pub display_name: String,
    pub display_description: String,
    pub card_type: RootPlayerCardType,
    pub target_style: TargetStyle,
    pub effect: RootCardEffect,
    pub interrupt_data_or: Option<RootPlayerCardInterruptData>,
}

/// The game effect of an interrupt card.
#[derive(Debug)]
pub enum InterruptCardEffect {
    /// Ignores an Action or Sometimes card that affects the player's
    /// fortitude.
    IgnoreRootCardAffectingFortitude,
    /// Negates a Sometimes card.
    IDontThinkSo,
    /// Ignores a drink.
    IgnoreDrink,
    /// Leaves the round of gambling when about to ante.
    LeaveGamblingRoundInsteadOfAnteing,
    /// Either of two interrupt cards, whichever applies (the first one
    /// first).
    Combined(Box<InterruptPlayerCard>, Box<InterruptPlayerCard>),
}

/// A card played in response to another card.
#[derive(Debug)]
pub struct InterruptPlayerCard {
    pub display_name: String,
    pub display_description: String,
    pub effect: InterruptCardEffect,
    pub interrupt_type_output: GameInterruptType,
    pub is_i_dont_think_so_card: bool,
}

/// A copy of an interrupt card, the cards it combines copied in turn.
fn copy_interrupt_card(card: &InterruptPlayerCard) -> (r: InterruptPlayerCard)
    ensures
        r == *card,
    decreases card,
{
    InterruptPlayerCard {
        display_name: card.display_name.clone(),
        display_description: card.display_description.clone(),
        effect: copy_interrupt_effect(&card.effect),
        interrupt_type_output: card.interrupt_type_output,
        is_i_dont_think_so_card: card.is_i_dont_think_so_card,
    }
}

/// A copy of an interrupt card's effect.
fn copy_interrupt_effect(effect: &InterruptCardEffect) -> (r: InterruptCardEffect)
    ensures
        r == *effect,
    decreases effect,
{
    match effect {
        InterruptCardEffect::IgnoreRootCardAffectingFortitude => {
            InterruptCardEffect::IgnoreRootCardAffectingFortitude
        },
        InterruptCardEffect::IDontThinkSo => InterruptCardEffect::IDontThinkSo,
        InterruptCardEffect::IgnoreDrink => InterruptCardEffect::IgnoreDrink,
        InterruptCardEffect::LeaveGamblingRoundInsteadOfAnteing => {
            InterruptCardEffect::LeaveGamblingRoundInsteadOfAnteing
        },
        InterruptCardEffect::Combined(first, second) => InterruptCardEffect::Combined(
            Box::new(copy_interrupt_card(first)),
            Box::new(copy_interrupt_card(second)),
        ),
    }
}

impl Clone for InterruptCardEffect {
    fn clone(&self) -> (r: Self)
        ensures
            r == *self,
    {
        copy_interrupt_effect(self)
    }
}

impl Clone for InterruptPlayerCard {
    fn clone(&self) -> (r: Self)
        ensures
            r == *self,
    {
        copy_interrupt_card(self)
    }
}

/// Whether an interrupt card may be played against the given event.
pub open spec fn spec_can_interrupt(card: InterruptPlayerCard, current: GameInterruptType) -> bool
    decreases card,
{
    match card.effect {
        InterruptCardEffect::IgnoreRootCardAffectingFortitude => match current {
            GameInterruptType::DirectedActionCardPlayed(info) => info.affects_fortitude,
            GameInterruptType::SometimesCardPlayed(info) => info.affects_fortitude,
            _ => false,
        },
        InterruptCardEffect::IDontThinkSo => current is SometimesCardPlayed,
        InterruptCardEffect::IgnoreDrink => current is AboutToDrink,
        InterruptCardEffect::LeaveGamblingRoundInsteadOfAnteing => current is AboutToAnte,
        InterruptCardEffect::Combined(first, second) => spec_can_interrupt(*first, current)
            || spec_can_interrupt(*second, current),
    }
}

/// The interrupt event produced by a Sometimes card that is not "I don't
/// think so!".
pub open spec fn plain_sometimes() -> GameInterruptType {
    GameInterruptType::SometimesCardPlayed(
        PlayerCardInfo { affects_fortitude: false, is_i_dont_think_so_card: false },
    )
}

/// The description of a card that changes another player's fortitude.
pub open spec fn change_other_description(amount: int) -> Seq<char> {
    "Pick another player. They "@ + (if amount > 0 {
        "gain "@ + decimal(amount as nat)
    } else {
        "lose "@ + decimal((-amount) as nat)
    }) + " Fortitude."@
}

/// The description of a card that changes every other player's fortitude.
pub open spec fn change_all_description(amount: int) -> Seq<char> {
    "Each other player "@ + (if amount > 0 {
        "gains "@ + decimal(amount as nat)
    } else {
        "loses "@ + decimal((-amount) as nat)
    }) + " Fortitude."@
}

/// The description of a card that gains fortitude.
pub open spec fn gain_fortitude_description(amount: int) -> Seq<char> {
    "Gain "@ + signed_decimal(amount) + " Fortitude."@
}

impl PlayerCard {
    /// The card's name.
    pub fn get_display_name(&self) -> (s: &str)
        ensures
            s@ == match self {
                PlayerCard::RootPlayerCard(c) => c.display_name@,
                PlayerCard::InterruptPlayerCard(c) => c.display_name@,
            },
    {
        match self {
            PlayerCard::RootPlayerCard(c) => c.display_name.as_str(),
            PlayerCard::InterruptPlayerCard(c) => c.display_name.as_str(),
        }
    }

    /// The card's description.
    pub fn get_display_description(&self) -> (s: &str)
        ensures
            s@ == match self {
                PlayerCard::RootPlayerCard(c) => c.display_description@,
                PlayerCard::InterruptPlayerCard(c) => c.display_description@,
            },
    {
        match self {
            PlayerCard::RootPlayerCard(c) => c.display_description.as_str(),
            PlayerCard::InterruptPlayerCard(c) => c.display_description.as_str(),
        }
    }
}

impl RootPlayerCard {
    /// The card's name.
    pub fn get_display_name(&self) -> (s: &str)
        ensures
            s@ == self.display_name@,
    {
        self.display_name.as_str()
    }

    /// The card's description.
    pub fn get_display_description(&self) -> (s: &str)
        ensures
            s@ == self.display_description@,
    {
        self.display_description.as_str()
    }

    /// Whom the card is aimed at.
    pub fn get_target_style(&self) -> (t: TargetStyle)
        ensures
            t == self.target_style,
    {
        self.target_style
    }

    /// Whether the card is played in the action phase.
    pub open spec fn spec_is_action_card(&self) -> bool {
        self.card_type == RootPlayerCardType::Action || self.card_type
            == RootPlayerCardType::ActionGambling
    }

    /// Whether the card is a gambling card.
    pub open spec fn spec_is_gambling_card(&self) -> bool {
        self.card_type == RootPlayerCardType::ActionGambling || self.card_type
            == RootPlayerCardType::Gambling
    }

    /// Whether the card is played in the action phase (Action or
    /// Action-Gambling cards).
    pub fn is_action_card(&self) -> (b: bool)
        ensures
            b == self.spec_is_action_card(),
    {
        match self.card_type {
            RootPlayerCardType::Action => true,
            RootPlayerCardType::ActionGambling => true,
            RootPlayerCardType::Anytime => false,
            RootPlayerCardType::Gambling => false,
            RootPlayerCardType::Cheating => false,
            RootPlayerCardType::Sometimes => false,
        }
    }

    /// Whether the card is a gambling card (Action-Gambling or Gambling
    /// cards).
    pub fn is_gambling_card(&self) -> (b: bool)
        ensures
            b == self.spec_is_gambling_card(),
    {
        match self.card_type {
            RootPlayerCardType::Action => false,
            RootPlayerCardType::ActionGambling => true,
            RootPlayerCardType::Anytime => false,
            RootPlayerCardType::Gambling => true,
            RootPlayerCardType::Cheating => false,
            RootPlayerCardType::Sometimes => false,
        }
    }

    /// How the card behaves as the root of an interrupt, if it opens one.
    pub fn get_interrupt_data_or(&self) -> (d: Option<RootPlayerCardInterruptData>)
        ensures
            d == self.interrupt_data_or,
    {
        self.interrupt_data_or
    }
}

impl RootPlayerCardInterruptData {
    /// The interrupt event the card opens.
    pub fn get_interrupt_type_output(&self) -> (t: GameInterruptType)
        ensures
            t == self.interrupt_type_output,
    {
        self.interrupt_type_output
    }
}

impl InterruptPlayerCard {
    /// The card's name.
    pub fn get_display_name(&self) -> (s: &str)
        ensures
            s@ == self.display_name@,
    {
        self.display_name.as_str()
    }

    /// The card's description.
    pub fn get_display_description(&self) -> (s: &str)
        ensures
            s@ == self.display_description@,
    {
        self.display_description.as_str()
    }

    /// Whether the card may be played against the given event.
    pub fn can_interrupt(&self, current_interrupt: GameInterruptType) -> (b: bool)
        ensures
            b == spec_can_interrupt(*self, current_interrupt),
        decreases self,
    {
        match &self.effect {
            InterruptCardEffect::IgnoreRootCardAffectingFortitude => match current_interrupt {
                GameInterruptType::DirectedActionCardPlayed(info) => info.affects_fortitude,
                GameInterruptType::SometimesCardPlayed(info) => info.affects_fortitude,
                _ => false,
            },
            InterruptCardEffect::IDontThinkSo => match current_interrupt {
                GameInterruptType::SometimesCardPlayed(_) => true,
                _ => false,
            },
            InterruptCardEffect::IgnoreDrink => match current_interrupt {
                GameInterruptType::AboutToDrink => true,
                _ => false,
            },
            InterruptCardEffect::LeaveGamblingRoundInsteadOfAnteing => match current_interrupt {
                GameInterruptType::AboutToAnte => true,
                _ => false,
            },
            InterruptCardEffect::Combined(first, second) => {
                first.can_interrupt(current_interrupt) || second.can_interrupt(current_interrupt)
            },
        }
    }

    /// The interrupt event the card produces when played.
    pub fn get_interrupt_type_output(&self) -> (t: GameInterruptType)
        ensures
            t == self.interrupt_type_output,
    {
        self.interrupt_type_output
    }
}

/// The root card is one of the game's cards: its kind, whom it is aimed at
/// and how it behaves in an interrupt are those its effect comes with.
pub open spec fn root_card_ok(c: RootPlayerCard) -> bool {
    let directed = GameInterruptType::DirectedActionCardPlayed(
        PlayerCardInfo { affects_fortitude: true, is_i_dont_think_so_card: false },
    );
    match c.effect {
        RootCardEffect::GamblingImIn => {
            &&& c.card_type == RootPlayerCardType::ActionGambling
            &&& c.target_style == TargetStyle::AllOtherPlayers
            &&& c.interrupt_data_or == Some(
                RootPlayerCardInterruptData {
                    interrupt_type_output: GameInterruptType::AboutToAnte,
                    post_interrupt_play: PostInterruptPlay::PassIfOwnersGamblingTurn,
                },
            )
        },
        RootCardEffect::IRaise => {
            &&& c.card_type == RootPlayerCardType::Gambling
            &&& c.target_style == TargetStyle::AllGamblingPlayersIncludingSelf
            &&& c.interrupt_data_or == Some(
                RootPlayerCardInterruptData {
                    interrupt_type_output: GameInterruptType::AboutToAnte,
                    post_interrupt_play: PostInterruptPlay::TakeControlOfRound,
                },
            )
        },
        RootCardEffect::WinningHand | RootCardEffect::GamblingCheat => {
            &&& c.card_type == RootPlayerCardType::Cheating
            &&& c.target_style == TargetStyle::SelfPlayer
            &&& c.interrupt_data_or is None
        },
        RootCardEffect::ChangeOtherPlayerFortitude(_) => {
            &&& c.card_type == RootPlayerCardType::Action
            &&& c.target_style == TargetStyle::SingleOtherPlayer
            &&& c.interrupt_data_or == Some(
                RootPlayerCardInterruptData {
                    interrupt_type_output: directed,
                    post_interrupt_play: PostInterruptPlay::Nothing,
                },
            )
        },
        RootCardEffect::ChangeAllOtherPlayerFortitude(_) => {
            &&& c.card_type == RootPlayerCardType::Action
            &&& c.target_style == TargetStyle::AllOtherPlayers
            &&& c.interrupt_data_or == Some(
                RootPlayerCardInterruptData {
                    interrupt_type_output: directed,
                    post_interrupt_play: PostInterruptPlay::Nothing,
                },
            )
        },
        RootCardEffect::GainFortitudeAnytime(_) => {
            &&& c.card_type == RootPlayerCardType::Anytime
            &&& c.target_style == TargetStyle::SelfPlayer
            &&& c.interrupt_data_or is None
        },
        RootCardEffect::WenchBringSomeDrinks | RootCardEffect::OhIGuessTheWenchThoughtThatWasHerTip => {
            &&& c.card_type == RootPlayerCardType::Sometimes
            &&& c.target_style == TargetStyle::SelfPlayer
            &&& c.interrupt_data_or == Some(
                RootPlayerCardInterruptData {
                    interrupt_type_output: plain_sometimes(),
                    post_interrupt_play: PostInterruptPlay::Nothing,
                },
            )
        },
    }
}

/// The card is one of the game's cards (see `root_card_ok`); every
/// interrupt card is.
pub open spec fn card_ok(c: PlayerCard) -> bool {
    match c {
        PlayerCard::RootPlayerCard(r) => root_card_ok(r),
        PlayerCard::InterruptPlayerCard(_) => true,
    }
}

/// Whether the root card may be played by `u`, given the round of gambling,
/// whether an interrupt is in progress, and the turn. Only Anytime and
/// Sometimes cards may be played during an interrupt.
pub open spec fn root_can_play(
    card: RootPlayerCard,
    u: PlayerUUID,
    g: Option<GamblingRoundView>,
    interrupting: bool,
    t: TurnInfo,
) -> bool {
    if card.card_type != RootPlayerCardType::Anytime && card.card_type
        != RootPlayerCardType::Sometimes && interrupting {
        false
    } else {
        match card.effect {
            RootCardEffect::GamblingImIn => if g is Some {
                g_is_turn(g, u) && !g_need_cheating(g)
            } else {
                t.spec_can_play_action_card(u, g)
            },
            RootCardEffect::IRaise => g_is_turn(g, u) && !g_need_cheating(g),
            RootCardEffect::WinningHand => g_is_turn(g, u) && !g_need_cheating(g),
            RootCardEffect::GamblingCheat => g_is_turn(g, u),
            RootCardEffect::ChangeOtherPlayerFortitude(_) => t.spec_can_play_action_card(u, g),
            RootCardEffect::ChangeAllOtherPlayerFortitude(_) => t.spec_can_play_action_card(u, g),
            RootCardEffect::GainFortitudeAnytime(_) => true,
            RootCardEffect::WenchBringSomeDrinks => t.player_turn == u && t.turn_phase
                == crate::game_logic::TurnPhase::OrderDrinks,
            RootCardEffect::OhIGuessTheWenchThoughtThatWasHerTip => g is Some && !interrupting,
        }
    }
}

/// Whether the card may be played by `u`: a root card as `root_can_play`
/// says; an interrupt card when it is `u`'s turn to interrupt and the card
/// answers the current event (only "I don't think so!" answers another "I
/// don't think so!").
pub open spec fn card_can_play(
    card: PlayerCard,
    u: PlayerUUID,
    g: Option<GamblingRoundView>,
    stacks: Seq<StackView>,
    t: TurnInfo,
) -> bool {
    match card {
        PlayerCard::RootPlayerCard(r) => root_can_play(r, u, g, stacks.len() > 0, t),
        PlayerCard::InterruptPlayerCard(c) => match current_interrupt(stacks) {
            Some(cur) => {
                &&& !(cur matches GameInterruptType::SometimesCardPlayed(info)
                    && info.is_i_dont_think_so_card && !c.is_i_dont_think_so_card)
                &&& spec_can_interrupt(c, cur)
                &&& current_turn(stacks) == Some(u)
            },
            None => false,
        },
    }
}

/// What playing the root card does before any interrupt, and whether it
/// then opens one (or, without interrupt data, takes effect at once).
pub open spec fn spec_pre_interrupt_play(card: RootPlayerCard, u: PlayerUUID, s: Table) -> (
    ShouldInterrupt,
    Table,
) {
    match card.effect {
        RootCardEffect::GamblingImIn => match s.gambling {
            Some(_) => (
                ShouldInterrupt::No,
                Table { gambling: g_take_control(s.gambling, u, false), ..s },
            ),
            None => {
                let (g, p) = g_start(s.gambling, s.players, u);
                (ShouldInterrupt::Yes, Table { gambling: g, players: p, ..s })
            },
        },
        RootCardEffect::WinningHand => (
            ShouldInterrupt::No,
            Table { gambling: g_take_control(s.gambling, u, true), ..s },
        ),
        RootCardEffect::GamblingCheat => (
            ShouldInterrupt::No,
            Table { gambling: g_take_control(s.gambling, u, false), ..s },
        ),
        RootCardEffect::GainFortitudeAnytime(a) => (
            ShouldInterrupt::No,
            Table { players: seat_change_fortitude(s.players, u, a as int), ..s },
        ),
        RootCardEffect::WenchBringSomeDrinks => (
            ShouldInterrupt::No,
            Table {
                players: seat_change_gold(s.players, u, -1),
                turn: add_drinks(s.turn, 2),
                ..s
            },
        ),
        RootCardEffect::OhIGuessTheWenchThoughtThatWasHerTip => (
            ShouldInterrupt::No,
            Table { gambling: None, turn: g_end(s.turn), ..s },
        ),
        _ => (ShouldInterrupt::Yes, s),
    }
}

/// What the root card does to its target `target` once it takes effect: the
/// players and the round of gambling afterwards.
pub open spec fn spec_interrupt_play(
    card: RootPlayerCard,
    target: PlayerUUID,
    players: Seq<(PlayerUUID, PlayerView)>,
    g: Option<GamblingRoundView>,
) -> (Seq<(PlayerUUID, PlayerView)>, Option<GamblingRoundView>) {
    match card.effect {
        RootCardEffect::GamblingImIn | RootCardEffect::IRaise => {
            let (g2, p2) = g_ante(g, players, target);
            (p2, g2)
        },
        RootCardEffect::ChangeOtherPlayerFortitude(a) | RootCardEffect::ChangeAllOtherPlayerFortitude(
            a,
        ) => (seat_change_fortitude(players, target, a as int), g),
        _ => (players, g),
    }
}

/// What happens after a root card's interrupt resolved without being
/// cancelled, for the card's owner `u`.
pub open spec fn spec_post_interrupt_play(
    data: RootPlayerCardInterruptData,
    u: PlayerUUID,
    s: Table,
) -> Table {
    match data.post_interrupt_play {
        PostInterruptPlay::Nothing => s,
        PostInterruptPlay::PassIfOwnersGamblingTurn => if g_is_turn(s.gambling, u) {
            let (g, p, t) = g_pass(s.gambling, s.players, s.turn);
            Table { players: p, gambling: g, turn: t }
        } else {
            s
        },
        PostInterruptPlay::TakeControlOfRound => Table {
            gambling: g_take_control(s.gambling, u, false),
            ..s
        },
    }
}

/// What an interrupt card does when its stack resolves, given the event
/// then current: whether it cancels the card beneath it (or the root), and
/// whether its owner leaves the round of gambling. A combined card acts as
/// the first of its two cards that answers the current event.
pub open spec fn interrupt_outcome(card: InterruptPlayerCard, current: Option<GameInterruptType>) -> (
    ShouldCancelPreviousCard,
    bool,
)
    decreases card,
{
    match card.effect {
        InterruptCardEffect::IgnoreRootCardAffectingFortitude => (ShouldCancelPreviousCard::Ignore, false),
        InterruptCardEffect::IDontThinkSo => (ShouldCancelPreviousCard::Negate, false),
        InterruptCardEffect::IgnoreDrink => (ShouldCancelPreviousCard::Ignore, false),
        InterruptCardEffect::LeaveGamblingRoundInsteadOfAnteing => (ShouldCancelPreviousCard::No, true),
        InterruptCardEffect::Combined(first, second) => match current {
            Some(cur) => if spec_can_interrupt(*first, cur) {
                interrupt_outcome(*first, current)
            } else if spec_can_interrupt(*second, cur) {
                interrupt_outcome(*second, current)
            } else {
                (ShouldCancelPreviousCard::No, false)
            },
            None => (ShouldCancelPreviousCard::No, false),
        },
    }
}

impl PlayerCard {
    /// Whether the player may play the card now.
    pub fn can_play(
        &self,
        player_uuid: &PlayerUUID,
        gambling_manager: &GamblingManager,
        interrupt_manager: &InterruptManager,
        turn_info: &TurnInfo,
    ) -> (b: bool)
        ensures
            b == card_can_play(*self, *player_uuid, gambling_manager@, interrupt_manager@, *turn_info),
    {
        match self {
            PlayerCard::RootPlayerCard(root_player_card) => root_player_card.can_play(
                player_uuid,
                gambling_manager,
                interrupt_manager,
                turn_info,
            ),
            PlayerCard::InterruptPlayerCard(interrupt_player_card) => {
                let current_interrupt = match interrupt_manager.get_current_interrupt() {
                    Some(current_interrupt) => current_interrupt,
                    None => return false,
                };
                if let GameInterruptType::SometimesCardPlayed(player_card_info) = current_interrupt {
                    if player_card_info.is_i_dont_think_so_card
                        && !interrupt_player_card.is_i_dont_think_so_card {
                        return false;
                    }
                }
                interrupt_player_card.can_interrupt(current_interrupt)
                    && interrupt_manager.is_turn_to_interrupt(player_uuid)
            },
        }
    }
}

impl RootPlayerCard {
    /// Whether the player may play the card now.
    pub fn can_play(
        &self,
        player_uuid: &PlayerUUID,
        gambling_manager: &GamblingManager,
        interrupt_manager: &InterruptManager,
        turn_info: &TurnInfo,
    ) -> (b: bool)
        ensures
            b == root_can_play(
                *self,
                *player_uuid,
                gambling_manager@,
                interrupt_manager@.len() > 0,
                *turn_info,
            ),
    {
        if (self.card_type != RootPlayerCardType::Anytime && self.card_type
            != RootPlayerCardType::Sometimes) && interrupt_manager.interrupt_in_progress() {
            return false;
        }
        match self.effect {
            RootCardEffect::GamblingImIn => if gambling_manager.round_in_progress() {
                gambling_manager.is_turn(player_uuid)
                    && !gambling_manager.need_cheating_card_to_take_next_control()
            } else {
                turn_info.can_play_action_card(player_uuid, gambling_manager)
            },
            RootCardEffect::IRaise => gambling_manager.is_turn(player_uuid)
                && !gambling_manager.need_cheating_card_to_take_next_control(),
            RootCardEffect::WinningHand => gambling_manager.is_turn(player_uuid)
                && !gambling_manager.need_cheating_card_to_take_next_control(),
            RootCardEffect::GamblingCheat => gambling_manager.is_turn(player_uuid),
            RootCardEffect::ChangeOtherPlayerFortitude(_) => turn_info.can_play_action_card(
                player_uuid,
                gambling_manager,
            ),
            RootCardEffect::ChangeAllOtherPlayerFortitude(_) => turn_info.can_play_action_card(
                player_uuid,
                gambling_manager,
            ),
            RootCardEffect::GainFortitudeAnytime(_) => true,
            RootCardEffect::WenchBringSomeDrinks => turn_info.get_current_player_turn()
                == *player_uuid && turn_info.is_order_drink_phase(),
            RootCardEffect::OhIGuessTheWenchThoughtThatWasHerTip => gambling_manager.round_in_progress()
                && !interrupt_manager.interrupt_in_progress(),
        }
    }

    /// Plays the card's effect that comes before any interrupt, and says
    /// whether it then opens an interrupt.
    pub fn pre_interrupt_play(
        &self,
        player_uuid: &PlayerUUID,
        player_manager: &mut PlayerManager,
        gambling_manager: &mut GamblingManager,
        turn_info: &mut TurnInfo,
    ) -> (r: ShouldInterrupt)
        requires
            self.effect is GamblingImIn && old(gambling_manager)@ is None ==> old(
                player_manager,
            ).has(*player_uuid),
        ensures
            (r, table(*final(player_manager), *final(gambling_manager), *final(turn_info)))
                == spec_pre_interrupt_play(
                *self,
                *player_uuid,
                table(*old(player_manager), *old(gambling_manager), *old(turn_info)),
            ),
            final(player_manager).players@.len() == old(player_manager).players@.len(),
            forall|i: int|
                0 <= i < old(player_manager).players@.len()
                    ==> (#[trigger] final(player_manager).players@[i]).0
                    == old(player_manager).players@[i].0,
    {
        match self.effect {
            RootCardEffect::GamblingImIn => {
                if gambling_manager.round_in_progress() {
                    gambling_manager.take_control_of_round(*player_uuid, false);
                    ShouldInterrupt::No
                } else {
                    gambling_manager.start_round(*player_uuid, player_manager);
                    ShouldInterrupt::Yes
                }
            },
            RootCardEffect::WinningHand => {
                gambling_manager.take_control_of_round(*player_uuid, true);
                ShouldInterrupt::No
            },
            RootCardEffect::GamblingCheat => {
                gambling_manager.take_control_of_round(*player_uuid, false);
                ShouldInterrupt::No
            },
            RootCardEffect::GainFortitudeAnytime(amount) => {
                proof {
                    lemma_uuid_index(player_manager.players@, *player_uuid);
                    lemma_view_index(*player_manager);
                }
                let ghost before = *player_manager;
                if let Some(player) = player_manager.get_player_by_uuid_mut(player_uuid) {
                    player.change_fortitude(amount);
                }
                proof {
                    if before.has(*player_uuid) {
                        let i = before.index_of(*player_uuid);
                        lemma_view_update(
                            before,
                            *player_manager,
                            i,
                            *player_uuid,
                            player_manager.players@[i].1,
                        );
                    }
                }
                ShouldInterrupt::No
            },
            RootCardEffect::WenchBringSomeDrinks => {
                proof {
                    lemma_uuid_index(player_manager.players@, *player_uuid);
                    lemma_view_index(*player_manager);
                }
                let ghost before = *player_manager;
                if let Some(player) = player_manager.get_player_by_uuid_mut(player_uuid) {
                    player.change_gold(-1);
                }
                proof {
                    if before.has(*player_uuid) {
                        let i = before.index_of(*player_uuid);
                        lemma_view_update(
                            before,
                            *player_manager,
                            i,
                            *player_uuid,
                            player_manager.players@[i].1,
                        );
                    }
                }
                turn_info.add_drinks_to_order(2);
                ShouldInterrupt::No
            },
            RootCardEffect::OhIGuessTheWenchThoughtThatWasHerTip => {
                gambling_manager.end_round_and_discard_gold(turn_info);
                ShouldInterrupt::No
            },
            _ => ShouldInterrupt::Yes,
        }
    }

    /// Plays the card's effect on the targeted player.
    pub fn interrupt_play(
        &self,
        player_uuid: &PlayerUUID,
        targeted_player_uuid: &PlayerUUID,
        player_manager: &mut PlayerManager,
        gambling_manager: &mut GamblingManager,
    )
        requires
            (self.effect is GamblingImIn || self.effect is IRaise) && old(gambling_manager)@ is Some
                ==> old(player_manager).has(*targeted_player_uuid),
        ensures
            (final(player_manager)@, final(gambling_manager)@) == spec_interrupt_play(
                *self,
                *targeted_player_uuid,
                old(player_manager)@,
                old(gambling_manager)@,
            ),
            final(player_manager).players@.len() == old(player_manager).players@.len(),
            forall|i: int|
                0 <= i < old(player_manager).players@.len()
                    ==> (#[trigger] final(player_manager).players@[i]).0
                    == old(player_manager).players@[i].0,
    {
        match self.effect {
            RootCardEffect::GamblingImIn | RootCardEffect::IRaise => {
                gambling_manager.ante_up(targeted_player_uuid, player_manager);
            },
            RootCardEffect::ChangeOtherPlayerFortitude(amount)
            | RootCardEffect::ChangeAllOtherPlayerFortitude(amount) => {
                proof {
                    lemma_uuid_index(player_manager.players@, *targeted_player_uuid);
                    lemma_view_index(*player_manager);
                }
                let ghost before = *player_manager;
                if let Some(targeted_player) = player_manager.get_player_by_uuid_mut(
                    targeted_player_uuid,
                ) {
                    targeted_player.change_fortitude(amount);
                }
                proof {
                    if before.has(*targeted_player_uuid) {
                        let i = before.index_of(*targeted_player_uuid);
                        lemma_view_update(
                            before,
                            *player_manager,
                            i,
                            *targeted_player_uuid,
                            player_manager.players@[i].1,
                        );
                    }
                }
            },
            _ => {},
        }
    }
}

impl RootPlayerCardInterruptData {
    /// What happens for the card's owner after its interrupt resolved
    /// without being cancelled.
    pub fn post_interrupt_play(
        &self,
        player_uuid: &PlayerUUID,
        player_manager: &mut PlayerManager,
        gambling_manager: &mut GamblingManager,
        turn_info: &mut TurnInfo,
    )
        requires
            old(gambling_manager)@ matches Some(r) ==> old(player_manager).has(r.winner),
        ensures
            table(*final(player_manager), *final(gambling_manager), *final(turn_info))
                == spec_post_interrupt_play(
                *self,
                *player_uuid,
                table(*old(player_manager), *old(gambling_manager), *old(turn_info)),
            ),
            final(player_manager).players@.len() == old(player_manager).players@.len(),
            forall|i: int|
                0 <= i < old(player_manager).players@.len()
                    ==> (#[trigger] final(player_manager).players@[i]).0
                    == old(player_manager).players@[i].0,
    {
        match self.post_interrupt_play {
            PostInterruptPlay::Nothing => {},
            PostInterruptPlay::PassIfOwnersGamblingTurn => {
                if gambling_manager.is_turn(player_uuid) {
                    gambling_manager.pass(player_manager, turn_info);
                }
            },
            PostInterruptPlay::TakeControlOfRound => {
                gambling_manager.take_control_of_round(*player_uuid, false);
            },
        }
    }
}

impl InterruptPlayerCard {
    /// Plays the card's effect when its stack resolves, for its owner;
    /// says whether it cancels the card beneath it.
    pub fn interrupt(
        &self,
        player_uuid: &PlayerUUID,
        interrupt_manager: &InterruptManager,
        gambling_manager: &mut GamblingManager,
    ) -> (r: ShouldCancelPreviousCard)
        ensures
            ({
                let (c, leaves) = interrupt_outcome(*self, current_interrupt(interrupt_manager@));
                &&& r == c
                &&& final(gambling_manager)@ == if leaves {
                    g_leave(old(gambling_manager)@, *player_uuid)
                } else {
                    old(gambling_manager)@
                }
            }),
        decreases self,
    {
        match &self.effect {
            InterruptCardEffect::IgnoreRootCardAffectingFortitude => ShouldCancelPreviousCard::Ignore,
            InterruptCardEffect::IDontThinkSo => ShouldCancelPreviousCard::Negate,
            InterruptCardEffect::IgnoreDrink => ShouldCancelPreviousCard::Ignore,
            InterruptCardEffect::LeaveGamblingRoundInsteadOfAnteing => {
                let _ = gambling_manager.leave_gambling_round(player_uuid);
                ShouldCancelPreviousCard::No
            },
            InterruptCardEffect::Combined(first, second) => {
                match interrupt_manager.get_current_interrupt() {
                    Some(current_interrupt) => {
                        if first.can_interrupt(current_interrupt) {
                            first.interrupt(player_uuid, interrupt_manager, gambling_manager)
                        } else if second.can_interrupt(current_interrupt) {
                            second.interrupt(player_uuid, interrupt_manager, gambling_manager)
                        } else {
                            ShouldCancelPreviousCard::No
                        }
                    },
                    None => ShouldCancelPreviousCard::No,
                }
            },
        }
    }
}

/// `c` is a root card with exactly these fields (the strings by their
/// text).
pub open spec fn root_card_is(
    c: RootPlayerCard,
    name: Seq<char>,
    description: Seq<char>,
    card_type: RootPlayerCardType,
    target_style: TargetStyle,
    effect: RootCardEffect,
    interrupt_data_or: Option<RootPlayerCardInterruptData>,
) -> bool {
    &&& c.display_name@ == name
    &&& c.display_description@ == description
    &&& c.card_type == card_type
    &&& c.target_style == target_style
    &&& c.effect == effect
    &&& c.interrupt_data_or == interrupt_data_or
}

/// `c` is an interrupt card with exactly these name, description, event
/// and flag (its effect is stated by the caller).
pub open spec fn interrupt_card_is(
    c: InterruptPlayerCard,
    name: Seq<char>,
    description: Seq<char>,
    interrupt_type_output: GameInterruptType,
    is_i_dont_think_so_card: bool,
) -> bool {
    &&& c.display_name@ == name
    &&& c.display_description@ == description
    &&& c.interrupt_type_output == interrupt_type_output
    &&& c.is_i_dont_think_so_card == is_i_dont_think_so_card
}

/// The interrupt event of a card aimed at another player's fortitude.
pub open spec fn fortitude_action() -> GameInterruptType {
    GameInterruptType::DirectedActionCardPlayed(
        PlayerCardInfo { affects_fortitude: true, is_i_dont_think_so_card: false },
    )
}

/// "Gambling? I'm in!".
pub open spec fn is_gambling_im_in_card(c: RootPlayerCard) -> bool {
    root_card_is(
        c,
        "Gambling? I'm in!"@,
        "Start a Round of Gambling. (Each player, including you, must ante.)\n- OR -\nTake control of a Round of Gambling."@,
        RootPlayerCardType::ActionGambling,
        TargetStyle::AllOtherPlayers,
        RootCardEffect::GamblingImIn,
        Some(
            RootPlayerCardInterruptData {
                interrupt_type_output: GameInterruptType::AboutToAnte,
                post_interrupt_play: PostInterruptPlay::PassIfOwnersGamblingTurn,
            },
        ),
    )
}

/// "I raise!".
pub open spec fn is_i_raise_card(c: RootPlayerCard) -> bool {
    root_card_is(
        c,
        "I raise!"@,
        "Take control of a Round of Gambling.\nEach player (including you) must ante again."@,
        RootPlayerCardType::Gambling,
        TargetStyle::AllGamblingPlayersIncludingSelf,
        RootCardEffect::IRaise,
        Some(
            RootPlayerCardInterruptData {
                interrupt_type_output: GameInterruptType::AboutToAnte,
                post_interrupt_play: PostInterruptPlay::TakeControlOfRound,
            },
        ),
    )
}

/// "Winning Hand!".
pub open spec fn is_winning_hand_card(c: RootPlayerCard) -> bool {
    root_card_is(
        c,
        "Winning Hand!"@,
        "Take control of a Round of Gambling.\nThe next card to take control must be a Cheating Card."@,
        RootPlayerCardType::Cheating,
        TargetStyle::SelfPlayer,
        RootCardEffect::WinningHand,
        None,
    )
}

/// A cheating card with the given name.
pub open spec fn is_gambling_cheat_card(c: RootPlayerCard, name: Seq<char>) -> bool {
    root_card_is(
        c,
        name,
        "Take control of a Round of Gambling."@,
        RootPlayerCardType::Cheating,
        TargetStyle::SelfPlayer,
        RootCardEffect::GamblingCheat,
        None,
    )
}

/// A card with the given name by which another player's fortitude changes
/// by `amount`.
pub open spec fn is_change_other_fortitude_card(c: RootPlayerCard, name: Seq<char>, amount: i32) -> bool {
    root_card_is(
        c,
        name,
        change_other_description(amount as int),
        RootPlayerCardType::Action,
        TargetStyle::SingleOtherPlayer,
        RootCardEffect::ChangeOtherPlayerFortitude(amount),
        Some(
            RootPlayerCardInterruptData {
                interrupt_type_output: fortitude_action(),
                post_interrupt_play: PostInterruptPlay::Nothing,
            },
        ),
    )
}

/// A card with the given name by which every other player's fortitude
/// changes by `amount`.
pub open spec fn is_change_all_other_fortitude_card(
    c: RootPlayerCard,
    name: Seq<char>,
    amount: i32,
) -> bool {
    root_card_is(
        c,
        name,
        change_all_description(amount as int),
        RootPlayerCardType::Action,
        TargetStyle::AllOtherPlayers,
        RootCardEffect::ChangeAllOtherPlayerFortitude(amount),
        Some(
            RootPlayerCardInterruptData {
                interrupt_type_output: fortitude_action(),
                post_interrupt_play: PostInterruptPlay::Nothing,
            },
        ),
    )
}

/// An anytime card with the given name that gains `amount` fortitude.
pub open spec fn is_gain_fortitude_card(c: RootPlayerCard, name: Seq<char>, amount: i32) -> bool {
    root_card_is(
        c,
        name,
        gain_fortitude_description(amount as int),
        RootPlayerCardType::Anytime,
        TargetStyle::SelfPlayer,
        RootCardEffect::GainFortitudeAnytime(amount),
        None,
    )
}

/// "Wench, bring some drinks for my friends!".
pub open spec fn is_wench_card(c: RootPlayerCard) -> bool {
    root_card_is(
        c,
        "Wench, bring some drinks for my friends!"@,
        "You may play this card during the Order a Drink Phase of your turn.\nPay 1 Gold to the Inn. Order 2 additional Drinks. (Drinks you order may be placed on any other players' Drink Me! Piles.)"@,
        RootPlayerCardType::Sometimes,
        TargetStyle::SelfPlayer,
        RootCardEffect::WenchBringSomeDrinks,
        Some(
            RootPlayerCardInterruptData {
                interrupt_type_output: plain_sometimes(),
                post_interrupt_play: PostInterruptPlay::Nothing,
            },
        ),
    )
}

/// "Oh, I guess the Wench thought that was her tip...".
pub open spec fn is_wench_tip_card(c: RootPlayerCard) -> bool {
    root_card_is(
        c,
        "Oh, I guess the Wench thought that was her tip..."@,
        "You may play this card at any time during a Round of Gambling, even if you have left the Round. You may not play this card if the Round has already ended. You may not play it in response to a card that would make players ante or would end the Round when it resolves.\nThe Round of Gambling ends immediately. All anted Gold goes to the Inn."@,
        RootPlayerCardType::Sometimes,
        TargetStyle::SelfPlayer,
        RootCardEffect::OhIGuessTheWenchThoughtThatWasHerTip,
        Some(
            RootPlayerCardInterruptData {
                interrupt_type_output: plain_sometimes(),
                post_interrupt_play: PostInterruptPlay::Nothing,
            },
        ),
    )
}

/// An interrupt card with the given name that ignores an action card
/// affecting the player's fortitude.
pub open spec fn is_ignore_fortitude_card(c: InterruptPlayerCard, name: Seq<char>) -> bool {
    &&& interrupt_card_is(
        c,
        name,
        "Ignore an Action or Sometimes Card that affects your Fortitude."@,
        plain_sometimes(),
        false,
    )
    &&& c.effect is IgnoreRootCardAffectingFortitude
}

/// "I don't think so!".
pub open spec fn is_i_dont_think_so_card(c: InterruptPlayerCard) -> bool {
    &&& interrupt_card_is(
        c,
        "I don't think so!"@,
        "Negate a Sometimes Card.\nThis card can only be affected by another I don't think so !"@,
        GameInterruptType::SometimesCardPlayed(
            PlayerCardInfo { affects_fortitude: false, is_i_dont_think_so_card: true },
        ),
        true,
    )
    &&& c.effect is IDontThinkSo
}

/// An interrupt card with the given name that ignores a drink.
pub open spec fn is_ignore_drink_card(c: InterruptPlayerCard, name: Seq<char>) -> bool {
    &&& interrupt_card_is(
        c,
        name,
        "Ignore a Drink.\n(Reveal the Drink first!)"@,
        plain_sometimes(),
        false,
    )
    &&& c.effect is IgnoreDrink
}

/// An interrupt card with the given name that leaves the round of gambling
/// instead of anteing.
pub open spec fn is_leave_gambling_card(c: InterruptPlayerCard, name: Seq<char>) -> bool {
    &&& interrupt_card_is(
        c,
        name,
        "You may play this card when you must ante. Instead of anteing, you leave the Round of Gambling."@,
        plain_sometimes(),
        false,
    )
    &&& c.effect is LeaveGamblingRoundInsteadOfAnteing
}

/// An interrupt card with the given name that acts as either of two cards,
/// with the first card's interrupt event.
pub open spec fn is_combined_card(
    c: InterruptPlayerCard,
    name: Seq<char>,
    first: InterruptPlayerCard,
    second: InterruptPlayerCard,
) -> bool {
    &&& interrupt_card_is(
        c,
        name,
        first.display_description@ + "\n- OR -\n"@ + second.display_description@,
        first.interrupt_type_output,
        false,
    )
    &&& c.effect == InterruptCardEffect::Combined(Box::new(first), Box::new(second))
}

/// "Gambling? I'm in!": starts a round of gambling, or takes control of one.
pub fn gambling_im_in_card() -> (c: RootPlayerCard)
    ensures
        is_gambling_im_in_card(c),
{
    RootPlayerCard {
        display_name: String::from_str("Gambling? I'm in!"),
        display_description: String::from_str(
            "Start a Round of Gambling. (Each player, including you, must ante.)\n- OR -\nTake control of a Round of Gambling.",
        ),
        card_type: RootPlayerCardType::ActionGambling,
        target_style: TargetStyle::AllOtherPlayers,
        effect: RootCardEffect::GamblingImIn,
        interrupt_data_or: Some(
            RootPlayerCardInterruptData {
                interrupt_type_output: GameInterruptType::AboutToAnte,
                post_interrupt_play: PostInterruptPlay::PassIfOwnersGamblingTurn,
            },
        ),
    }
}

/// "I raise!": takes control of a round of gambling; everyone in it antes
/// again.
pub fn i_raise_card() -> (c: RootPlayerCard)
    ensures
        is_i_raise_card(c),
{
    RootPlayerCard {
        display_name: String::from_str("I raise!"),
        display_description: String::from_str(
            "Take control of a Round of Gambling.\nEach player (including you) must ante again.",
        ),
        card_type: RootPlayerCardType::Gambling,
        target_style: TargetStyle::AllGamblingPlayersIncludingSelf,
        effect: RootCardEffect::IRaise,
        interrupt_data_or: Some(
            RootPlayerCardInterruptData {
                interrupt_type_output: GameInterruptType::AboutToAnte,
                post_interrupt_play: PostInterruptPlay::TakeControlOfRound,
            },
        ),
    }
}

/// "Winning Hand!": takes control of a round of gambling; the next player to
/// take control must use a cheating card.
pub fn winning_hand_card() -> (c: RootPlayerCard)
    ensures
        is_winning_hand_card(c),
{
    RootPlayerCard {
        display_name: String::from_str("Winning Hand!"),
        display_description: String::from_str(
            "Take control of a Round of Gambling.\nThe next card to take control must be a Cheating Card.",
        ),
        card_type: RootPlayerCardType::Cheating,
        target_style: TargetStyle::SelfPlayer,
        effect: RootCardEffect::WinningHand,
        interrupt_data_or: None,
    }
}

/// A cheating card: takes control of a round of gambling.
pub fn gambling_cheat_card(display_name: &str) -> (c: RootPlayerCard)
    ensures
        is_gambling_cheat_card(c, display_name@),
{
    RootPlayerCard {
        display_name: String::from_str(display_name),
        display_description: String::from_str("Take control of a Round of Gambling."),
        card_type: RootPlayerCardType::Cheating,
        target_style: TargetStyle::SelfPlayer,
        effect: RootCardEffect::GamblingCheat,
        interrupt_data_or: None,
    }
}

fn change_amount_text(amount: i32, gain: &str, lose: &str) -> (s: String)
    requires
        amount > i32::MIN,
    ensures
        s@ == (if amount > 0 {
            gain@ + decimal(amount as nat)
        } else {
            lose@ + decimal((-amount) as nat)
        }),
{
    if amount > 0 {
        String::from_str(gain).concat(decimal_string(amount as u32).as_str())
    } else {
        String::from_str(lose).concat(decimal_string((-amount) as u32).as_str())
    }
}

/// The description of a card by which another player's fortitude changes
/// by `amount`.
fn get_change_other_player_fortitude_card_description(amount: i32) -> (s: String)
    requires
        amount > i32::MIN,
    ensures
        s@ == change_other_description(amount as int),
{
    let modifier = change_amount_text(amount, "gain ", "lose ");
    String::from_str("Pick another player. They ").concat(modifier.as_str()).concat(" Fortitude.")
}

/// The description of a card by which every other player's fortitude
/// changes by `amount`.
fn get_change_all_other_player_fortitude_card_description(amount: i32) -> (s: String)
    requires
        amount > i32::MIN,
    ensures
        s@ == change_all_description(amount as int),
{
    let modifier = change_amount_text(amount, "gains ", "loses ");
    String::from_str("Each other player ").concat(modifier.as_str()).concat(" Fortitude.")
}

/// An action card aimed at another player, whose fortitude changes by
/// `amount`.
pub fn change_other_player_fortitude_card(display_name: &str, amount: i32) -> (c: RootPlayerCard)
    requires
        amount > i32::MIN,
    ensures
        is_change_other_fortitude_card(c, display_name@, amount),
{
    let description = get_change_other_player_fortitude_card_description(amount);
    RootPlayerCard {
        display_name: String::from_str(display_name),
        display_description: description,
        card_type: RootPlayerCardType::Action,
        target_style: TargetStyle::SingleOtherPlayer,
        effect: RootCardEffect::ChangeOtherPlayerFortitude(amount),
        interrupt_data_or: Some(
            RootPlayerCardInterruptData {
                interrupt_type_output: GameInterruptType::DirectedActionCardPlayed(
                    PlayerCardInfo { affects_fortitude: true, is_i_dont_think_so_card: false },
                ),
                post_interrupt_play: PostInterruptPlay::Nothing,
            },
        ),
    }
}

/// An action card aimed at every other player, whose fortitude changes by
/// `amount`.
pub fn change_all_other_player_fortitude_card(display_name: &str, amount: i32) -> (c:
    RootPlayerCard)
    requires
        amount > i32::MIN,
    ensures
        is_change_all_other_fortitude_card(c, display_name@, amount),
{
    let description = get_change_all_other_player_fortitude_card_description(amount);
    RootPlayerCard {
        display_name: String::from_str(display_name),
        display_description: description,
        card_type: RootPlayerCardType::Action,
        target_style: TargetStyle::AllOtherPlayers,
        effect: RootCardEffect::ChangeAllOtherPlayerFortitude(amount),
        interrupt_data_or: Some(
            RootPlayerCardInterruptData {
                interrupt_type_output: GameInterruptType::DirectedActionCardPlayed(
                    PlayerCardInfo { affects_fortitude: true, is_i_dont_think_so_card: false },
                ),
                post_interrupt_play: PostInterruptPlay::Nothing,
            },
        ),
    }
}

/// An interrupt card that ignores an action card affecting the player's
/// fortitude.
pub fn ignore_root_card_affecting_fortitude(display_name: &str) -> (c: InterruptPlayerCard)
    ensures
        is_ignore_fortitude_card(c, display_name@),
{
    InterruptPlayerCard {
        display_name: String::from_str(display_name),
        display_description: String::from_str(
            "Ignore an Action or Sometimes Card that affects your Fortitude.",
        ),
        effect: InterruptCardEffect::IgnoreRootCardAffectingFortitude,
        interrupt_type_output: GameInterruptType::SometimesCardPlayed(
            PlayerCardInfo { affects_fortitude: false, is_i_dont_think_so_card: false },
        ),
        is_i_dont_think_so_card: false,
    }
}

/// An anytime card: the player gains `amount` fortitude.
pub fn gain_fortitude_anytime_card(display_name: &str, amount: i32) -> (c: RootPlayerCard)
    ensures
        is_gain_fortitude_card(c, display_name@, amount),
{
    let description = String::from_str("Gain ").concat(signed_decimal_string(amount).as_str()).concat(
        " Fortitude.",
    );
    RootPlayerCard {
        display_name: String::from_str(display_name),
        display_description: description,
        card_type: RootPlayerCardType::Anytime,
        target_style: TargetStyle::SelfPlayer,
        effect: RootCardEffect::GainFortitudeAnytime(amount),
        interrupt_data_or: None,
    }
}

/// "Wench, bring some drinks for my friends!": the player pays 1 gold to
/// the Inn and has two more drinks to order.
pub fn wench_bring_some_drinks_for_my_friends_card() -> (c: RootPlayerCard)
    ensures
        is_wench_card(c),
{
    RootPlayerCard {
        display_name: String::from_str("Wench, bring some drinks for my friends!"),
        display_description: String::from_str(
            "You may play this card during the Order a Drink Phase of your turn.\nPay 1 Gold to the Inn. Order 2 additional Drinks. (Drinks you order may be placed on any other players' Drink Me! Piles.)",
        ),
        card_type: RootPlayerCardType::Sometimes,
        target_style: TargetStyle::SelfPlayer,
        effect: RootCardEffect::WenchBringSomeDrinks,
        interrupt_data_or: Some(
            RootPlayerCardInterruptData {
                interrupt_type_output: GameInterruptType::SometimesCardPlayed(
                    PlayerCardInfo { affects_fortitude: false, is_i_dont_think_so_card: false },
                ),
                post_interrupt_play: PostInterruptPlay::Nothing,
            },
        ),
    }
}

/// "Oh, I guess the Wench thought that was her tip...": ends the round of
/// gambling; the pot goes to the inn.
pub fn oh_i_guess_the_wench_thought_that_was_her_tip_card() -> (c: RootPlayerCard)
    ensures
        is_wench_tip_card(c),
{
    RootPlayerCard {
        display_name: String::from_str("Oh, I guess the Wench thought that was her tip..."),
        display_description: String::from_str(
            "You may play this card at any time during a Round of Gambling, even if you have left the Round. You may not play this card if the Round has already ended. You may not play it in response to a card that would make players ante or would end the Round when it resolves.\nThe Round of Gambling ends immediately. All anted Gold goes to the Inn.",
        ),
        card_type: RootPlayerCardType::Sometimes,
        target_style: TargetStyle::SelfPlayer,
        effect: RootCardEffect::OhIGuessTheWenchThoughtThatWasHerTip,
        interrupt_data_or: Some(
            RootPlayerCardInterruptData {
                interrupt_type_output: GameInterruptType::SometimesCardPlayed(
                    PlayerCardInfo { affects_fortitude: false, is_i_dont_think_so_card: false },
                ),
                post_interrupt_play: PostInterruptPlay::Nothing,
            },
        ),
    }
}

/// "I don't think so!": negates a Sometimes card.
pub fn i_dont_think_so_card() -> (c: InterruptPlayerCard)
    ensures
        is_i_dont_think_so_card(c),
{
    InterruptPlayerCard {
        display_name: String::from_str("I don't think so!"),
        display_description: String::from_str(
            "Negate a Sometimes Card.\nThis card can only be affected by another I don't think so !",
        ),
        effect: InterruptCardEffect::IDontThinkSo,
        interrupt_type_output: GameInterruptType::SometimesCardPlayed(
            PlayerCardInfo { affects_fortitude: false, is_i_dont_think_so_card: true },
        ),
        is_i_dont_think_so_card: true,
    }
}

/// An interrupt card that ignores a drink.
pub fn ignore_drink_card(display_name: &str) -> (c: InterruptPlayerCard)
    ensures
        is_ignore_drink_card(c, display_name@),
{
    InterruptPlayerCard {
        display_name: String::from_str(display_name),
        display_description: String::from_str("Ignore a Drink.\n(Reveal the Drink first!)"),
        effect: InterruptCardEffect::IgnoreDrink,
        interrupt_type_output: GameInterruptType::SometimesCardPlayed(
            PlayerCardInfo { affects_fortitude: false, is_i_dont_think_so_card: false },
        ),
        is_i_dont_think_so_card: false,
    }
}

/// An interrupt card that leaves the round of gambling instead of anteing.
pub fn leave_gambling_round_instead_of_anteing_card(display_name: &str) -> (c:
    InterruptPlayerCard)
    ensures
        is_leave_gambling_card(c, display_name@),
{
    InterruptPlayerCard {
        display_name: String::from_str(display_name),
        display_description: String::from_str(
            "You may play this card when you must ante. Instead of anteing, you leave the Round of Gambling.",
        ),
        effect: InterruptCardEffect::LeaveGamblingRoundInsteadOfAnteing,
        interrupt_type_output: GameInterruptType::SometimesCardPlayed(
            PlayerCardInfo { affects_fortitude: false, is_i_dont_think_so_card: false },
        ),
        is_i_dont_think_so_card: false,
    }
}

/// An interrupt card that acts as either of two interrupt cards. Its
/// interrupt event is the first card's.
pub fn combined_interrupt_player_card(
    display_name: &str,
    first_interrupt_player_card: InterruptPlayerCard,
    second_interrupt_player_card: InterruptPlayerCard,
) -> (c: InterruptPlayerCard)
    ensures
        is_combined_card(c, display_name@, first_interrupt_player_card, second_interrupt_player_card),
{
    let interrupt_type_output = first_interrupt_player_card.interrupt_type_output;
    let description = String::from_str(
        first_interrupt_player_card.display_description.as_str(),
    ).concat("\n- OR -\n").concat(second_interrupt_player_card.display_description.as_str());
    InterruptPlayerCard {
        display_name: String::from_str(display_name),
        display_description: description,
        effect: InterruptCardEffect::Combined(
            Box::new(first_interrupt_player_card),
            Box::new(second_interrupt_player_card),
        ),
        interrupt_type_output,
        is_i_dont_think_so_card: false,
    }
}

impl From<RootPlayerCard> for PlayerCard {
    /// A root card as a player card.
    fn from(card: RootPlayerCard) -> (r: Self) {
        PlayerCard::RootPlayerCard(card)
    }
}

impl vstd::std_specs::convert::FromSpecImpl<RootPlayerCard> for PlayerCard {
    open spec fn obeys_from_spec() -> bool {
        true
    }

    open spec fn from_spec(card: RootPlayerCard) -> Self {
        PlayerCard::RootPlayerCard(card)
    }
}

impl From<InterruptPlayerCard> for PlayerCard {
    /// An interrupt card as a player card.
    fn from(card: InterruptPlayerCard) -> (r: Self) {
        PlayerCard::InterruptPlayerCard(card)
    }
}

impl vstd::std_specs::convert::FromSpecImpl<InterruptPlayerCard> for PlayerCard {
    open spec fn obeys_from_spec() -> bool {
        true
    }

    open spec fn from_spec(card: InterruptPlayerCard) -> Self {
        PlayerCard::InterruptPlayerCard(card)
    }
}

/// A winning hand played in a round puts its player in control, sets the
/// need for a cheating card to take control next, and hands the turn to
/// the next player taking part, who, in a round of two or more distinct
/// players, is another player of the round. Nothing else changes.
pub proof fn law_winning_hand_takes_control(card: RootPlayerCard, u: PlayerUUID, s: Table)
    requires
        card.effect == RootCardEffect::WinningHand,
        s.gambling is Some,
        s.gambling->0.active.contains(u),
        s.gambling->0.active.len() >= 2,
        s.gambling->0.active.no_duplicates(),
    ensures
        ({
            let r = s.gambling->0;
            let next = crate::gambling_manager::next_turn(r.active, u);
            &&& spec_pre_interrupt_play(card, u, s) == (
                ShouldInterrupt::No,
                Table {
                    gambling: Some(
                        crate::gambling_manager::GamblingRoundView {
                            winner: u,
                            need_cheating: true,
                            current: next,
                            ..r
                        },
                    ),
                    ..s
                },
            )
            &&& next != u
            &&& r.active.contains(next)
        }),
{
    let a = s.gambling->0.active;
    crate::gambling_manager::lemma_id_index(a, u);
    let pos = crate::gambling_manager::id_index(a, u);
    if pos < a.len() - 1 {
        assert(a[pos + 1] != a[pos]);
        assert(a.contains(a[pos + 1]));
    } else {
        assert(a[0] != a[pos]);
        assert(a.contains(a[0]));
    }
}

/// A card changing another player's fortitude by `a` changes the target's
/// fortitude by `a`, kept within 0..=20, and leaves every other player and
/// the round as they were.
pub proof fn law_fortitude_card_changes_only_the_target(
    card: RootPlayerCard,
    a: i32,
    t: PlayerUUID,
    players: Seq<(PlayerUUID, PlayerView)>,
    g: Option<GamblingRoundView>,
)
    requires
        card.effect == RootCardEffect::ChangeOtherPlayerFortitude(a),
        seated(players, t),
    ensures
        ({
            let (p2, g2) = spec_interrupt_play(card, t, players, g);
            &&& g2 == g
            &&& p2.len() == players.len()
            &&& seat(p2, t) == crate::player::pv_change_fortitude(seat(players, t), a as int)
            &&& seat(p2, t).fortitude == (if seat(players, t).fortitude + a < 0 {
                0
            } else if seat(players, t).fortitude + a > 20 {
                20
            } else {
                seat(players, t).fortitude + a
            })
            &&& seat(p2, t) == (PlayerView { fortitude: seat(p2, t).fortitude, ..seat(players, t) })
            &&& forall|i: int| 0 <= i < players.len() ==> (#[trigger] p2[i]).0 == players[i].0
            &&& forall|i: int|
                0 <= i < players.len() && players[i].0 != t ==> #[trigger] p2[i] == players[i]
        }),
{
    let p = crate::player::pv_change_fortitude(seat(players, t), a as int);
    crate::player_manager::lemma_uuid_index(players, t);
    crate::player_manager::lemma_seat_set_index(players, t, p);
}

/// A round of gambling that a card's effect ends moves the turn to ordering
/// drinks: whenever the effect before any interrupt takes away a round that
/// was going on, the turn is then in the order-drinks phase, with the same
/// player and drinks to order. The wench's-tip card always ends a round
/// that is going on.
pub proof fn law_card_ending_round_moves_to_ordering_drinks(card: RootPlayerCard, u: PlayerUUID, s: Table)
    ensures
        ({
            let t = spec_pre_interrupt_play(card, u, s).1;
            s.gambling is Some && t.gambling is None ==> t.turn == (TurnInfo {
                turn_phase: crate::game_logic::TurnPhase::OrderDrinks,
                ..s.turn
            })
        }),
        card.effect == RootCardEffect::OhIGuessTheWenchThoughtThatWasHerTip && s.gambling is Some
            ==> spec_pre_interrupt_play(card, u, s).1.gambling is None,
{
}

/// What follows a root card's interrupt, when it ends a round of gambling
/// that was going on, moves the turn to ordering drinks, with the same
/// player and drinks to order.
pub proof fn law_interrupt_ending_round_moves_to_ordering_drinks(
    data: RootPlayerCardInterruptData,
    u: PlayerUUID,
    s: Table,
)
    ensures
        ({
            let t = spec_post_interrupt_play(data, u, s);
            s.gambling is Some && t.gambling is None ==> t.turn == (TurnInfo {
                turn_phase: crate::game_logic::TurnPhase::OrderDrinks,
                ..s.turn
            })
        }),
{
}

} // verus!
