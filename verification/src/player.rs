use crate::deck::AutoShufflingDeck;
use crate::drink::{
    clamp, clamp_i32, discardable_cards, drink_run_len, get_revealed_drink, reveal_result, run_drinks,
    spec_combined_alcohol, spec_combined_fortitude, Drink, DrinkCard, DrinkWithPossibleChasers,
    RevealedDrink,
};
use crate::game::{deck_size, lemma_deck_cards_ok, Character};
use crate::gambling_manager::GamblingManager;
use crate::game_logic::TurnInfo;
use crate::interrupt_manager::InterruptManager;
use crate::player_card::{card_can_play, card_ok, PlayerCard, TargetStyle};
use crate::player_view::{GameViewPlayerCard, GameViewPlayerData};
use crate::uuid::PlayerUUID;
use vstd::multiset::Multiset;
use vstd::prelude::*;

verus! {

broadcast use vstd::seq_lib::group_to_multiset_ensures;

/// The drinks ordered for a player, waiting to be drunk. The last card is
/// the top of the pile.
#[derive(Clone, Debug)]
pub struct DrinkMePile {
    pub drink_cards: Vec<DrinkCard>,
}

/// A player's state in a running game.
#[derive(Clone, Debug)]
pub struct Player {
    pub alcohol_content: i32,
    pub fortitude: i32,
    pub gold: i32,
    pub hand: Vec<PlayerCard>,
    pub deck: AutoShufflingDeck<PlayerCard>,
    pub drink_me_pile: DrinkMePile,
    pub is_orc: bool,
    pub is_troll: bool,
}

/// A player's state as plain values.
pub struct PlayerView {
    pub alcohol_content: int,
    pub fortitude: int,
    pub gold: int,
    pub hand: Seq<PlayerCard>,
    pub draw_pile: Seq<PlayerCard>,
    pub discard_pile: Seq<PlayerCard>,
    pub drink_me_pile: Seq<DrinkCard>,
    pub is_orc: bool,
    pub is_troll: bool,
}

impl View for Player {
    type V = PlayerView;

    open spec fn view(&self) -> PlayerView {
        PlayerView {
            alcohol_content: self.alcohol_content as int,
            fortitude: self.fortitude as int,
            gold: self.gold as int,
            hand: self.hand@,
            draw_pile: self.deck.draw_pile@,
            discard_pile: self.deck.discard_pile@,
            drink_me_pile: self.drink_me_pile.drink_cards@,
            is_orc: self.is_orc,
            is_troll: self.is_troll,
        }
    }
}

impl PlayerView {
    /// Alcohol content and fortitude are within 0..=20.
    pub open spec fn wf(&self) -> bool {
        &&& 0 <= self.alcohol_content <= 20
        &&& 0 <= self.fortitude <= 20
    }

    /// The player is out of the game: broke or passed out.
    pub open spec fn is_out(&self) -> bool {
        self.gold <= 0 || self.alcohol_content >= self.fortitude
    }

    /// All cards the player holds.
    pub open spec fn cards(&self) -> Multiset<PlayerCard> {
        self.hand.to_multiset().add(self.draw_pile.to_multiset()).add(
            self.discard_pile.to_multiset(),
        )
    }

    /// The number of cards the player holds.
    pub open spec fn card_count(&self) -> nat {
        self.hand.len() + self.draw_pile.len() + self.discard_pile.len()
    }
}

/// The player after a change of gold (never below 0).
pub open spec fn pv_change_gold(p: PlayerView, amount: int) -> PlayerView {
    PlayerView { gold: clamp(p.gold + amount, 0, i32::MAX as int), ..p }
}

/// The player after a change of fortitude (kept within 0..=20).
pub open spec fn pv_change_fortitude(p: PlayerView, amount: int) -> PlayerView {
    PlayerView { fortitude: clamp(p.fortitude + amount, 0, 20), ..p }
}

/// The player after a change of alcohol content (kept within 0..=20).
pub open spec fn pv_change_alcohol(p: PlayerView, amount: int) -> PlayerView {
    PlayerView { alcohol_content: clamp(p.alcohol_content + amount, 0, 20), ..p }
}

/// The player after putting a card on the discard pile.
pub open spec fn pv_discard(p: PlayerView, card: PlayerCard) -> PlayerView {
    PlayerView { discard_pile: p.discard_pile.push(card), ..p }
}

/// What drinking from the top of a drink pile takes: the drinks drunk
/// (none for an event), the card set aside (an event, or the event that
/// stopped a chain of chasers), and the pile left.
pub open spec fn drink_outcome(pile: Seq<DrinkCard>) -> (Seq<Drink>, Option<DrinkCard>, Seq<DrinkCard>) {
    if pile.len() == 0 {
        (Seq::empty(), None, pile)
    } else {
        match pile.last() {
            DrinkCard::DrinkEvent(_) => (Seq::empty(), Some(pile.last()), pile.drop_last()),
            DrinkCard::Drink(d) => if !d.has_chaser {
                (seq![d], None, pile.drop_last())
            } else {
                let rest = pile.drop_last();
                let k = drink_run_len(rest);
                let drinks = seq![d] + run_drinks(rest, k);
                if k == rest.len() {
                    (drinks, None, Seq::empty())
                } else {
                    (drinks, Some(rest[rest.len() - 1 - k]), rest.take(rest.len() - 1 - k))
                }
            },
        }
    }
}

/// The player after drinking from the top of their drink pile: alcohol
/// content and fortitude change by the summed modifiers of the drinks
/// drunk, each kept within 0..=20. Nothing changes with an empty pile.
pub open spec fn pv_drink(p: PlayerView) -> PlayerView {
    let (drinks, _, rest) = drink_outcome(p.drink_me_pile);
    if p.drink_me_pile.len() == 0 {
        p
    } else {
        pv_change_fortitude(
        pv_change_alcohol(
            PlayerView { drink_me_pile: rest, ..p },
            clamp_i32(spec_combined_alcohol(drinks, p.is_orc, p.is_troll)),
        ),
        clamp_i32(spec_combined_fortitude(drinks, p.is_orc, p.is_troll)),
        )
    }
}

/// `after` is `before` having drawn until the hand holds 7 cards: the hand
/// keeps its cards and grows to 7 (or stays as it was if larger), the player
/// holds the same cards as before, nothing else changes, and if the draw
/// pile had enough cards they came from its top, in order.
pub open spec fn drew_to_full(before: PlayerView, after: PlayerView) -> bool {
    &&& after.hand.len() == if before.hand.len() >= full_hand() {
        before.hand.len()
    } else {
        full_hand()
    }
    &&& after.hand.subrange(0, before.hand.len() as int) == before.hand
    &&& after.cards() == before.cards()
    &&& after.alcohol_content == before.alcohol_content
    &&& after.fortitude == before.fortitude
    &&& after.gold == before.gold
    &&& after.drink_me_pile == before.drink_me_pile
    &&& after.is_orc == before.is_orc
    &&& after.is_troll == before.is_troll
    &&& before.draw_pile.len() + before.hand.len() >= full_hand() ==> {
        &&& after.discard_pile == before.discard_pile
        &&& after.hand == before.hand + before.draw_pile.subrange(
            after.draw_pile.len() as int,
            before.draw_pile.len() as int,
        ).reverse()
    }
}

/// A player's public state as shown to everyone.
pub open spec fn player_data_view(u: PlayerUUID, p: PlayerView) -> GameViewPlayerData {
    GameViewPlayerData {
        player_uuid: u,
        draw_pile_size: p.draw_pile.len() as usize,
        discard_pile_size: p.discard_pile.len() as usize,
        drink_me_pile_size: p.drink_me_pile.len() as usize,
        alcohol_content: p.alcohol_content as i32,
        fortitude: p.fortitude as i32,
        gold: p.gold as i32,
        is_dead: p.is_out(),
    }
}

/// The name of a card.
pub open spec fn card_name(c: PlayerCard) -> Seq<char> {
    match c {
        PlayerCard::RootPlayerCard(r) => r.display_name@,
        PlayerCard::InterruptPlayerCard(i) => i.display_name@,
    }
}

/// The card is aimed at a single other player.
pub open spec fn card_is_directed(c: PlayerCard) -> bool {
    c matches PlayerCard::RootPlayerCard(r) && r.target_style == TargetStyle::SingleOtherPlayer
}

/// The number of cards a full hand holds.
pub open spec fn full_hand() -> nat {
    7
}

impl Player {
    /// Alcohol content and fortitude stay within 0..=20.
    pub open spec fn wf(&self) -> bool {
        &&& 0 <= self.alcohol_content <= 20
        &&& 0 <= self.fortitude <= 20
    }

    /// All cards the player holds: hand, draw pile and discard pile.
    pub open spec fn cards(&self) -> Multiset<PlayerCard> {
        self.hand@.to_multiset().add(self.deck.draw_pile@.to_multiset()).add(
            self.deck.discard_pile@.to_multiset(),
        )
    }

    /// The number of cards the player holds.
    pub open spec fn card_count(&self) -> nat {
        self.hand@.len() + self.deck.total()
    }

    /// `self` equals `other` in everything but the three statistics.
    pub open spec fn same_except_stats(&self, other: Player) -> bool {
        &&& self.hand@ == other.hand@
        &&& self.deck.draw_pile@ == other.deck.draw_pile@
        &&& self.deck.discard_pile@ == other.deck.discard_pile@
        &&& self.drink_me_pile.drink_cards@ == other.drink_me_pile.drink_cards@
        &&& self.is_orc == other.is_orc
        &&& self.is_troll == other.is_troll
    }

    /// `self` equals `other` in everything but its cards (hand and deck).
    pub open spec fn same_except_cards(&self, other: Player) -> bool {
        &&& self.alcohol_content == other.alcohol_content
        &&& self.fortitude == other.fortitude
        &&& self.gold == other.gold
        &&& self.drink_me_pile.drink_cards@ == other.drink_me_pile.drink_cards@
        &&& self.is_orc == other.is_orc
        &&& self.is_troll == other.is_troll
    }

    /// The player is broke.
    pub open spec fn spec_is_broke(&self) -> bool {
        self.gold <= 0
    }

    /// The player has passed out.
    pub open spec fn spec_is_passed_out(&self) -> bool {
        self.alcohol_content >= self.fortitude
    }

    /// The player is out of the game: broke or passed out.
    pub open spec fn spec_is_out_of_game(&self) -> bool {
        self.spec_is_broke() || self.spec_is_passed_out()
    }

    /// A player with no alcohol, 20 fortitude, the given gold, the given
    /// deck shuffled, and a full hand drawn from it.
    pub fn new(gold: i32, deck: Vec<PlayerCard>, is_orc: bool, is_troll: bool) -> (p: Self)
        requires
            deck@.len() >= full_hand(),
        ensures
            p.wf(),
            p.alcohol_content == 0,
            p.fortitude == 20,
            p.gold == gold,
            p.is_orc == is_orc,
            p.is_troll == is_troll,
            p.hand@.len() == full_hand(),
            p.cards() == deck@.to_multiset(),
            p.deck.discard_pile@ == Seq::<PlayerCard>::empty(),
            p.drink_me_pile.drink_cards@ == Seq::<DrinkCard>::empty(),
            p.card_count() == deck@.len(),
    {
        let mut player = Player {
            alcohol_content: 0,
            fortitude: 20,
            gold,
            hand: Vec::new(),
            deck: AutoShufflingDeck::new(deck),
            drink_me_pile: DrinkMePile { drink_cards: Vec::new() },
            is_orc,
            is_troll,
        };
        player.draw_to_full();
        proof {
            assert(player.cards() =~= deck@.to_multiset());
        }
        player
    }

    /// A player for the given character: a fresh player with that
    /// character's deck and the given gold.
    pub fn create_from_character(character: Character, gold: i32) -> (p: Self)
        ensures
            p.is_fresh(character, gold),
            forall|c: PlayerCard| #[trigger] p@.cards().count(c) > 0 ==> card_ok(c),
    {
        let deck = character.create_deck();
        proof {
            assert(deck_size(character) >= full_hand());
        }
        let p = Self::new(gold, deck, character.is_orc(), character.is_troll());
        proof {
            assert(p@.cards() =~= p.cards());
            assert forall|c: PlayerCard| #[trigger] p@.cards().count(c) > 0 implies card_ok(c) by {
                assert(deck@.contains(c));
                let i = choose|i: int| 0 <= i < deck@.len() && deck@[i] == c;
                lemma_deck_cards_ok(character, i, c);
            }
        }
        p
    }

    /// `self` is a player who just joined a game as `character` with `gold`.
    pub open spec fn is_fresh(&self, character: Character, gold: i32) -> bool {
        &&& self.wf()
        &&& self.alcohol_content == 0
        &&& self.fortitude == 20
        &&& self.gold == gold
        &&& !self.is_orc
        &&& !self.is_troll
        &&& self.hand@.len() == full_hand()
        &&& self.card_count() == deck_size(character)
        &&& self.deck.discard_pile@ == Seq::<PlayerCard>::empty()
        &&& self.drink_me_pile.drink_cards@ == Seq::<DrinkCard>::empty()
    }

    /// Draws cards until the hand holds 7.
    pub fn draw_to_full(&mut self)
        requires
            old(self).card_count() >= full_hand(),
        ensures
            final(self).hand@.len() == if old(self).hand@.len() >= full_hand() {
                old(self).hand@.len()
            } else {
                full_hand()
            },
            final(self).hand@.subrange(0, old(self).hand@.len() as int) == old(self).hand@,
            final(self).cards() == old(self).cards(),
            final(self).card_count() == old(self).card_count(),
            final(self).same_except_cards(*old(self)),
            drew_to_full(old(self)@, final(self)@),
            old(self).deck.draw_pile@.len() + old(self).hand@.len() >= full_hand() ==> {
                &&& final(self).deck.discard_pile@ == old(self).deck.discard_pile@
                &&& final(self).hand@ == old(self).hand@ + old(self).deck.draw_pile@.subrange(
                    final(self).deck.draw_pile@.len() as int,
                    old(self).deck.draw_pile@.len() as int,
                ).reverse()
            },
    {
        let ghost before = *self;
        let ghost old_hand = self.hand@;
        let ghost old_draw = self.deck.draw_pile@;
        let ghost old_discard = self.deck.discard_pile@;
        let ghost enough = old_draw.len() + old_hand.len() >= full_hand();
        while self.hand.len() < 7
            invariant
                self.hand@.len() <= (if old_hand.len() >= full_hand() {
                    old_hand.len()
                } else {
                    full_hand()
                }),
                self.hand@.len() >= old_hand.len(),
                self.hand@.subrange(0, old_hand.len() as int) == old_hand,
                self.cards() == old(self).cards(),
                self.card_count() == old(self).card_count(),
                self.card_count() >= full_hand(),
                self.same_except_cards(*old(self)),
                enough == (old_draw.len() + old_hand.len() >= full_hand()),
                enough ==> {
                    &&& self.deck.discard_pile@ == old_discard
                    &&& self.deck.draw_pile@.len() == old_draw.len() - (self.hand@.len()
                        - old_hand.len())
                    &&& self.deck.draw_pile@ == old_draw.subrange(
                        0,
                        self.deck.draw_pile@.len() as int,
                    )
                    &&& self.hand@ == old_hand + old_draw.subrange(
                        self.deck.draw_pile@.len() as int,
                        old_draw.len() as int,
                    ).reverse()
                },
            decreases full_hand() - self.hand@.len(),
        {
            let ghost before = *self;
            let card = self.deck.draw_card();
            proof {
                let d = before.deck.draw_pile@;
                let dis = before.deck.discard_pile@;
                if d.len() > 0 {
                    assert(d == d.drop_last().push(d.last()));
                    assert(d.to_multiset() == d.drop_last().to_multiset().insert(d.last()));
                } else {
                    assert(dis.len() > 0);
                }
            }
            match card {
                Some(c) => {
                    let ghost h = self.hand@;
                    self.hand.push(c);
                    proof {
                        assert(self.hand@.subrange(0, old_hand.len() as int) =~= old_hand) by {
                            assert(self.hand@ == h.push(c));
                            assert(h.subrange(0, old_hand.len() as int) == old_hand);
                        }
                        assert(self.cards() =~= before.cards());
                        if enough {
                            let n = self.deck.draw_pile@.len();
                            let n0 = before.deck.draw_pile@.len();
                            assert(n0 == n + 1);
                            assert(old_draw.subrange(n as int, old_draw.len() as int).reverse()
                                =~= old_draw.subrange(n0 as int, old_draw.len() as int).reverse().push(
                                c,
                            ));
                            assert(self.deck.draw_pile@ =~= old_draw.subrange(0, n as int));
                            assert(self.hand@ =~= old_hand + old_draw.subrange(
                                n as int,
                                old_draw.len() as int,
                            ).reverse());
                        }
                    }
                },
                None => {
                    proof {
                        assert(false);
                    }
                },
            }
        }
        proof {
            assert(self@.cards() =~= self.cards());
            assert(before@.cards() =~= before.cards());
            assert(self@.hand.subrange(0, before@.hand.len() as int) == before@.hand);
        }
    }

    /// Takes the card at `card_index` out of the hand, if there is one.
    pub fn pop_card_from_hand(&mut self, card_index: usize) -> (card: Option<PlayerCard>)
        ensures
            card_index < old(self).hand@.len() ==> {
                &&& card == Some(old(self).hand@[card_index as int])
                &&& final(self).hand@ == old(self).hand@.remove(card_index as int)
            },
            card_index >= old(self).hand@.len() ==> card is None && final(self).hand@ == old(
                self,
            ).hand@,
            final(self).same_except_cards(*old(self)),
            final(self).deck.draw_pile@ == old(self).deck.draw_pile@,
            final(self).deck.discard_pile@ == old(self).deck.discard_pile@,
    {
        if card_index >= self.hand.len() {
            None
        } else {
            Some(self.hand.remove(card_index))
        }
    }

    /// Puts a card back in the hand at `card_index`, or at the end if the
    /// hand is shorter.
    pub fn return_card_to_hand(&mut self, card: PlayerCard, card_index: usize)
        ensures
            final(self).hand@ == old(self).hand@.insert(
                if card_index > old(self).hand@.len() {
                    old(self).hand@.len() as int
                } else {
                    card_index as int
                },
                card,
            ),
            final(self).same_except_cards(*old(self)),
            final(self).deck.draw_pile@ == old(self).deck.draw_pile@,
            final(self).deck.discard_pile@ == old(self).deck.discard_pile@,
    {
        let mut idx = card_index;
        if idx > self.hand.len() {
            idx = self.hand.len();
        }
        self.hand.insert(idx, card);
    }

    /// Puts a card on the discard pile of the player's deck.
    pub fn discard_card(&mut self, card: PlayerCard)
        ensures
            final(self).hand@ == old(self).hand@,
            final(self).deck.draw_pile@ == old(self).deck.draw_pile@,
            final(self).deck.discard_pile@ == old(self).deck.discard_pile@.push(card),
            final(self).same_except_cards(*old(self)),
            final(self).cards() == old(self).cards().insert(card),
            final(self)@ == pv_discard(old(self)@, card),
    {
        self.deck.discard_card(card);
        proof {
            assert(self.cards() =~= old(self).cards().insert(card));
        }
    }

    /// Whether the player is an orc.
    pub fn is_orc(&self) -> (b: bool)
        ensures
            b == self.is_orc,
    {
        self.is_orc
    }

    /// Whether the player is a troll.
    pub fn is_troll(&self) -> (b: bool)
        ensures
            b == self.is_troll,
    {
        self.is_troll
    }

    /// Puts a drink on top of the player's drink pile.
    pub fn add_drink_to_drink_pile(&mut self, drink: DrinkCard)
        ensures
            final(self).drink_me_pile.drink_cards@ == old(
                self,
            ).drink_me_pile.drink_cards@.push(drink),
            final(self).hand@ == old(self).hand@,
            final(self).deck.draw_pile@ == old(self).deck.draw_pile@,
            final(self).deck.discard_pile@ == old(self).deck.discard_pile@,
            final(self).alcohol_content == old(self).alcohol_content,
            final(self).fortitude == old(self).fortitude,
            final(self).gold == old(self).gold,
            final(self).is_orc == old(self).is_orc,
            final(self).is_troll == old(self).is_troll,
    {
        self.drink_me_pile.drink_cards.push(drink);
    }

    /// Changes the alcohol content by `amount`, kept within 0..=20.
    pub fn change_alcohol_content(&mut self, amount: i32)
        ensures
            0 <= final(self).alcohol_content <= 20,
            final(self).alcohol_content == clamp(old(self).alcohol_content + amount, 0, 20),
            final(self)@ == pv_change_alcohol(old(self)@, amount as int),
            final(self).fortitude == old(self).fortitude,
            final(self).gold == old(self).gold,
            final(self).same_except_stats(*old(self)),
    {
        let v: i64 = self.alcohol_content as i64 + amount as i64;
        if v > 20 {
            self.alcohol_content = 20;
        } else if v < 0 {
            self.alcohol_content = 0;
        } else {
            self.alcohol_content = v as i32;
        }
    }

    /// The player's fortitude.
    pub fn get_fortitude(&self) -> (f: i32)
        ensures
            f == self.fortitude,
    {
        self.fortitude
    }

    /// Changes the fortitude by `amount`, kept within 0..=20.
    pub fn change_fortitude(&mut self, amount: i32)
        ensures
            0 <= final(self).fortitude <= 20,
            final(self).fortitude == clamp(old(self).fortitude + amount, 0, 20),
            final(self)@ == pv_change_fortitude(old(self)@, amount as int),
            final(self).alcohol_content == old(self).alcohol_content,
            final(self).gold == old(self).gold,
            final(self).same_except_stats(*old(self)),
    {
        let v: i64 = self.fortitude as i64 + amount as i64;
        if v > 20 {
            self.fortitude = 20;
        } else if v < 0 {
            self.fortitude = 0;
        } else {
            self.fortitude = v as i32;
        }
    }

    /// The player's gold.
    pub fn get_gold(&self) -> (g: i32)
        ensures
            g == self.gold,
    {
        self.gold
    }

    /// Changes the gold by `amount`; gold never drops below 0 (nor rises
    /// above `i32::MAX`).
    pub fn change_gold(&mut self, amount: i32)
        ensures
            final(self).gold == clamp(old(self).gold + amount, 0, i32::MAX as int),
            final(self)@ == pv_change_gold(old(self)@, amount as int),
            final(self).alcohol_content == old(self).alcohol_content,
            final(self).fortitude == old(self).fortitude,
            final(self).same_except_stats(*old(self)),
    {
        let v: i64 = self.gold as i64 + amount as i64;
        if v < 0 {
            self.gold = 0;
        } else if v > i32::MAX as i64 {
            self.gold = i32::MAX;
        } else {
            self.gold = v as i32;
        }
    }

    /// Whether the player is out of the game: broke or passed out.
    pub fn is_out_of_game(&self) -> (b: bool)
        ensures
            b == self.spec_is_out_of_game(),
    {
        self.is_broke() || self.is_passed_out()
    }

    /// Whether the player has no gold left.
    pub fn is_broke(&self) -> (b: bool)
        ensures
            b == self.spec_is_broke(),
    {
        self.gold <= 0
    }

    /// Whether the player's alcohol content has reached their fortitude.
    pub fn is_passed_out(&self) -> (b: bool)
        ensures
            b == self.spec_is_passed_out(),
    {
        self.alcohol_content >= self.fortitude
    }

    /// Reveals the top of the player's drink pile (see `get_revealed_drink`).
    pub fn reveal_drink_from_drink_pile(&mut self) -> (r: Option<RevealedDrink>)
        ensures
            crate::drink::reveal_result(
                old(self).drink_me_pile.drink_cards@,
                r,
                final(self).drink_me_pile.drink_cards@,
            ),
            final(self).same_except_pile(*old(self)),
    {
        get_revealed_drink(&mut self.drink_me_pile)
    }

    /// Drinks from the top of the drink pile (an event counts as an empty
    /// drink) and hands back the drink cards to discard: the drinks drunk,
    /// then the card set aside, if any.
    pub fn drink_from_drink_pile(&mut self) -> (cards: Vec<DrinkCard>)
        ensures
            final(self)@ == pv_drink(old(self)@),
            cards@ == discardable_cards(
                drink_outcome(old(self)@.drink_me_pile).0,
                drink_outcome(old(self)@.drink_me_pile).1,
            ),
    {
        let ghost before = self@;
        match self.reveal_drink_from_drink_pile() {
            Some(revealed) => {
                let ghost rv = revealed;
                let drink =
                    DrinkWithPossibleChasers::from_revealed_drink_treating_drink_event_as_empty_drink(
                    revealed,
                );
                proof {
                    let (drinks, ignored, rest) = drink_outcome(before.drink_me_pile);
                    match rv {
                        RevealedDrink::DrinkWithPossibleChasers(x) => {
                            let pile = before.drink_me_pile;
                            if pile.last()->Drink_0.has_chaser {
                                assert(x.drinks@ =~= drinks);
                            }
                        },
                        RevealedDrink::DrinkEvent(e) => {},
                    }
                    assert(drink.drinks@ == drinks);
                    assert(drink.ignored_card_or == ignored);
                    assert(self@ == PlayerView { drink_me_pile: rest, ..before });
                }
                drink.process(self);
                drink.take_all_discardable_drink_cards()
            },
            None => {
                proof {
                    assert(spec_combined_alcohol(Seq::<Drink>::empty(), before.is_orc, before.is_troll) == 0);
                    assert(spec_combined_fortitude(Seq::<Drink>::empty(), before.is_orc, before.is_troll) == 0);
                    assert(discardable_cards(Seq::<Drink>::empty(), None) =~= Seq::<DrinkCard>::empty());
                    assert(self@ == before);
                }
                Vec::new()
            },
        }
    }

    /// The player's public state as shown to everyone.
    pub fn to_game_view_player_data(&self, player_uuid: PlayerUUID) -> (d: GameViewPlayerData)
        ensures
            d == player_data_view(player_uuid, self@),
    {
        GameViewPlayerData {
            player_uuid,
            draw_pile_size: self.deck.draw_pile_size(),
            discard_pile_size: self.deck.discard_pile_size(),
            drink_me_pile_size: self.drink_me_pile.drink_cards.len(),
            alcohol_content: self.alcohol_content,
            fortitude: self.fortitude,
            gold: self.gold,
            is_dead: self.is_out_of_game(),
        }
    }

    /// The player's hand as shown to them: each card's name and
    /// description, whether they may play it now, and whether it is aimed at
    /// a single other player.
    pub fn get_game_view_hand(
        &self,
        player_uuid: &PlayerUUID,
        gambling_manager: &GamblingManager,
        interrupt_manager: &InterruptManager,
        turn_info: &TurnInfo,
    ) -> (v: Vec<GameViewPlayerCard>)
        ensures
            v@.len() == self.hand@.len(),
            forall|i: int|
                0 <= i < v@.len() ==> {
                    &&& (#[trigger] v@[i]).card_name@ == card_name(self.hand@[i])
                    &&& v@[i].is_playable == card_can_play(
                        self.hand@[i],
                        *player_uuid,
                        gambling_manager@,
                        interrupt_manager@,
                        *turn_info,
                    )
                    &&& v@[i].is_directed == card_is_directed(self.hand@[i])
                },
    {
        let mut v: Vec<GameViewPlayerCard> = Vec::new();
        let mut i: usize = 0;
        while i < self.hand.len()
            invariant
                i <= self.hand@.len(),
                v@.len() == i,
                forall|k: int|
                    0 <= k < i ==> {
                        &&& (#[trigger] v@[k]).card_name@ == card_name(self.hand@[k])
                        &&& v@[k].is_playable == card_can_play(
                            self.hand@[k],
                            *player_uuid,
                            gambling_manager@,
                            interrupt_manager@,
                            *turn_info,
                        )
                        &&& v@[k].is_directed == card_is_directed(self.hand@[k])
                    },
            decreases self.hand@.len() - i,
        {
            let card = &self.hand[i];
            let is_directed = match card {
                PlayerCard::RootPlayerCard(root_player_card) => root_player_card.get_target_style()
                    == TargetStyle::SingleOtherPlayer,
                PlayerCard::InterruptPlayerCard(_) => false,
            };
            v.push(
                GameViewPlayerCard {
                    card_name: String::from_str(card.get_display_name()),
                    is_playable: card.can_play(
                        player_uuid,
                        gambling_manager,
                        interrupt_manager,
                        turn_info,
                    ),
                    is_directed,
                },
            );
            i = i + 1;
        }
        v
    }

    /// `self` equals `other` in everything but the drink pile.
    pub open spec fn same_except_pile(&self, other: Player) -> bool {
        &&& self.alcohol_content == other.alcohol_content
        &&& self.fortitude == other.fortitude
        &&& self.gold == other.gold
        &&& self.hand@ == other.hand@
        &&& self.deck.draw_pile@ == other.deck.draw_pile@
        &&& self.deck.discard_pile@ == other.deck.discard_pile@
        &&& self.is_orc == other.is_orc
        &&& self.is_troll == other.is_troll
    }
}

} // verus!
