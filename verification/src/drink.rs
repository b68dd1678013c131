use crate::player::{pv_change_alcohol, pv_change_fortitude, DrinkMePile, Player};
use crate::deck::{drew_card, AutoShufflingDeck};
use vstd::prelude::*;

verus! {

/// How a drink changes the drinker's alcohol content and fortitude.
#[derive(Clone, Copy, PartialEq, Eq, Structural, Debug)]
pub enum DrinkKind {
    /// Fixed changes, whoever drinks it.
    Simple { alcohol_content_mod: i32, fortitude_mod: i32 },
    /// Orcs gain 2 alcohol content; everyone else loses 2 fortitude.
    OrcishRotgut,
    /// Trolls gain 2 alcohol content; everyone else gains 1 alcohol
    /// content and loses 1 fortitude.
    TrollSwill,
}

/// A drink card: a named drink, possibly with a chaser.
#[derive(Clone, Debug)]
pub struct Drink {
    pub display_name: String,
    pub kind: DrinkKind,
    pub has_chaser: bool,
}

/// An event revealed from a drink pile in place of a drink.
#[derive(Clone, Copy, PartialEq, Eq, Structural, Debug)]
pub enum DrinkEvent {
    DrinkingContest,
    RoundOnTheHouse,
}

/// A card of the drink deck.
#[derive(Clone, Debug)]
pub enum DrinkCard {
    Drink(Drink),
    DrinkEvent(DrinkEvent),
}

/// What is revealed from the top of a drink pile.
#[derive(Clone, Debug)]
pub enum RevealedDrink {
    DrinkWithPossibleChasers(DrinkWithPossibleChasers),
    DrinkEvent(DrinkEvent),
}

/// A drink together with the chasers that followed it, and the card that
/// stopped the chain of chasers, if any.
#[derive(Clone, Debug)]
pub struct DrinkWithPossibleChasers {
    pub drinks: Vec<Drink>,
    pub ignored_card_or: Option<DrinkCard>,
}

/// The alcohol content change of a drink for a drinker who is (or is not)
/// an orc or a troll.
pub open spec fn spec_alcohol_modifier(kind: DrinkKind, is_orc: bool, is_troll: bool) -> int {
    match kind {
        DrinkKind::Simple { alcohol_content_mod, .. } => alcohol_content_mod as int,
        DrinkKind::OrcishRotgut => if is_orc { 2 } else { 0 },
        DrinkKind::TrollSwill => if is_troll { 2 } else { 1 },
    }
}

/// The fortitude change of a drink for a drinker who is (or is not) an orc
/// or a troll.
pub open spec fn spec_fortitude_modifier(kind: DrinkKind, is_orc: bool, is_troll: bool) -> int {
    match kind {
        DrinkKind::Simple { fortitude_mod, .. } => fortitude_mod as int,
        DrinkKind::OrcishRotgut => if is_orc { 0 } else { -2 },
        DrinkKind::TrollSwill => if is_troll { 0 } else { -1 },
    }
}

/// The summed alcohol content change of a sequence of drinks.
pub open spec fn spec_combined_alcohol(drinks: Seq<Drink>, is_orc: bool, is_troll: bool) -> int
    decreases drinks.len(),
{
    if drinks.len() == 0 {
        0
    } else {
        spec_combined_alcohol(drinks.drop_last(), is_orc, is_troll) + spec_alcohol_modifier(
            drinks.last().kind,
            is_orc,
            is_troll,
        )
    }
}

/// The summed fortitude change of a sequence of drinks.
pub open spec fn spec_combined_fortitude(drinks: Seq<Drink>, is_orc: bool, is_troll: bool) -> int
    decreases drinks.len(),
{
    if drinks.len() == 0 {
        0
    } else {
        spec_combined_fortitude(drinks.drop_last(), is_orc, is_troll) + spec_fortitude_modifier(
            drinks.last().kind,
            is_orc,
            is_troll,
        )
    }
}

/// `v` limited to the range of `i32`.
pub open spec fn clamp_i32(v: int) -> int {
    if v > i32::MAX {
        i32::MAX as int
    } else if v < i32::MIN {
        i32::MIN as int
    } else {
        v
    }
}

/// `v` limited to the range `lo..=hi`.
pub open spec fn clamp(v: int, lo: int, hi: int) -> int {
    if v > hi {
        hi
    } else if v < lo {
        lo
    } else {
        v
    }
}

impl Drink {
    /// The name of the drink.
    pub fn get_display_name(&self) -> (s: &str)
        ensures
            s@ == self.display_name@,
    {
        self.display_name.as_str()
    }

    /// Whether the drink has a chaser (the next drink is drunk with it).
    pub fn has_chaser(&self) -> (b: bool)
        ensures
            b == self.has_chaser,
    {
        self.has_chaser
    }

    /// The alcohol content change of this drink for the given player.
    pub fn get_alcohol_content_modifier(&self, player: &Player) -> (m: i32)
        ensures
            m == spec_alcohol_modifier(self.kind, player.is_orc, player.is_troll),
    {
        match self.kind {
            DrinkKind::Simple { alcohol_content_mod, .. } => alcohol_content_mod,
            DrinkKind::OrcishRotgut => if player.is_orc() { 2 } else { 0 },
            DrinkKind::TrollSwill => if player.is_troll() { 2 } else { 1 },
        }
    }

    /// The fortitude change of this drink for the given player.
    pub fn get_fortitude_modifier(&self, player: &Player) -> (m: i32)
        ensures
            m == spec_fortitude_modifier(self.kind, player.is_orc, player.is_troll),
    {
        match self.kind {
            DrinkKind::Simple { fortitude_mod, .. } => fortitude_mod,
            DrinkKind::OrcishRotgut => if player.is_orc() { 0 } else { -2 },
            DrinkKind::TrollSwill => if player.is_troll() { 0 } else { -1 },
        }
    }

    /// Drinks this drink alone: the player's alcohol content and fortitude
    /// change by the drink's modifiers, each kept within 0..=20.
    pub fn process(&self, player: &mut Player)
        ensures
            final(player)@ == pv_change_fortitude(
                pv_change_alcohol(
                    old(player)@,
                    spec_alcohol_modifier(self.kind, old(player).is_orc, old(player).is_troll),
                ),
                spec_fortitude_modifier(self.kind, old(player).is_orc, old(player).is_troll),
            ),
    {
        let alcohol = self.get_alcohol_content_modifier(player);
        let fortitude = self.get_fortitude_modifier(player);
        player.change_alcohol_content(alcohol);
        player.change_fortitude(fortitude);
    }
}

/// A drink with fixed changes to alcohol content and fortitude.
pub fn simple_drink(
    display_name: &str,
    alcohol_content_mod: i32,
    fortitude_mod: i32,
    has_chaser: bool,
) -> (d: Drink)
    ensures
        d.display_name@ == display_name@,
        d.kind == (DrinkKind::Simple { alcohol_content_mod, fortitude_mod }),
        d.has_chaser == has_chaser,
{
    Drink {
        display_name: String::from_str(display_name),
        kind: DrinkKind::Simple { alcohol_content_mod, fortitude_mod },
        has_chaser,
    }
}

/// "Orcish Rotgut": orcs gain 2 alcohol content, others lose 2 fortitude.
pub fn orcish_rotgut() -> (d: Drink)
    ensures
        d.display_name@ == "Orcish Rotgut"@,
        d.kind == DrinkKind::OrcishRotgut,
        !d.has_chaser,
{
    Drink {
        display_name: String::from_str("Orcish Rotgut"),
        kind: DrinkKind::OrcishRotgut,
        has_chaser: false,
    }
}

/// "Troll Swill": trolls gain 2 alcohol content, others gain 1 alcohol
/// content and lose 1 fortitude.
pub fn troll_swill() -> (d: Drink)
    ensures
        d.display_name@ == "Troll Swill"@,
        d.kind == DrinkKind::TrollSwill,
        !d.has_chaser,
{
    Drink {
        display_name: String::from_str("Troll Swill"),
        kind: DrinkKind::TrollSwill,
        has_chaser: false,
    }
}

/// A plain ale used by tests: one alcohol content, no fortitude change.
pub fn create_simple_ale_test_drink(has_chaser: bool) -> (d: Drink)
    ensures
        d.display_name@ == "Test Ale"@,
        d.kind == (DrinkKind::Simple { alcohol_content_mod: 1, fortitude_mod: 0 }),
        d.has_chaser == has_chaser,
{
    simple_drink("Test Ale", 1, 0, has_chaser)
}


/// The number of drink cards on top of `pile`, up to the first event.
pub open spec fn drink_run_len(pile: Seq<DrinkCard>) -> nat
    decreases pile.len(),
{
    if pile.len() == 0 {
        0
    } else if pile.last() is Drink {
        1 + drink_run_len(pile.drop_last())
    } else {
        0
    }
}

proof fn lemma_drink_run(pile: Seq<DrinkCard>)
    ensures
        drink_run_len(pile) <= pile.len(),
        forall|i: int| 0 <= i < drink_run_len(pile) ==> (#[trigger] pile[pile.len() - 1 - i]) is Drink,
        drink_run_len(pile) < pile.len() ==> !(pile[pile.len() - 1 - drink_run_len(pile)] is Drink),
    decreases pile.len(),
{
    if pile.len() > 0 && pile.last() is Drink {
        let rest = pile.drop_last();
        lemma_drink_run(rest);
        assert forall|i: int| 0 <= i < drink_run_len(pile) implies (#[trigger] pile[pile.len() - 1 - i]) is Drink by {
            if i > 0 {
                assert(pile[pile.len() - 1 - i] == rest[rest.len() - 1 - (i - 1)]);
            }
        }
        if drink_run_len(pile) < pile.len() {
            assert(pile[pile.len() - 1 - drink_run_len(pile)] == rest[rest.len() - 1 - drink_run_len(rest)]);
        }
    }
}

/// The top `k` drinks of `pile`, topmost first.
pub open spec fn run_drinks(pile: Seq<DrinkCard>, k: nat) -> Seq<Drink> {
    Seq::new(k, |i: int| pile[pile.len() - 1 - i]->Drink_0)
}

/// The outcome of taking, after the drinks `acc`, every drink from the top
/// of `before` up to the first event: `drinks` holds them all, `ignored` the
/// event that stopped the chain (if any), `after` what is left.
pub open spec fn chain_result(
    before: Seq<DrinkCard>,
    acc: Seq<Drink>,
    drinks: Seq<Drink>,
    ignored: Option<DrinkCard>,
    after: Seq<DrinkCard>,
) -> bool {
    let k = drink_run_len(before);
    &&& drinks == acc + run_drinks(before, k)
    &&& if k == before.len() {
        &&& ignored is None
        &&& after == Seq::<DrinkCard>::empty()
    } else {
        &&& ignored == Some(before[before.len() - 1 - k])
        &&& after == before.take(before.len() - 1 - k)
    }
}

/// The outcome of revealing the top of a drink pile. An event is revealed
/// alone. A drink without a chaser is revealed alone. A drink with a chaser
/// is revealed with every drink below it up to the first event, which is
/// taken off the pile too and set aside.
pub open spec fn reveal_result(
    before: Seq<DrinkCard>,
    r: Option<RevealedDrink>,
    after: Seq<DrinkCard>,
) -> bool {
    match r {
        None => before.len() == 0 && after == before,
        Some(RevealedDrink::DrinkEvent(e)) => {
            &&& before.len() > 0
            &&& before.last() == DrinkCard::DrinkEvent(e)
            &&& after == before.drop_last()
        },
        Some(RevealedDrink::DrinkWithPossibleChasers(d)) => {
            &&& before.len() > 0
            &&& before.last() is Drink
            &&& if !before.last()->Drink_0.has_chaser {
                &&& d.drinks@ == seq![before.last()->Drink_0]
                &&& d.ignored_card_or is None
                &&& after == before.drop_last()
            } else {
                chain_result(
                    before.drop_last(),
                    seq![before.last()->Drink_0],
                    d.drinks@,
                    d.ignored_card_or,
                    after,
                )
            }
        },
    }
}

/// A pile that drink cards are drawn from one at a time.
pub trait DrinkDeck {
    /// Draws the next drink card, if there is one.
    fn get_next_drink_card_or(&mut self) -> Option<DrinkCard>;
}

impl DrinkDeck for DrinkMePile {
    /// Takes the top card of the pile.
    fn get_next_drink_card_or(&mut self) -> (r: Option<DrinkCard>)
        ensures
            old(self).drink_cards@.len() == 0 ==> r is None && final(self).drink_cards@ == old(
                self,
            ).drink_cards@,
            old(self).drink_cards@.len() > 0 ==> r == Some(old(self).drink_cards@.last())
                && final(self).drink_cards@ == old(self).drink_cards@.drop_last(),
    {
        self.drink_cards.pop()
    }
}

impl DrinkDeck for AutoShufflingDeck<DrinkCard> {
    /// Draws from the deck, shuffling the discard pile back in when the
    /// draw pile is empty (see `drew_card`).
    fn get_next_drink_card_or(&mut self) -> (r: Option<DrinkCard>)
        ensures
            drew_card(
                old(self).draw_pile@,
                old(self).discard_pile@,
                r,
                final(self).draw_pile@,
                final(self).discard_pile@,
            ),
    {
        self.draw_card()
    }
}

/// Adds every drink from the top of the pile to `drinks`, up to the first
/// event. Returns the event, taken off the pile, as the error.
fn push_drink_to_vec_or(drink_deck: &mut DrinkMePile, drinks: Vec<Drink>) -> (r: Result<
    Vec<Drink>,
    (Vec<Drink>, DrinkCard),
>)
    ensures
        match r {
            Ok(v) => chain_result(
                old(drink_deck).drink_cards@,
                drinks@,
                v@,
                None,
                final(drink_deck).drink_cards@,
            ),
            Err((v, c)) => chain_result(
                old(drink_deck).drink_cards@,
                drinks@,
                v@,
                Some(c),
                final(drink_deck).drink_cards@,
            ),
        },
    decreases old(drink_deck).drink_cards@.len(),
{
    let ghost pile = drink_deck.drink_cards@;
    match drink_deck.get_next_drink_card_or() {
        Some(next_drink_card) => match next_drink_card {
            DrinkCard::Drink(drink) => {
                let mut drinks = drinks;
                let ghost d0 = drinks@;
                drinks.push(drink);
                let r = push_drink_to_vec_or(drink_deck, drinks);
                proof {
                    let rest = pile.drop_last();
                    lemma_drink_run(rest);
                    let k = drink_run_len(pile);
                    let k1 = drink_run_len(rest);
                    assert(k == k1 + 1);
                    assert(d0 + run_drinks(pile, k) =~= d0.push(drink) + run_drinks(rest, k1)) by {
                        assert forall|i: int| 0 <= i < k1 implies run_drinks(pile, k)[i + 1]
                            == run_drinks(rest, k1)[i] by {
                            assert(pile[pile.len() - 1 - (i + 1)] == rest[rest.len() - 1 - i]);
                        }
                    }
                    if k1 < rest.len() {
                        assert(rest[rest.len() - 1 - k1] == pile[pile.len() - 1 - k]);
                        assert(rest.take(rest.len() - 1 - k1) =~= pile.take(pile.len() - 1 - k));
                    }
                }
                r
            },
            DrinkCard::DrinkEvent(drink_event) => {
                proof {
                    assert(drink_run_len(pile) == 0);
                    assert(run_drinks(pile, 0) =~= Seq::<Drink>::empty());
                    assert(drinks@ + run_drinks(pile, 0) =~= drinks@);
                    assert(pile.take(pile.len() - 1) =~= pile.drop_last());
                }
                Err((drinks, DrinkCard::DrinkEvent(drink_event)))
            },
        },
        None => {
            proof {
                assert(drink_deck.drink_cards@ =~= Seq::<DrinkCard>::empty());
                assert(run_drinks(pile, 0) =~= Seq::<Drink>::empty());
                assert(drinks@ + run_drinks(pile, 0) =~= drinks@);
            }
            Ok(drinks)
        },
    }
}

/// Reveals the top of a drink pile: an event alone, a drink without a
/// chaser alone, or a drink with a chaser together with the drinks below it
/// up to the first event (which is set aside). `None` for an empty pile.
pub fn get_revealed_drink(drink_deck: &mut DrinkMePile) -> (r: Option<RevealedDrink>)
    ensures
        reveal_result(old(drink_deck).drink_cards@, r, final(drink_deck).drink_cards@),
{
    match drink_deck.get_next_drink_card_or() {
        None => None,
        Some(DrinkCard::Drink(drink)) => {
            if !drink.has_chaser() {
                let mut drinks = Vec::new();
                drinks.push(drink);
                Some(
                    RevealedDrink::DrinkWithPossibleChasers(
                        DrinkWithPossibleChasers::new(drinks, None),
                    ),
                )
            } else {
                let mut drinks = Vec::new();
                drinks.push(drink);
                match push_drink_to_vec_or(drink_deck, drinks) {
                    Ok(drinks) => Some(
                        RevealedDrink::DrinkWithPossibleChasers(
                            DrinkWithPossibleChasers::new(drinks, None),
                        ),
                    ),
                    Err((drinks, discarded_drink_card)) => Some(
                        RevealedDrink::DrinkWithPossibleChasers(
                            DrinkWithPossibleChasers::new(drinks, Some(discarded_drink_card)),
                        ),
                    ),
                }
            }
        },
        Some(DrinkCard::DrinkEvent(drink_event)) => Some(RevealedDrink::DrinkEvent(drink_event)),
    }
}

/// The top `events.len()` cards of `pile` are the given events, topmost
/// first.
pub open spec fn events_on_top(pile: Seq<DrinkCard>, events: Seq<DrinkEvent>) -> bool {
    &&& events.len() <= pile.len()
    &&& forall|i: int|
        0 <= i < events.len() ==> pile[pile.len() - 1 - i] == DrinkCard::DrinkEvent(
            #[trigger] events[i],
        )
}

/// Reveals drinks from the pile until one is not an event. Returns the drink
/// and the events revealed before it, or `None` if the pile runs out first.
pub fn get_drink_with_possible_chasers_skipping_drink_events(drink_deck: &mut DrinkMePile) -> (r:
    Option<(DrinkWithPossibleChasers, Vec<DrinkEvent>)>)
    ensures
        match r {
            Some((d, events)) => {
                let before = old(drink_deck).drink_cards@;
                let m = before.len() - events@.len();
                &&& events_on_top(before, events@)
                &&& reveal_result(
                    before.take(m),
                    Some(RevealedDrink::DrinkWithPossibleChasers(d)),
                    final(drink_deck).drink_cards@,
                )
            },
            None => {
                &&& final(drink_deck).drink_cards@ == Seq::<DrinkCard>::empty()
                &&& forall|i: int|
                    0 <= i < old(drink_deck).drink_cards@.len() ==> (#[trigger] old(
                        drink_deck,
                    ).drink_cards@[i]) is DrinkEvent
            },
        },
{
    let mut drink_events: Vec<DrinkEvent> = Vec::new();
    let ghost before = drink_deck.drink_cards@;
    loop
        invariant
            before == old(drink_deck).drink_cards@,
            events_on_top(before, drink_events@),
            drink_deck.drink_cards@ == before.take(before.len() - drink_events@.len()),
            forall|i: int|
                before.len() - drink_events@.len() <= i < before.len() ==> (#[trigger] before[i]) is DrinkEvent,
        decreases drink_deck.drink_cards@.len(),
    {
        let ghost cur = drink_deck.drink_cards@;
        assert(cur.len() == before.len() - drink_events@.len());
        match get_revealed_drink(drink_deck) {
            Some(revealed_drink) => {
                match revealed_drink {
                    RevealedDrink::DrinkWithPossibleChasers(drink) => {
                        assert(reveal_result(
                            before.take(before.len() - drink_events@.len()),
                            Some(RevealedDrink::DrinkWithPossibleChasers(drink)),
                            drink_deck.drink_cards@,
                        ));
                        return Some((drink, drink_events));
                    },
                    RevealedDrink::DrinkEvent(drink_event) => {
                        let ghost ev = drink_events@;
                        drink_events.push(drink_event);
                        proof {
                            assert forall|i: int| 0 <= i < drink_events@.len() implies before[before.len() - 1 - i]
                                == DrinkCard::DrinkEvent(#[trigger] drink_events@[i]) by {
                                if i == ev.len() {
                                    assert(cur.last() == before[before.len() - 1 - i]);
                                }
                            }
                            assert(drink_deck.drink_cards@ =~= before.take(before.len() - drink_events@.len()));
                            assert forall|i: int| before.len() - drink_events@.len() <= i < before.len() implies (#[trigger] before[i]) is DrinkEvent by {
                                if i == before.len() - drink_events@.len() {
                                    assert(before[i] == cur.last());
                                }
                            }
                        }
                    },
                };
            },
            None => {
                assert(drink_deck.drink_cards@ =~= Seq::<DrinkCard>::empty());
                assert(drink_events@.len() == before.len());
                return None;
            },
        };
    }
}

impl DrinkWithPossibleChasers {
    /// A drink group from its drinks and the card that stopped its chain.
    pub fn new(drinks: Vec<Drink>, ignored_card_or: Option<DrinkCard>) -> (d: Self)
        ensures
            d.drinks@ == drinks@,
            d.ignored_card_or == ignored_card_or,
    {
        DrinkWithPossibleChasers { drinks, ignored_card_or }
    }

    /// The drinks of the group.
    pub fn get_drinks(&self) -> (v: &Vec<Drink>)
        ensures
            v@ == self.drinks@,
    {
        &self.drinks
    }

    /// A drink group from a revealed drink; an event becomes a group with no
    /// drinks that sets the event aside.
    pub fn from_revealed_drink_treating_drink_event_as_empty_drink(drink: RevealedDrink) -> (d:
        Self)
        ensures
            match drink {
                RevealedDrink::DrinkWithPossibleChasers(x) => d.drinks@ == x.drinks@
                    && d.ignored_card_or == x.ignored_card_or,
                RevealedDrink::DrinkEvent(e) => d.drinks@ == Seq::<Drink>::empty()
                    && d.ignored_card_or == Some(DrinkCard::DrinkEvent(e)),
            },
    {
        match drink {
            RevealedDrink::DrinkWithPossibleChasers(drink) => drink,
            RevealedDrink::DrinkEvent(drink_event) => DrinkWithPossibleChasers {
                drinks: Vec::new(),
                ignored_card_or: Some(DrinkCard::DrinkEvent(drink_event)),
            },
        }
    }

    /// The cards of the group to put on the discard pile: each drink, then
    /// the set-aside card if there is one.
    pub fn take_all_discardable_drink_cards(self) -> (cards: Vec<DrinkCard>)
        ensures
            cards@ == discardable_cards(self.drinks@, self.ignored_card_or),
    {
        let ghost drinks0 = self.drinks@;
        let mut drinks = self.drinks;
        let mut discardable_drink_cards: Vec<DrinkCard> = Vec::new();
        let ghost mut taken: int = 0;
        while drinks.len() > 0
            invariant
                0 <= taken <= drinks0.len(),
                drinks@ == drinks0.skip(taken),
                discardable_drink_cards@ == drinks0.take(taken).map_values(
                    |x: Drink| DrinkCard::Drink(x),
                ),
            decreases drinks@.len(),
        {
            let drink = drinks.remove(0);
            discardable_drink_cards.push(DrinkCard::Drink(drink));
            proof {
                assert(drinks0.take(taken + 1).map_values(|x: Drink| DrinkCard::Drink(x))
                    =~= drinks0.take(taken).map_values(|x: Drink| DrinkCard::Drink(x)).push(
                    DrinkCard::Drink(drink),
                ));
                taken = taken + 1;
                assert(drinks@ =~= drinks0.skip(taken));
            }
        }
        proof {
            assert(drinks0.take(taken) =~= drinks0);
        }
        if let Some(ignored_card) = self.ignored_card_or {
            discardable_drink_cards.push(ignored_card);
        }
        discardable_drink_cards
    }

    /// The names of the drinks joined by ", ", in brackets ("[]" for no
    /// drinks).
    pub fn get_display_name(&self) -> (s: String)
        ensures
            s@ == "["@ + drink_names(self.drinks@) + "]"@,
    {
        let mut names = String::from_str("");
        let mut i: usize = 0;
        proof {
            reveal_strlit("");
            assert(self.drinks@.take(0) =~= Seq::<Drink>::empty());
        }
        while i < self.drinks.len()
            invariant
                i <= self.drinks@.len(),
                names@ == drink_names(self.drinks@.take(i as int)),
            decreases self.drinks@.len() - i,
        {
            if i > 0 {
                names.append(", ");
            }
            names.append(self.drinks[i].display_name.as_str());
            proof {
                assert(self.drinks@.take(i + 1).drop_last() =~= self.drinks@.take(i as int));
                if i == 0 {
                    assert(names@ =~= self.drinks@.take(1)[0].display_name@);
                }
            }
            i = i + 1;
        }
        proof {
            assert(self.drinks@.take(i as int) =~= self.drinks@);
        }
        String::from_str("[").concat(names.as_str()).concat("]")
    }

    /// The summed alcohol content change of the group for the player, kept
    /// within the range of `i32`.
    pub fn get_combined_alcohol_content_modifier(&self, player: &Player) -> (m: i32)
        ensures
            m == clamp_i32(spec_combined_alcohol(self.drinks@, player.is_orc, player.is_troll)),
    {
        let total = self.combined_alcohol_wide(player);
        if total > i32::MAX as i128 {
            i32::MAX
        } else if total < i32::MIN as i128 {
            i32::MIN
        } else {
            total as i32
        }
    }

    /// The summed fortitude change of the group for the player, kept within
    /// the range of `i32`.
    pub fn get_combined_fortitude_modifier(&self, player: &Player) -> (m: i32)
        ensures
            m == clamp_i32(spec_combined_fortitude(self.drinks@, player.is_orc, player.is_troll)),
    {
        let total = self.combined_fortitude_wide(player);
        if total > i32::MAX as i128 {
            i32::MAX
        } else if total < i32::MIN as i128 {
            i32::MIN
        } else {
            total as i32
        }
    }

    fn combined_alcohol_wide(&self, player: &Player) -> (m: i128)
        ensures
            m == spec_combined_alcohol(self.drinks@, player.is_orc, player.is_troll),
    {
        let mut modifier: i128 = 0;
        let mut i: usize = 0;
        while i < self.drinks.len()
            invariant
                i <= self.drinks@.len(),
                modifier == spec_combined_alcohol(
                    self.drinks@.take(i as int),
                    player.is_orc,
                    player.is_troll,
                ),
                -0x8000_0000 * i <= modifier <= 0x8000_0000 * i,
            decreases self.drinks@.len() - i,
        {
            let m = self.drinks[i].get_alcohol_content_modifier(player);
            proof {
                assert(self.drinks@.take(i + 1).drop_last() =~= self.drinks@.take(i as int));
            }
            modifier = modifier + m as i128;
            i = i + 1;
        }
        proof {
            assert(self.drinks@.take(i as int) =~= self.drinks@);
        }
        modifier
    }

    fn combined_fortitude_wide(&self, player: &Player) -> (m: i128)
        ensures
            m == spec_combined_fortitude(self.drinks@, player.is_orc, player.is_troll),
    {
        let mut modifier: i128 = 0;
        let mut i: usize = 0;
        while i < self.drinks.len()
            invariant
                i <= self.drinks@.len(),
                modifier == spec_combined_fortitude(
                    self.drinks@.take(i as int),
                    player.is_orc,
                    player.is_troll,
                ),
                -0x8000_0000 * i <= modifier <= 0x8000_0000 * i,
            decreases self.drinks@.len() - i,
        {
            let m = self.drinks[i].get_fortitude_modifier(player);
            proof {
                assert(self.drinks@.take(i + 1).drop_last() =~= self.drinks@.take(i as int));
            }
            modifier = modifier + m as i128;
            i = i + 1;
        }
        proof {
            assert(self.drinks@.take(i as int) =~= self.drinks@);
        }
        modifier
    }

    /// Drinks the group: the player's alcohol content and fortitude change
    /// by the summed modifiers of its drinks, each kept within 0..=20.
    pub fn process(&self, player: &mut Player)
        ensures
            final(player)@ == pv_change_fortitude(
                pv_change_alcohol(
                    old(player)@,
                    clamp_i32(
                        spec_combined_alcohol(self.drinks@, old(player).is_orc, old(player).is_troll),
                    ),
                ),
                clamp_i32(
                    spec_combined_fortitude(self.drinks@, old(player).is_orc, old(player).is_troll),
                ),
            ),
    {
        let alcohol_content_modifier = self.get_combined_alcohol_content_modifier(player);
        let fortitude_modifier = self.get_combined_fortitude_modifier(player);
        player.change_alcohol_content(alcohol_content_modifier);
        player.change_fortitude(fortitude_modifier);
    }
}

/// The cards a drink group leaves for the discard pile.
pub open spec fn discardable_cards(drinks: Seq<Drink>, ignored: Option<DrinkCard>) -> Seq<
    DrinkCard,
> {
    drinks.map_values(|x: Drink| DrinkCard::Drink(x)) + match ignored {
        Some(c) => seq![c],
        None => Seq::<DrinkCard>::empty(),
    }
}

/// The drinks' names joined by ", " (nothing after the last one).
pub open spec fn drink_names(drinks: Seq<Drink>) -> Seq<char>
    decreases drinks.len(),
{
    if drinks.len() == 0 {
        Seq::empty()
    } else if drinks.len() == 1 {
        drinks[0].display_name@
    } else {
        drink_names(drinks.drop_last()) + ", "@ + drinks.last().display_name@
    }
}

/// `c` is a drink card with the given name, kind and chaser.
pub open spec fn is_drink_card(c: DrinkCard, name: Seq<char>, kind: DrinkKind, chaser: bool) -> bool {
    &&& c matches DrinkCard::Drink(x)
    &&& x.display_name@ == name
    &&& x.kind == kind
    &&& x.has_chaser == chaser
}

/// `d` is the tavern's drink deck, in its printed order.
pub open spec fn is_drink_deck(d: Seq<DrinkCard>) -> bool {
    &&& d.len() == 30
    &&& is_drink_card(d[0], "Dark Ale"@, DrinkKind::Simple { alcohol_content_mod: 1, fortitude_mod: 0 }, false)
    &&& is_drink_card(d[1], "Dark Ale"@, DrinkKind::Simple { alcohol_content_mod: 1, fortitude_mod: 0 }, false)
    &&& is_drink_card(d[2], "Dark Ale"@, DrinkKind::Simple { alcohol_content_mod: 1, fortitude_mod: 0 }, false)
    &&& is_drink_card(d[3], "Dark Ale with a Chaser"@, DrinkKind::Simple { alcohol_content_mod: 1, fortitude_mod: 0 }, true)
    &&& is_drink_card(d[4], "Dirty Dishwater"@, DrinkKind::Simple { alcohol_content_mod: 0, fortitude_mod: -1i32 }, false)
    &&& is_drink_card(d[5], "Dragon Breath Ale"@, DrinkKind::Simple { alcohol_content_mod: 4, fortitude_mod: 0 }, false)
    &&& is_drink_card(d[6], "Dragon Breath Ale"@, DrinkKind::Simple { alcohol_content_mod: 4, fortitude_mod: 0 }, false)
    &&& is_drink_card(d[7], "Dragon Breath Ale"@, DrinkKind::Simple { alcohol_content_mod: 4, fortitude_mod: 0 }, false)
    &&& is_drink_card(d[8], "Elven Wine"@, DrinkKind::Simple { alcohol_content_mod: 3, fortitude_mod: 0 }, false)
    &&& is_drink_card(d[9], "Elven Wine"@, DrinkKind::Simple { alcohol_content_mod: 3, fortitude_mod: 0 }, false)
    &&& is_drink_card(d[10], "Elven Wine with a Chaser"@, DrinkKind::Simple { alcohol_content_mod: 3, fortitude_mod: 0 }, true)
    &&& is_drink_card(d[11], "Holy Water"@, DrinkKind::Simple { alcohol_content_mod: 0, fortitude_mod: 2 }, false)
    &&& is_drink_card(d[12], "Light Ale"@, DrinkKind::Simple { alcohol_content_mod: 1, fortitude_mod: 0 }, false)
    &&& is_drink_card(d[13], "Light Ale"@, DrinkKind::Simple { alcohol_content_mod: 1, fortitude_mod: 0 }, false)
    &&& is_drink_card(d[14], "Light Ale"@, DrinkKind::Simple { alcohol_content_mod: 1, fortitude_mod: 0 }, false)
    &&& is_drink_card(d[15], "Light Ale with a Chaser"@, DrinkKind::Simple { alcohol_content_mod: 1, fortitude_mod: 0 }, true)
    &&& is_drink_card(d[16], "Light Ale with a Chaser"@, DrinkKind::Simple { alcohol_content_mod: 1, fortitude_mod: 0 }, true)
    &&& is_drink_card(d[17], "Wine"@, DrinkKind::Simple { alcohol_content_mod: 2, fortitude_mod: 0 }, false)
    &&& is_drink_card(d[18], "Wine"@, DrinkKind::Simple { alcohol_content_mod: 2, fortitude_mod: 0 }, false)
    &&& is_drink_card(d[19], "Wine"@, DrinkKind::Simple { alcohol_content_mod: 2, fortitude_mod: 0 }, false)
    &&& is_drink_card(d[20], "Wine with a Chaser"@, DrinkKind::Simple { alcohol_content_mod: 2, fortitude_mod: 0 }, true)
    &&& is_drink_card(d[21], "Wizard's Brew"@, DrinkKind::Simple { alcohol_content_mod: 2, fortitude_mod: 2 }, false)
    &&& is_drink_card(d[22], "Water"@, DrinkKind::Simple { alcohol_content_mod: 0, fortitude_mod: 0 }, false)
    &&& is_drink_card(d[23], "We're Cutting You Off!"@, DrinkKind::Simple { alcohol_content_mod: -1i32, fortitude_mod: 0 }, false)
    &&& is_drink_card(d[24], "Orcish Rotgut"@, DrinkKind::OrcishRotgut, false)
    &&& is_drink_card(d[25], "Troll Swill"@, DrinkKind::TrollSwill, false)
    &&& d[26] == DrinkCard::DrinkEvent(DrinkEvent::DrinkingContest)
    &&& d[27] == DrinkCard::DrinkEvent(DrinkEvent::DrinkingContest)
    &&& d[28] == DrinkCard::DrinkEvent(DrinkEvent::RoundOnTheHouse)
    &&& d[29] == DrinkCard::DrinkEvent(DrinkEvent::RoundOnTheHouse)
}

/// The tavern's drink deck, in its printed order.
pub fn create_drink_deck() -> (d: Vec<DrinkCard>)
    ensures
        is_drink_deck(d@),
{
    let mut v: Vec<DrinkCard> = Vec::new();
    v.push(DrinkCard::Drink(simple_drink("Dark Ale", 1, 0, false)));
    v.push(DrinkCard::Drink(simple_drink("Dark Ale", 1, 0, false)));
    v.push(DrinkCard::Drink(simple_drink("Dark Ale", 1, 0, false)));
    v.push(DrinkCard::Drink(simple_drink("Dark Ale with a Chaser", 1, 0, true)));
    v.push(DrinkCard::Drink(simple_drink("Dirty Dishwater", 0, -1, false)));
    v.push(DrinkCard::Drink(simple_drink("Dragon Breath Ale", 4, 0, false)));
    v.push(DrinkCard::Drink(simple_drink("Dragon Breath Ale", 4, 0, false)));
    v.push(DrinkCard::Drink(simple_drink("Dragon Breath Ale", 4, 0, false)));
    v.push(DrinkCard::Drink(simple_drink("Elven Wine", 3, 0, false)));
    v.push(DrinkCard::Drink(simple_drink("Elven Wine", 3, 0, false)));
    v.push(DrinkCard::Drink(simple_drink("Elven Wine with a Chaser", 3, 0, true)));
    v.push(DrinkCard::Drink(simple_drink("Holy Water", 0, 2, false)));
    v.push(DrinkCard::Drink(simple_drink("Light Ale", 1, 0, false)));
    v.push(DrinkCard::Drink(simple_drink("Light Ale", 1, 0, false)));
    v.push(DrinkCard::Drink(simple_drink("Light Ale", 1, 0, false)));
    v.push(DrinkCard::Drink(simple_drink("Light Ale with a Chaser", 1, 0, true)));
    v.push(DrinkCard::Drink(simple_drink("Light Ale with a Chaser", 1, 0, true)));
    v.push(DrinkCard::Drink(simple_drink("Wine", 2, 0, false)));
    v.push(DrinkCard::Drink(simple_drink("Wine", 2, 0, false)));
    v.push(DrinkCard::Drink(simple_drink("Wine", 2, 0, false)));
    v.push(DrinkCard::Drink(simple_drink("Wine with a Chaser", 2, 0, true)));
    v.push(DrinkCard::Drink(simple_drink("Wizard's Brew", 2, 2, false)));
    v.push(DrinkCard::Drink(simple_drink("Water", 0, 0, false)));
    v.push(DrinkCard::Drink(simple_drink("We're Cutting You Off!", -1, 0, false)));
    v.push(DrinkCard::Drink(orcish_rotgut()));
    v.push(DrinkCard::Drink(troll_swill()));
    v.push(DrinkCard::DrinkEvent(DrinkEvent::DrinkingContest));
    v.push(DrinkCard::DrinkEvent(DrinkEvent::DrinkingContest));
    v.push(DrinkCard::DrinkEvent(DrinkEvent::RoundOnTheHouse));
    v.push(DrinkCard::DrinkEvent(DrinkEvent::RoundOnTheHouse));
    v
}

impl From<Drink> for DrinkCard {
    /// A drink as a drink card.
    fn from(drink: Drink) -> (r: Self) {
        DrinkCard::Drink(drink)
    }
}

impl vstd::std_specs::convert::FromSpecImpl<Drink> for DrinkCard {
    open spec fn obeys_from_spec() -> bool {
        true
    }

    open spec fn from_spec(drink: Drink) -> Self {
        DrinkCard::Drink(drink)
    }
}

impl From<DrinkEvent> for DrinkCard {
    /// A drink event as a drink card.
    fn from(event: DrinkEvent) -> (r: Self) {
        DrinkCard::DrinkEvent(event)
    }
}

impl vstd::std_specs::convert::FromSpecImpl<DrinkEvent> for DrinkCard {
    open spec fn obeys_from_spec() -> bool {
        true
    }

    open spec fn from_spec(event: DrinkEvent) -> Self {
        DrinkCard::DrinkEvent(event)
    }
}

/// Revealing takes cards off the top of the pile and nothing else, each
/// once: the drinks revealed are the top cards, topmost first, the event
/// set aside (if any) is the card right below them, and what is left is the
/// rest of the pile as it was. An event is revealed alone, and so is a
/// drink without a chaser; a drink with a chaser takes the drinks below it
/// up to the first event or to the bottom of the pile.
pub proof fn law_reveal_takes_only_the_top(
    before: Seq<DrinkCard>,
    r: Option<RevealedDrink>,
    after: Seq<DrinkCard>,
)
    requires
        reveal_result(before, r, after),
    ensures
        r is None ==> after == before,
        r matches Some(RevealedDrink::DrinkEvent(e)) ==> before.last() == DrinkCard::DrinkEvent(e)
            && after == before.drop_last(),
        r matches Some(RevealedDrink::DrinkWithPossibleChasers(d)) ==> {
            let n = d.drinks@.len() as int;
            let taken = if d.ignored_card_or is Some { n + 1 } else { n };
            &&& 1 <= n
            &&& taken <= before.len()
            &&& forall|i: int|
                0 <= i < n ==> before[before.len() - 1 - i] == DrinkCard::Drink(
                    #[trigger] d.drinks@[i],
                )
            &&& d.ignored_card_or matches Some(c) ==> c == before[before.len() - 1 - n] && !(c is Drink)
            &&& after == before.take(before.len() - taken)
            &&& !d.drinks@[0].has_chaser ==> n == 1 && d.ignored_card_or is None
            &&& d.drinks@[0].has_chaser && d.ignored_card_or is None ==> after.len() == 0
        },
{
    match r {
        Some(RevealedDrink::DrinkWithPossibleChasers(d)) => {
            let top = before.last()->Drink_0;
            if !top.has_chaser {
                assert(before.drop_last() =~= before.take(before.len() - 1));
            } else {
                let rest = before.drop_last();
                let k = drink_run_len(rest);
                lemma_drink_run(rest);
                let n = d.drinks@.len() as int;
                assert(n == k + 1);
                assert forall|i: int| 0 <= i < n implies before[before.len() - 1 - i] == DrinkCard::Drink(
                    #[trigger] d.drinks@[i],
                ) by {
                    if i > 0 {
                        assert(d.drinks@[i] == run_drinks(rest, k)[i - 1]);
                        assert(before[before.len() - 1 - i] == rest[rest.len() - 1 - (i - 1)]);
                    }
                }
                if k < rest.len() {
                    assert(before[before.len() - 1 - n] == rest[rest.len() - 1 - k]);
                    assert(rest.take(rest.len() - 1 - k) =~= before.take(before.len() - (n + 1)));
                } else {
                    assert(before.take(before.len() - n) =~= Seq::<DrinkCard>::empty());
                }
            }
        },
        _ => {},
    }
}

} // verus!
