use crate::player_card::{
    change_all_other_player_fortitude_card, change_other_player_fortitude_card,
    combined_interrupt_player_card, gain_fortitude_anytime_card, gambling_cheat_card,
    gambling_im_in_card, i_dont_think_so_card, i_raise_card, ignore_drink_card,
    ignore_root_card_affecting_fortitude, leave_gambling_round_instead_of_anteing_card,
    oh_i_guess_the_wench_thought_that_was_her_tip_card,
    wench_bring_some_drinks_for_my_friends_card, winning_hand_card, card_ok, root_card_ok,
    is_change_all_other_fortitude_card, is_change_other_fortitude_card, is_combined_card,
    is_gain_fortitude_card, is_gambling_cheat_card, is_gambling_im_in_card,
    is_i_dont_think_so_card, is_i_raise_card, is_ignore_drink_card, is_ignore_fortitude_card,
    is_leave_gambling_card, is_wench_card, is_wench_tip_card, is_winning_hand_card,
    InterruptCardEffect, PlayerCard, RootCardEffect,
};
use crate::drink::DrinkCard;
use crate::error::Error;
use crate::game_logic::{
    discard_at, game_wf, hand_shown, interrupts_shown, player_data_shown, res_msg, sort_desc,
    spec_discard_and_draw, spec_order_after_draw, spec_pass, spec_play_card, GameLogic,
    GameLogicView, TurnInfo, TurnPhase,
};
use crate::player::drew_to_full;
use crate::player_view::{GameView, ListedGameView};
use crate::uuid::GameUUID;
use crate::interrupt_manager::StackView;
use crate::player_manager::{
    alive_uuids, lemma_uuid_index, seat, seated, spec_running_state, starting_gold, uuid_index,
    GameRunningState,
};
use crate::uuid::PlayerUUID;
use vstd::prelude::*;

verus! {

/// A character a player can play. Each character has its own deck.
#[derive(Clone, Copy, PartialEq, Eq, Structural, Debug)]
pub enum Character {
    Fiona,
    Zot,
    Deirdre,
    Gerki,
}

/// The number of cards in a character's deck.
pub open spec fn deck_size(c: Character) -> nat {
    match c {
        Character::Fiona => 24,
        Character::Zot => 27,
        Character::Deirdre => 23,
        Character::Gerki => 24,
    }
}

/// The card of a character's deck at a position, as printed: every field
/// of it is what the card's constructor gives.
pub open spec fn deck_card_matches(ch: Character, i: int, card: PlayerCard) -> bool {
    match ch {
        Character::Fiona => {
            if i == 0 {
                card matches PlayerCard::RootPlayerCard(r) && is_gambling_im_in_card(r)
            } else if i == 1 {
                card matches PlayerCard::RootPlayerCard(r) && is_gambling_im_in_card(r)
            } else if i == 2 {
                card matches PlayerCard::RootPlayerCard(r) && is_gambling_im_in_card(r)
            } else if i == 3 {
                card matches PlayerCard::RootPlayerCard(r) && is_gambling_im_in_card(r)
            } else if i == 4 {
                card matches PlayerCard::RootPlayerCard(r) && is_gambling_im_in_card(r)
            } else if i == 5 {
                card matches PlayerCard::RootPlayerCard(r) && is_gambling_im_in_card(r)
            } else if i == 6 {
                card matches PlayerCard::RootPlayerCard(r) && is_i_raise_card(r)
            } else if i == 7 {
                card matches PlayerCard::RootPlayerCard(r) && is_i_raise_card(r)
            } else if i == 8 {
                card matches PlayerCard::RootPlayerCard(r) && is_change_other_fortitude_card(r, "So then I got the ogre in a headlock like this!"@, -3i32)
            } else if i == 9 {
                card matches PlayerCard::RootPlayerCard(r) && is_change_other_fortitude_card(r, "Hey! No more chain mail bikini jokes!"@, -2i32)
            } else if i == 10 {
                card matches PlayerCard::RootPlayerCard(r) && is_change_other_fortitude_card(r, "Hey! No more chain mail bikini jokes!"@, -2i32)
            } else if i == 11 {
                card matches PlayerCard::RootPlayerCard(r) && is_change_other_fortitude_card(r, "Who says I'm not a lady?"@, -2i32)
            } else if i == 12 {
                card matches PlayerCard::RootPlayerCard(r) && is_change_other_fortitude_card(r, "It'll hurt more if you do it like this!"@, -1i32)
            } else if i == 13 {
                card matches PlayerCard::RootPlayerCard(r) && is_change_other_fortitude_card(r, "It'll hurt more if you do it like this!"@, -1i32)
            } else if i == 14 {
                card matches PlayerCard::RootPlayerCard(r) && is_change_other_fortitude_card(r, "You wanna arm wrestle?"@, -1i32)
            } else if i == 15 {
                card matches PlayerCard::InterruptPlayerCard(c) && is_ignore_fortitude_card(c, "Luckily for me, I was wearing my armor!"@)
            } else if i == 16 {
                card matches PlayerCard::InterruptPlayerCard(c) && is_ignore_fortitude_card(c, "Luckily for me, I was wearing my armor!"@)
            } else if i == 17 {
                card matches PlayerCard::RootPlayerCard(r) && is_gain_fortitude_card(r, "I'm a quick healer."@, 2i32)
            } else if i == 18 {
                card matches PlayerCard::RootPlayerCard(r) && is_wench_card(r)
            } else if i == 19 {
                card matches PlayerCard::RootPlayerCard(r) && is_wench_card(r)
            } else if i == 20 {
                card matches PlayerCard::RootPlayerCard(r) && is_wench_tip_card(r)
            } else if i == 21 {
                card matches PlayerCard::RootPlayerCard(r) && is_winning_hand_card(r)
            } else if i == 22 {
                card matches PlayerCard::RootPlayerCard(r) && is_winning_hand_card(r)
            } else if i == 23 {
                card matches PlayerCard::InterruptPlayerCard(c) && is_i_dont_think_so_card(c)
            } else {
                false
            }
        },
        Character::Zot => {
            if i == 0 {
                card matches PlayerCard::RootPlayerCard(r) && is_gambling_im_in_card(r)
            } else if i == 1 {
                card matches PlayerCard::RootPlayerCard(r) && is_gambling_im_in_card(r)
            } else if i == 2 {
                card matches PlayerCard::RootPlayerCard(r) && is_gambling_im_in_card(r)
            } else if i == 3 {
                card matches PlayerCard::RootPlayerCard(r) && is_gambling_im_in_card(r)
            } else if i == 4 {
                card matches PlayerCard::RootPlayerCard(r) && is_gambling_im_in_card(r)
            } else if i == 5 {
                card matches PlayerCard::RootPlayerCard(r) && is_gambling_im_in_card(r)
            } else if i == 6 {
                card matches PlayerCard::RootPlayerCard(r) && is_i_raise_card(r)
            } else if i == 7 {
                card matches PlayerCard::RootPlayerCard(r) && is_i_raise_card(r)
            } else if i == 8 {
                card matches PlayerCard::RootPlayerCard(r) && is_change_other_fortitude_card(r, "How many times have I told you? Keep your hands off my wand!"@, -2i32)
            } else if i == 9 {
                card matches PlayerCard::RootPlayerCard(r) && is_change_other_fortitude_card(r, "How many times have I told you? Keep your hands off my wand!"@, -2i32)
            } else if i == 10 {
                card matches PlayerCard::RootPlayerCard(r) && is_change_other_fortitude_card(r, "I told you not to distract me!"@, -2i32)
            } else if i == 11 {
                card matches PlayerCard::RootPlayerCard(r) && is_change_other_fortitude_card(r, "Watch out! Don't step on Pooky!"@, -2i32)
            } else if i == 12 {
                card matches PlayerCard::RootPlayerCard(r) && is_change_other_fortitude_card(r, "Down Pooky!"@, -1i32)
            } else if i == 13 {
                card matches PlayerCard::RootPlayerCard(r) && is_change_all_other_fortitude_card(r, "Oh no! Not again! Pooky's on a drunken rampage!"@, -1i32)
            } else if i == 14 {
                card matches PlayerCard::RootPlayerCard(r) && is_change_all_other_fortitude_card(r, "Oh no! Not again! Pooky's on a drunken rampage!"@, -1i32)
            } else if i == 15 {
                card matches PlayerCard::InterruptPlayerCard(c) && is_ignore_fortitude_card(c, "Now you see me... Now you don't!"@)
            } else if i == 16 {
                card matches PlayerCard::RootPlayerCard(r) && is_wench_card(r)
            } else if i == 17 {
                card matches PlayerCard::RootPlayerCard(r) && is_wench_card(r)
            } else if i == 18 {
                card matches PlayerCard::RootPlayerCard(r) && is_wench_tip_card(r)
            } else if i == 19 {
                card matches PlayerCard::RootPlayerCard(r) && is_gambling_cheat_card(r, "Pooky! Stop looking at everyone's cards!"@)
            } else if i == 20 {
                card matches PlayerCard::RootPlayerCard(r) && is_gambling_cheat_card(r, "Look over there! It's the Lich King!"@)
            } else if i == 21 {
                card matches PlayerCard::RootPlayerCard(r) && is_gambling_cheat_card(r, "This time, we'll use my dice."@)
            } else if i == 22 {
                card matches PlayerCard::RootPlayerCard(r) && is_winning_hand_card(r)
            } else if i == 23 {
                card matches PlayerCard::RootPlayerCard(r) && is_winning_hand_card(r)
            } else if i == 24 {
                card matches PlayerCard::InterruptPlayerCard(c) && is_i_dont_think_so_card(c)
            } else if i == 25 {
                card matches PlayerCard::InterruptPlayerCard(c) && is_ignore_drink_card(c, "Bad Pooky! Don't drink that!"@)
            } else if i == 26 {
                card matches PlayerCard::InterruptPlayerCard(c) && c.effect matches InterruptCardEffect::Combined(a, b)
                    && is_combined_card(c, "Not now, I'm meditating."@, *a, *b)
                    && is_leave_gambling_card(*a, ""@) && is_ignore_drink_card(*b, ""@)
            } else {
                false
            }
        },
        Character::Deirdre => {
            if i == 0 {
                card matches PlayerCard::RootPlayerCard(r) && is_gambling_im_in_card(r)
            } else if i == 1 {
                card matches PlayerCard::RootPlayerCard(r) && is_gambling_im_in_card(r)
            } else if i == 2 {
                card matches PlayerCard::RootPlayerCard(r) && is_gambling_im_in_card(r)
            } else if i == 3 {
                card matches PlayerCard::RootPlayerCard(r) && is_gambling_im_in_card(r)
            } else if i == 4 {
                card matches PlayerCard::RootPlayerCard(r) && is_gambling_im_in_card(r)
            } else if i == 5 {
                card matches PlayerCard::RootPlayerCard(r) && is_gambling_im_in_card(r)
            } else if i == 6 {
                card matches PlayerCard::RootPlayerCard(r) && is_i_raise_card(r)
            } else if i == 7 {
                card matches PlayerCard::RootPlayerCard(r) && is_i_raise_card(r)
            } else if i == 8 {
                card matches PlayerCard::RootPlayerCard(r) && is_change_other_fortitude_card(r, "My Goddess made me do it!"@, -2i32)
            } else if i == 9 {
                card matches PlayerCard::RootPlayerCard(r) && is_change_other_fortitude_card(r, "My Goddess made me do it!"@, -2i32)
            } else if i == 10 {
                card matches PlayerCard::RootPlayerCard(r) && is_change_other_fortitude_card(r, "I'm not that kind of priestess!"@, -2i32)
            } else if i == 11 {
                card matches PlayerCard::RootPlayerCard(r) && is_change_other_fortitude_card(r, "Oh no! I think that growth on your arm might be Mummy Rot!"@, -2i32)
            } else if i == 12 {
                card matches PlayerCard::RootPlayerCard(r) && is_change_other_fortitude_card(r, "Sorry, sometimes my healing spells just wear off."@, -1i32)
            } else if i == 13 {
                card matches PlayerCard::InterruptPlayerCard(c) && is_ignore_fortitude_card(c, "My Goddess protects me!"@)
            } else if i == 14 {
                card matches PlayerCard::InterruptPlayerCard(c) && is_ignore_fortitude_card(c, "My Goddess protects me!"@)
            } else if i == 15 {
                card matches PlayerCard::RootPlayerCard(r) && is_gain_fortitude_card(r, "My Goddess heals me."@, 2i32)
            } else if i == 16 {
                card matches PlayerCard::RootPlayerCard(r) && is_gain_fortitude_card(r, "My Goddess heals me."@, 2i32)
            } else if i == 17 {
                card matches PlayerCard::RootPlayerCard(r) && is_wench_card(r)
            } else if i == 18 {
                card matches PlayerCard::RootPlayerCard(r) && is_wench_card(r)
            } else if i == 19 {
                card matches PlayerCard::RootPlayerCard(r) && is_wench_tip_card(r)
            } else if i == 20 {
                card matches PlayerCard::RootPlayerCard(r) && is_winning_hand_card(r)
            } else if i == 21 {
                card matches PlayerCard::RootPlayerCard(r) && is_winning_hand_card(r)
            } else if i == 22 {
                card matches PlayerCard::InterruptPlayerCard(c) && is_i_dont_think_so_card(c)
            } else {
                false
            }
        },
        Character::Gerki => {
            if i == 0 {
                card matches PlayerCard::RootPlayerCard(r) && is_gambling_im_in_card(r)
            } else if i == 1 {
                card matches PlayerCard::RootPlayerCard(r) && is_gambling_im_in_card(r)
            } else if i == 2 {
                card matches PlayerCard::RootPlayerCard(r) && is_gambling_im_in_card(r)
            } else if i == 3 {
                card matches PlayerCard::RootPlayerCard(r) && is_gambling_im_in_card(r)
            } else if i == 4 {
                card matches PlayerCard::RootPlayerCard(r) && is_gambling_im_in_card(r)
            } else if i == 5 {
                card matches PlayerCard::RootPlayerCard(r) && is_gambling_im_in_card(r)
            } else if i == 6 {
                card matches PlayerCard::RootPlayerCard(r) && is_i_raise_card(r)
            } else if i == 7 {
                card matches PlayerCard::RootPlayerCard(r) && is_i_raise_card(r)
            } else if i == 8 {
                card matches PlayerCard::RootPlayerCard(r) && is_change_other_fortitude_card(r, "Uh oh! I forgot to disarm one of the traps!"@, -3i32)
            } else if i == 9 {
                card matches PlayerCard::RootPlayerCard(r) && is_change_other_fortitude_card(r, "Have you seen my poison? I left it in a mug right here..."@, -3i32)
            } else if i == 10 {
                card matches PlayerCard::RootPlayerCard(r) && is_change_other_fortitude_card(r, "That's not healing salve! It's contact poison!"@, -2i32)
            } else if i == 11 {
                card matches PlayerCard::RootPlayerCard(r) && is_change_other_fortitude_card(r, "That's not healing salve! It's contact poison!"@, -2i32)
            } else if i == 12 {
                card matches PlayerCard::RootPlayerCard(r) && is_change_other_fortitude_card(r, "How did this get stuck in your back?"@, -2i32)
            } else if i == 13 {
                card matches PlayerCard::RootPlayerCard(r) && is_change_other_fortitude_card(r, "How did this get stuck in your back?"@, -2i32)
            } else if i == 14 {
                card matches PlayerCard::InterruptPlayerCard(c) && is_ignore_fortitude_card(c, "Hide in shadows"@)
            } else if i == 15 {
                card matches PlayerCard::RootPlayerCard(r) && is_wench_card(r)
            } else if i == 16 {
                card matches PlayerCard::RootPlayerCard(r) && is_wench_card(r)
            } else if i == 17 {
                card matches PlayerCard::RootPlayerCard(r) && is_wench_tip_card(r)
            } else if i == 18 {
                card matches PlayerCard::RootPlayerCard(r) && is_gambling_cheat_card(r, "I'm winning... Honestly!"@)
            } else if i == 19 {
                card matches PlayerCard::RootPlayerCard(r) && is_gambling_cheat_card(r, "Oops... I dropped my cards..."@)
            } else if i == 20 {
                card matches PlayerCard::RootPlayerCard(r) && is_gambling_cheat_card(r, "Five of a kind! Does this mean I win?"@)
            } else if i == 21 {
                card matches PlayerCard::RootPlayerCard(r) && is_winning_hand_card(r)
            } else if i == 22 {
                card matches PlayerCard::RootPlayerCard(r) && is_winning_hand_card(r)
            } else if i == 23 {
                card matches PlayerCard::InterruptPlayerCard(c) && is_i_dont_think_so_card(c)
            } else {
                false
            }
        },
    }
}

/// Every card of a character's deck is a game card.
pub proof fn lemma_deck_cards_ok(ch: Character, i: int, c: PlayerCard)
    requires
        deck_card_matches(ch, i, c),
    ensures
        card_ok(c),
{
}

/// Fiona's deck, in its printed order.
#[verifier::rlimit(40)]
fn fiona_deck() -> (v: Vec<PlayerCard>)
    ensures
        v@.len() == deck_size(Character::Fiona),
        forall|i: int| 0 <= i < v@.len() ==> deck_card_matches(Character::Fiona, i, #[trigger] v@[i]),
{
    let mut v: Vec<PlayerCard> = Vec::new();
    v.push(PlayerCard::RootPlayerCard(gambling_im_in_card()));
    v.push(PlayerCard::RootPlayerCard(gambling_im_in_card()));
    v.push(PlayerCard::RootPlayerCard(gambling_im_in_card()));
    v.push(PlayerCard::RootPlayerCard(gambling_im_in_card()));
    v.push(PlayerCard::RootPlayerCard(gambling_im_in_card()));
    v.push(PlayerCard::RootPlayerCard(gambling_im_in_card()));
    v.push(PlayerCard::RootPlayerCard(i_raise_card()));
    v.push(PlayerCard::RootPlayerCard(i_raise_card()));
    v.push(PlayerCard::RootPlayerCard(change_other_player_fortitude_card("So then I got the ogre in a headlock like this!", -3)));
    v.push(PlayerCard::RootPlayerCard(change_other_player_fortitude_card("Hey! No more chain mail bikini jokes!", -2)));
    v.push(PlayerCard::RootPlayerCard(change_other_player_fortitude_card("Hey! No more chain mail bikini jokes!", -2)));
    v.push(PlayerCard::RootPlayerCard(change_other_player_fortitude_card("Who says I'm not a lady?", -2)));
    v.push(PlayerCard::RootPlayerCard(change_other_player_fortitude_card("It'll hurt more if you do it like this!", -1)));
    v.push(PlayerCard::RootPlayerCard(change_other_player_fortitude_card("It'll hurt more if you do it like this!", -1)));
    v.push(PlayerCard::RootPlayerCard(change_other_player_fortitude_card("You wanna arm wrestle?", -1)));
    v.push(PlayerCard::InterruptPlayerCard(ignore_root_card_affecting_fortitude("Luckily for me, I was wearing my armor!")));
    v.push(PlayerCard::InterruptPlayerCard(ignore_root_card_affecting_fortitude("Luckily for me, I was wearing my armor!")));
    v.push(PlayerCard::RootPlayerCard(gain_fortitude_anytime_card("I'm a quick healer.", 2)));
    v.push(PlayerCard::RootPlayerCard(wench_bring_some_drinks_for_my_friends_card()));
    v.push(PlayerCard::RootPlayerCard(wench_bring_some_drinks_for_my_friends_card()));
    v.push(PlayerCard::RootPlayerCard(oh_i_guess_the_wench_thought_that_was_her_tip_card()));
    v.push(PlayerCard::RootPlayerCard(winning_hand_card()));
    v.push(PlayerCard::RootPlayerCard(winning_hand_card()));
    v.push(PlayerCard::InterruptPlayerCard(i_dont_think_so_card()));
    proof {
        assert forall|i: int| 0 <= i < v@.len() implies deck_card_matches(Character::Fiona, i, #[trigger] v@[i]) by {}
    }
    v
}

/// Zot's deck, in its printed order.
#[verifier::rlimit(40)]
fn zot_deck() -> (v: Vec<PlayerCard>)
    ensures
        v@.len() == deck_size(Character::Zot),
        forall|i: int| 0 <= i < v@.len() ==> deck_card_matches(Character::Zot, i, #[trigger] v@[i]),
{
    let mut v: Vec<PlayerCard> = Vec::new();
    v.push(PlayerCard::RootPlayerCard(gambling_im_in_card()));
    v.push(PlayerCard::RootPlayerCard(gambling_im_in_card()));
    v.push(PlayerCard::RootPlayerCard(gambling_im_in_card()));
    v.push(PlayerCard::RootPlayerCard(gambling_im_in_card()));
    v.push(PlayerCard::RootPlayerCard(gambling_im_in_card()));
    v.push(PlayerCard::RootPlayerCard(gambling_im_in_card()));
    v.push(PlayerCard::RootPlayerCard(i_raise_card()));
    v.push(PlayerCard::RootPlayerCard(i_raise_card()));
    v.push(PlayerCard::RootPlayerCard(change_other_player_fortitude_card("How many times have I told you? Keep your hands off my wand!", -2)));
    v.push(PlayerCard::RootPlayerCard(change_other_player_fortitude_card("How many times have I told you? Keep your hands off my wand!", -2)));
    v.push(PlayerCard::RootPlayerCard(change_other_player_fortitude_card("I told you not to distract me!", -2)));
    v.push(PlayerCard::RootPlayerCard(change_other_player_fortitude_card("Watch out! Don't step on Pooky!", -2)));
    v.push(PlayerCard::RootPlayerCard(change_other_player_fortitude_card("Down Pooky!", -1)));
    v.push(PlayerCard::RootPlayerCard(change_all_other_player_fortitude_card("Oh no! Not again! Pooky's on a drunken rampage!", -1)));
    v.push(PlayerCard::RootPlayerCard(change_all_other_player_fortitude_card("Oh no! Not again! Pooky's on a drunken rampage!", -1)));
    v.push(PlayerCard::InterruptPlayerCard(ignore_root_card_affecting_fortitude("Now you see me... Now you don't!")));
    v.push(PlayerCard::RootPlayerCard(wench_bring_some_drinks_for_my_friends_card()));
    v.push(PlayerCard::RootPlayerCard(wench_bring_some_drinks_for_my_friends_card()));
    v.push(PlayerCard::RootPlayerCard(oh_i_guess_the_wench_thought_that_was_her_tip_card()));
    v.push(PlayerCard::RootPlayerCard(gambling_cheat_card("Pooky! Stop looking at everyone's cards!")));
    v.push(PlayerCard::RootPlayerCard(gambling_cheat_card("Look over there! It's the Lich King!")));
    v.push(PlayerCard::RootPlayerCard(gambling_cheat_card("This time, we'll use my dice.")));
    v.push(PlayerCard::RootPlayerCard(winning_hand_card()));
    v.push(PlayerCard::RootPlayerCard(winning_hand_card()));
    v.push(PlayerCard::InterruptPlayerCard(i_dont_think_so_card()));
    v.push(PlayerCard::InterruptPlayerCard(ignore_drink_card("Bad Pooky! Don't drink that!")));
    v.push(PlayerCard::InterruptPlayerCard(combined_interrupt_player_card("Not now, I'm meditating.", leave_gambling_round_instead_of_anteing_card(""), ignore_drink_card(""))));
    proof {
        assert forall|i: int| 0 <= i < v@.len() implies deck_card_matches(Character::Zot, i, #[trigger] v@[i]) by {}
    }
    v
}

/// Deirdre's deck, in its printed order.
#[verifier::rlimit(40)]
fn deirdre_deck() -> (v: Vec<PlayerCard>)
    ensures
        v@.len() == deck_size(Character::Deirdre),
        forall|i: int| 0 <= i < v@.len() ==> deck_card_matches(Character::Deirdre, i, #[trigger] v@[i]),
{
    let mut v: Vec<PlayerCard> = Vec::new();
    v.push(PlayerCard::RootPlayerCard(gambling_im_in_card()));
    v.push(PlayerCard::RootPlayerCard(gambling_im_in_card()));
    v.push(PlayerCard::RootPlayerCard(gambling_im_in_card()));
    v.push(PlayerCard::RootPlayerCard(gambling_im_in_card()));
    v.push(PlayerCard::RootPlayerCard(gambling_im_in_card()));
    v.push(PlayerCard::RootPlayerCard(gambling_im_in_card()));
    v.push(PlayerCard::RootPlayerCard(i_raise_card()));
    v.push(PlayerCard::RootPlayerCard(i_raise_card()));
    v.push(PlayerCard::RootPlayerCard(change_other_player_fortitude_card("My Goddess made me do it!", -2)));
    v.push(PlayerCard::RootPlayerCard(change_other_player_fortitude_card("My Goddess made me do it!", -2)));
    v.push(PlayerCard::RootPlayerCard(change_other_player_fortitude_card("I'm not that kind of priestess!", -2)));
    v.push(PlayerCard::RootPlayerCard(change_other_player_fortitude_card("Oh no! I think that growth on your arm might be Mummy Rot!", -2)));
    v.push(PlayerCard::RootPlayerCard(change_other_player_fortitude_card("Sorry, sometimes my healing spells just wear off.", -1)));
    v.push(PlayerCard::InterruptPlayerCard(ignore_root_card_affecting_fortitude("My Goddess protects me!")));
    v.push(PlayerCard::InterruptPlayerCard(ignore_root_card_affecting_fortitude("My Goddess protects me!")));
    v.push(PlayerCard::RootPlayerCard(gain_fortitude_anytime_card("My Goddess heals me.", 2)));
    v.push(PlayerCard::RootPlayerCard(gain_fortitude_anytime_card("My Goddess heals me.", 2)));
    v.push(PlayerCard::RootPlayerCard(wench_bring_some_drinks_for_my_friends_card()));
    v.push(PlayerCard::RootPlayerCard(wench_bring_some_drinks_for_my_friends_card()));
    v.push(PlayerCard::RootPlayerCard(oh_i_guess_the_wench_thought_that_was_her_tip_card()));
    v.push(PlayerCard::RootPlayerCard(winning_hand_card()));
    v.push(PlayerCard::RootPlayerCard(winning_hand_card()));
    v.push(PlayerCard::InterruptPlayerCard(i_dont_think_so_card()));
    proof {
        assert forall|i: int| 0 <= i < v@.len() implies deck_card_matches(Character::Deirdre, i, #[trigger] v@[i]) by {}
    }
    v
}

/// Gerki's deck, in its printed order.
#[verifier::rlimit(40)]
fn gerki_deck() -> (v: Vec<PlayerCard>)
    ensures
        v@.len() == deck_size(Character::Gerki),
        forall|i: int| 0 <= i < v@.len() ==> deck_card_matches(Character::Gerki, i, #[trigger] v@[i]),
{
    let mut v: Vec<PlayerCard> = Vec::new();
    v.push(PlayerCard::RootPlayerCard(gambling_im_in_card()));
    v.push(PlayerCard::RootPlayerCard(gambling_im_in_card()));
    v.push(PlayerCard::RootPlayerCard(gambling_im_in_card()));
    v.push(PlayerCard::RootPlayerCard(gambling_im_in_card()));
    v.push(PlayerCard::RootPlayerCard(gambling_im_in_card()));
    v.push(PlayerCard::RootPlayerCard(gambling_im_in_card()));
    v.push(PlayerCard::RootPlayerCard(i_raise_card()));
    v.push(PlayerCard::RootPlayerCard(i_raise_card()));
    v.push(PlayerCard::RootPlayerCard(change_other_player_fortitude_card("Uh oh! I forgot to disarm one of the traps!", -3)));
    v.push(PlayerCard::RootPlayerCard(change_other_player_fortitude_card("Have you seen my poison? I left it in a mug right here...", -3)));
    v.push(PlayerCard::RootPlayerCard(change_other_player_fortitude_card("That's not healing salve! It's contact poison!", -2)));
    v.push(PlayerCard::RootPlayerCard(change_other_player_fortitude_card("That's not healing salve! It's contact poison!", -2)));
    v.push(PlayerCard::RootPlayerCard(change_other_player_fortitude_card("How did this get stuck in your back?", -2)));
    v.push(PlayerCard::RootPlayerCard(change_other_player_fortitude_card("How did this get stuck in your back?", -2)));
    v.push(PlayerCard::InterruptPlayerCard(ignore_root_card_affecting_fortitude("Hide in shadows")));
    v.push(PlayerCard::RootPlayerCard(wench_bring_some_drinks_for_my_friends_card()));
    v.push(PlayerCard::RootPlayerCard(wench_bring_some_drinks_for_my_friends_card()));
    v.push(PlayerCard::RootPlayerCard(oh_i_guess_the_wench_thought_that_was_her_tip_card()));
    v.push(PlayerCard::RootPlayerCard(gambling_cheat_card("I'm winning... Honestly!")));
    v.push(PlayerCard::RootPlayerCard(gambling_cheat_card("Oops... I dropped my cards...")));
    v.push(PlayerCard::RootPlayerCard(gambling_cheat_card("Five of a kind! Does this mean I win?")));
    v.push(PlayerCard::RootPlayerCard(winning_hand_card()));
    v.push(PlayerCard::RootPlayerCard(winning_hand_card()));
    v.push(PlayerCard::InterruptPlayerCard(i_dont_think_so_card()));
    proof {
        assert forall|i: int| 0 <= i < v@.len() implies deck_card_matches(Character::Gerki, i, #[trigger] v@[i]) by {}
    }
    v
}

impl Character {
    /// The character's deck, in its printed order.
    pub fn create_deck(&self) -> (deck: Vec<PlayerCard>)
        ensures
            deck@.len() == deck_size(*self),
            forall|i: int| 0 <= i < deck@.len() ==> deck_card_matches(*self, i, #[trigger] deck@[i]),
    {
        match self {
            Character::Fiona => fiona_deck(),
            Character::Zot => zot_deck(),
            Character::Deirdre => deirdre_deck(),
            Character::Gerki => gerki_deck(),
        }
    }

    /// Whether the character is an orc. None of the characters is.
    pub fn is_orc(&self) -> (b: bool)
        ensures
            !b,
    {
        false
    }

    /// Whether the character is a troll. None of the characters is.
    pub fn is_troll(&self) -> (b: bool)
        ensures
            !b,
    {
        false
    }

    /// The character with the given name, in any case.
    pub fn from_str(input: &str) -> (r: Result<Character, String>)
        ensures
            unicode_lowercase(input@) == "fiona"@ ==> r == Ok::<Character, String>(
                Character::Fiona,
            ),
            unicode_lowercase(input@) == "zot"@ ==> r == Ok::<Character, String>(Character::Zot),
            unicode_lowercase(input@) == "deirdre"@ ==> r == Ok::<Character, String>(
                Character::Deirdre,
            ),
            unicode_lowercase(input@) == "gerki"@ ==> r == Ok::<Character, String>(
                Character::Gerki,
            ),
            unicode_lowercase(input@) != "fiona"@ && unicode_lowercase(input@) != "zot"@
                && unicode_lowercase(input@) != "deirdre"@ && unicode_lowercase(input@)
                != "gerki"@ ==> (r matches Err(e) && e@
                == "Character does not exist with specified name"@),
    {
        proof {
            reveal_strlit("fiona");
            reveal_strlit("zot");
            reveal_strlit("deirdre");
            reveal_strlit("gerki");
            assert("zot"@[0] != "fiona"@[0]);
            assert("deirdre"@[0] != "fiona"@[0] && "deirdre"@[0] != "zot"@[0]);
            assert("gerki"@[0] != "fiona"@[0] && "gerki"@[0] != "zot"@[0] && "gerki"@[0]
                != "deirdre"@[0]);
        }
        let lower = str_to_lowercase(input);
        let name = lower.as_str();
        if string_eq(name, "fiona") {
            Ok(Character::Fiona)
        } else if string_eq(name, "zot") {
            Ok(Character::Zot)
        } else if string_eq(name, "deirdre") {
            Ok(Character::Deirdre)
        } else if string_eq(name, "gerki") {
            Ok(Character::Gerki)
        } else {
            Err(String::from_str("Character does not exist with specified name"))
        }
    }
}

/// `s` with every ASCII upper-case letter made lower case.
pub open spec fn ascii_lowercase(s: Seq<char>) -> Seq<char> {
    s.map_values(|c: char| if 'A' <= c && c <= 'Z' { ((c as int) + 32) as char } else { c })
}

/// The result of `str::to_lowercase` on a text.
pub uninterp spec fn unicode_lowercase(s: Seq<char>) -> Seq<char>;

/// Calls `str::to_lowercase`. The result is named `unicode_lowercase`; for
/// a text of ASCII characters the documentation says it lowers each ASCII
/// letter and keeps every other character. The full Unicode mapping is left
/// unsaid.
#[verifier::external_body]
fn str_to_lowercase(s: &str) -> (r: String)
    ensures
        r@ == unicode_lowercase(s@),
        vstd::utf8::is_ascii_chars(s@) ==> r@ == ascii_lowercase(s@),
{
    s.to_lowercase()
}

/// Whether two texts are equal.
pub fn string_eq(a: &str, b: &str) -> (r: bool)
    ensures
        r == (a@ == b@),
{
    let sa = String::from_str(a);
    let sb = String::from_str(b);
    sa == sb
}

/// A game: its name, its players in the order they joined (each with the
/// character they selected, if any), and its game logic once started.
#[derive(Clone, Debug)]
pub struct Game {
    pub display_name: String,
    pub players: Vec<(PlayerUUID, Option<Character>)>,
    pub game_logic_or: Option<GameLogic>,
}

/// The players without `u`.
pub open spec fn without_player(
    players: Seq<(PlayerUUID, Option<Character>)>,
    u: PlayerUUID,
) -> Seq<(PlayerUUID, Option<Character>)>
    decreases players.len(),
{
    if players.len() == 0 {
        players
    } else if players.last().0 == u {
        without_player(players.drop_last(), u)
    } else {
        without_player(players.drop_last(), u).push(players.last())
    }
}

/// The players with every entry of `u` given the character `c`.
pub open spec fn with_character(
    players: Seq<(PlayerUUID, Option<Character>)>,
    u: PlayerUUID,
    c: Character,
) -> Seq<(PlayerUUID, Option<Character>)> {
    Seq::new(
        players.len(),
        |i: int|
            if players[i].0 == u {
                (u, Some(c))
            } else {
                players[i]
            },
    )
}

/// The players that selected a character, with it, in order.
pub open spec fn chosen(players: Seq<(PlayerUUID, Option<Character>)>) -> Seq<(PlayerUUID, Character)>
    decreases players.len(),
{
    if players.len() == 0 {
        Seq::empty()
    } else {
        match players.last().1 {
            Some(c) => chosen(players.drop_last()).push((players.last().0, c)),
            None => chosen(players.drop_last()),
        }
    }
}

/// The game is consistent: its game logic, if started, is.
pub open spec fn game_ok(g: Game) -> bool {
    g.game_logic_or matches Some(gl) ==> game_wf(gl@)
}

/// The game is running: started, with two or more players still in.
pub open spec fn game_running(g: Game) -> bool {
    g.game_logic_or matches Some(gl) && alive_uuids(gl@.table.players).len() > 1
}

/// The display name of `u` among `names` (meaningful when present).
pub open spec fn name_of(names: Seq<(PlayerUUID, String)>, u: PlayerUUID) -> Seq<char> {
    names[uuid_index(names, u)].1@
}

/// The players of a game have names.
pub open spec fn all_named(players: Seq<(PlayerUUID, Option<Character>)>, names: Seq<(PlayerUUID, String)>) -> bool {
    forall|i: int| 0 <= i < players.len() ==> uuid_index(names, #[trigger] players[i].0) >= 0
}

/// `after` is `before` once `u` asked to start it, with outcome `m`: only
/// the owner starts a game that is not running, once every player selected
/// a character and there are 2 to 8 of them. The players are then seated
/// in the order they joined, fresh, with no round of gambling, no
/// interrupt and an empty drink discard pile, and the owner takes the
/// first turn.
pub open spec fn game_started(before: Game, after: Game, m: Result<(), Seq<char>>, u: PlayerUUID) -> bool {
    let ps = before.players@;
    if !(ps.len() > 0 && ps[0].0 == u) {
        m == Err::<(), Seq<char>>("Must be game owner to start game"@) && after == before
    } else if game_running(before) {
        m == Err::<(), Seq<char>>("Game is already running"@) && after == before
    } else if chosen(ps).len() < ps.len() {
        m == Err::<(), Seq<char>>("Not all players have selected a character"@) && after == before
    } else if !(2 <= ps.len() <= 8) {
        m == Err::<(), Seq<char>>("Must have between 2 and 8 players"@) && after == before
    } else {
        &&& m is Ok
        &&& after.players == before.players
        &&& after.display_name == before.display_name
        &&& after.game_logic_or matches Some(gl) && {
            &&& gl.player_manager.players@.len() == ps.len()
            &&& forall|i: int|
                0 <= i < gl.player_manager.players@.len() ==> {
                    &&& (#[trigger] gl.player_manager.players@[i]).0 == chosen(ps)[i].0
                    &&& gl.player_manager.players@[i].1.is_fresh(
                        chosen(ps)[i].1,
                        starting_gold(ps.len()),
                    )
                }
            &&& gl@.table.gambling is None
            &&& gl@.stacks == Seq::<StackView>::empty()
            &&& gl@.drink_discard == Seq::<DrinkCard>::empty()
            &&& gl@.table.turn == TurnInfo {
                player_turn: ps[0].0,
                turn_phase: TurnPhase::DiscardAndDraw,
                drinks_to_order: 1,
            }
        }
    }
}

/// `after` is `before` once `u` asked to select character `c`, with
/// outcome `m`: a player of the game selects while it is not running.
pub open spec fn character_selected(
    before: Game,
    after: Game,
    m: Result<(), Seq<char>>,
    u: PlayerUUID,
    c: Character,
) -> bool {
    if uuid_index(before.players@, u) < 0 {
        m == Err::<(), Seq<char>>("Player is not in this game"@) && after == before
    } else if game_running(before) {
        m == Err::<(), Seq<char>>("Cannot change characters while game is running"@) && after
            == before
    } else {
        &&& m is Ok
        &&& after.players@ == with_character(before.players@, u, c)
        &&& after.display_name == before.display_name
        &&& after.game_logic_or == before.game_logic_or
    }
}

/// An action on the game logic leaves the game's name and players as they
/// are; on a game never started it fails with `not_running_message`.
pub open spec fn logic_action(before: Game, after: Game, m: Result<(), Seq<char>>) -> bool {
    &&& after.players == before.players
    &&& after.display_name == before.display_name
    &&& before.game_logic_or is None ==> m == Err::<(), Seq<char>>(not_running_message()) && after
        == before
    &&& before.game_logic_or is Some ==> after.game_logic_or is Some
}

/// `after` is `before` once `u` played the card at `idx` of their hand,
/// directed at `other` or not, with outcome `m` (see `spec_play_card`).
pub open spec fn card_played(
    before: Game,
    after: Game,
    m: Result<(), Seq<char>>,
    u: PlayerUUID,
    other: Option<PlayerUUID>,
    idx: int,
) -> bool {
    &&& logic_action(before, after, m)
    &&& before.game_logic_or matches Some(gl) ==> (after.game_logic_or matches Some(gl2) && (m, gl2@)
        == spec_play_card(gl@, u, other, idx))
}

/// Discarding is possible without running out of cards: the player whose
/// turn it is owns at least a full hand of cards.
pub open spec fn discard_ready(g: Game, u: PlayerUUID) -> bool {
    g.game_logic_or matches Some(gl) ==> (gl@.table.turn.player_turn == u && seated(
        gl@.table.players,
        u,
    ) ==> seat(gl@.table.players, u).card_count() >= crate::player::full_hand())
}

/// `after` is `before` once `u` discarded the cards at `indices` and drew
/// back to a full hand, with outcome `m` (see `spec_discard_and_draw`).
pub open spec fn cards_discarded(
    before: Game,
    after: Game,
    m: Result<(), Seq<char>>,
    u: PlayerUUID,
    indices: Seq<usize>,
) -> bool {
    &&& logic_action(before, after, m)
    &&& before.game_logic_or matches Some(gl) ==> (after.game_logic_or matches Some(gl2) && {
        let p = seat(gl2@.table.players, u);
        let mid = discard_at(seat(gl@.table.players, u), sort_desc(indices)).0;
        &&& (m, gl2@) == spec_discard_and_draw(gl@, u, indices, p)
        &&& m is Ok ==> drew_to_full(mid, p)
    })
}

/// Ordering a drink keeps the count of drinks to order in range.
pub open spec fn order_ready(g: Game, u: PlayerUUID, other: PlayerUUID) -> bool {
    g.game_logic_or matches Some(gl) ==> (gl@.table.turn.player_turn == u
        && gl@.table.turn.turn_phase == TurnPhase::OrderDrinks && u != other
        ==> gl@.table.turn.drinks_to_order > i32::MIN)
}

/// `after` is `before` once `u` ordered a drink for `other`, with outcome
/// `m`: only in the player's drink phase and for someone else; the drink is
/// drawn from the drink deck (see `drew_card`) and then handed over (see
/// `spec_order_after_draw`).
pub open spec fn drink_ordered(
    before: Game,
    after: Game,
    m: Result<(), Seq<char>>,
    u: PlayerUUID,
    other: PlayerUUID,
) -> bool {
    &&& logic_action(before, after, m)
    &&& before.game_logic_or matches Some(gl) ==> (after.game_logic_or matches Some(gl2) && {
        let t = gl@.table.turn;
        &&& t.player_turn != u || t.turn_phase != TurnPhase::OrderDrinks ==> m == Err::<
            (),
            Seq<char>,
        >("Cannot order drinks at this time"@) && gl2@ == gl@
        &&& t.player_turn == u && t.turn_phase == TurnPhase::OrderDrinks && u == other ==> m
            == Err::<(), Seq<char>>("Cannot order drink for yourself"@) && gl2@ == gl@
        &&& t.player_turn == u && t.turn_phase == TurnPhase::OrderDrinks && u != other ==> exists|
            drawn: Option<DrinkCard>,
            draw1: Seq<DrinkCard>,
            discard1: Seq<DrinkCard>,
        |
            #[trigger] crate::deck::drew_card(gl@.drink_draw, gl@.drink_discard, drawn, draw1, discard1)
                && (m, gl2@) == spec_order_after_draw(
                GameLogicView { drink_draw: draw1, drink_discard: discard1, ..gl@ },
                u,
                other,
                drawn,
            )
    })
}

/// `after` is `before` once `u` passed, with outcome `m` (see `spec_pass`).
pub open spec fn player_passed(before: Game, after: Game, m: Result<(), Seq<char>>, u: PlayerUUID) -> bool {
    &&& logic_action(before, after, m)
    &&& before.game_logic_or matches Some(gl) ==> (after.game_logic_or matches Some(gl2) && m
        == spec_pass(gl@, u).0 && gl2@ == spec_pass(gl@, u).1)
}

impl Game {
    /// A game with the given name, no players, not started.
    pub fn new(display_name: String) -> (g: Self)
        ensures
            g.display_name@ == display_name@,
            g.players@ == Seq::<(PlayerUUID, Option<Character>)>::empty(),
            g.game_logic_or is None,
            game_ok(g),
    {
        Game { display_name, players: Vec::new(), game_logic_or: None }
    }

    /// Whether the player is in this game.
    pub fn player_is_in_game(&self, player_uuid: &PlayerUUID) -> (b: bool)
        ensures
            b == (uuid_index(self.players@, *player_uuid) >= 0),
    {
        proof {
            lemma_uuid_index(self.players@, *player_uuid);
        }
        let mut i: usize = 0;
        while i < self.players.len()
            invariant
                i <= self.players@.len(),
                forall|j: int| 0 <= j < i ==> (#[trigger] self.players@[j]).0 != *player_uuid,
            decreases self.players@.len() - i,
        {
            if self.players[i].0 == *player_uuid {
                proof {
                    lemma_uuid_index(self.players@, *player_uuid);
                }
                return true;
            }
            i = i + 1;
        }
        false
    }

    /// The player joins the game. An error if they are already in it.
    pub fn join(&mut self, player_uuid: PlayerUUID) -> (r: Result<(), Error>)
        ensures
            uuid_index(old(self).players@, player_uuid) >= 0 ==> (r matches Err(e) && e.message@
                == "Player is already in this game"@) && *final(self) == *old(self),
            uuid_index(old(self).players@, player_uuid) < 0 ==> r is Ok && final(self).players@
                == old(self).players@.push((player_uuid, None)) && final(self).display_name
                == old(self).display_name && final(self).game_logic_or == old(self).game_logic_or,
    {
        if self.player_is_in_game(&player_uuid) {
            Err(Error::new("Player is already in this game"))
        } else {
            self.players.push((player_uuid, None));
            Ok(())
        }
    }

    /// The player leaves the game. An error if they are not in it.
    pub fn leave(&mut self, player_uuid: &PlayerUUID) -> (r: Result<(), Error>)
        ensures
            uuid_index(old(self).players@, *player_uuid) < 0 ==> (r matches Err(e) && e.message@
                == "Player is not in this game"@) && *final(self) == *old(self),
            uuid_index(old(self).players@, *player_uuid) >= 0 ==> r is Ok && final(self).players@
                == without_player(old(self).players@, *player_uuid) && final(self).display_name
                == old(self).display_name && final(self).game_logic_or == old(self).game_logic_or,
    {
        if !self.player_is_in_game(player_uuid) {
            return Err(Error::new("Player is not in this game"));
        }
        let ghost ps = self.players@;
        let mut kept: Vec<(PlayerUUID, Option<Character>)> = Vec::new();
        let mut i: usize = 0;
        proof {
            assert(ps.take(0) =~= Seq::<(PlayerUUID, Option<Character>)>::empty());
        }
        while i < self.players.len()
            invariant
                ps == self.players@,
                i <= ps.len(),
                kept@ == without_player(ps.take(i as int), *player_uuid),
            decreases ps.len() - i,
        {
            proof {
                assert(ps.take(i + 1).drop_last() =~= ps.take(i as int));
            }
            if self.players[i].0 != *player_uuid {
                kept.push(self.players[i]);
            }
            i = i + 1;
        }
        proof {
            assert(ps.take(i as int) =~= ps);
        }
        self.players = kept;
        Ok(())
    }

    /// The first player to have joined, who owns the game.
    pub fn get_owner(&self) -> (r: Option<PlayerUUID>)
        ensures
            r == (if self.players@.len() > 0 {
                Some(self.players@[0].0)
            } else {
                None::<PlayerUUID>
            }),
    {
        if self.players.len() == 0 {
            None
        } else {
            Some(self.players[0].0)
        }
    }

    /// Whether the player owns the game.
    pub fn is_owner(&self, player_uuid: &PlayerUUID) -> (b: bool)
        ensures
            b == (self.players@.len() > 0 && self.players@[0].0 == *player_uuid),
    {
        match self.get_owner() {
            Some(owner_uuid) => owner_uuid == *player_uuid,
            None => false,
        }
    }

    /// Whether the game is running: started, with two or more players still
    /// in.
    pub fn is_running(&self) -> (b: bool)
        ensures
            b == game_running(*self),
    {
        match &self.game_logic_or {
            Some(game_logic) => game_logic.is_running(),
            None => false,
        }
    }

    /// Whether the game has no players.
    pub fn is_empty(&self) -> (b: bool)
        ensures
            b == (self.players@.len() == 0),
    {
        self.players.len() == 0
    }

    /// The game logic, once started.
    pub fn get_game_logic(&self) -> (r: Option<&GameLogic>)
        ensures
            r == match self.game_logic_or {
                Some(gl) => Some(&gl),
                None => None::<&GameLogic>,
            },
    {
        match &self.game_logic_or {
            Some(game_logic) => Some(game_logic),
            None => None,
        }
    }

    /// The owner starts the game with the selected characters. An error if
    /// the player is not the owner, the game is running, a player has not
    /// selected a character, or there are not 2 to 8 players.
    pub fn start(&mut self, player_uuid: &PlayerUUID) -> (r: Result<(), Error>)
        ensures
            game_started(*old(self), *final(self), res_msg(r), *player_uuid),
            game_ok(*old(self)) ==> game_ok(*final(self)),
    {
        if !self.is_owner(player_uuid) {
            return Err(Error::new("Must be game owner to start game"));
        }
        if self.is_running() {
            return Err(Error::new("Game is already running"));
        }
        let ghost ps = self.players@;
        let mut players: Vec<(PlayerUUID, Character)> = Vec::new();
        let mut i: usize = 0;
        proof {
            assert(ps.take(0) =~= Seq::<(PlayerUUID, Option<Character>)>::empty());
        }
        while i < self.players.len()
            invariant
                ps == self.players@,
                i <= ps.len(),
                players@ == chosen(ps.take(i as int)),
                players@.len() <= i,
            decreases ps.len() - i,
        {
            proof {
                assert(ps.take(i + 1).drop_last() =~= ps.take(i as int));
            }
            if let Some(character) = self.players[i].1 {
                players.push((self.players[i].0, character));
            }
            i = i + 1;
        }
        proof {
            assert(ps.take(i as int) =~= ps);
        }
        if players.len() < self.players.len() {
            return Err(Error::new("Not all players have selected a character"));
        }
        proof {
            lemma_chosen_all(ps);
        }
        let game_logic = match GameLogic::new(players) {
            Ok(game_logic) => game_logic,
            Err(err) => return Err(err),
        };
        self.game_logic_or = Some(game_logic);
        Ok(())
    }

    /// The player selects a character. An error if they are not in the
    /// game or it is running.
    pub fn select_character(&mut self, player_uuid: &PlayerUUID, character: Character) -> (r: Result<
        (),
        Error,
    >)
        ensures
            character_selected(*old(self), *final(self), res_msg(r), *player_uuid, character),
    {
        if !self.player_is_in_game(player_uuid) {
            return Err(Error::new("Player is not in this game"));
        }
        if self.is_running() {
            return Err(Error::new("Cannot change characters while game is running"));
        }
        let ghost ps = self.players@;
        let mut i: usize = 0;
        while i < self.players.len()
            invariant
                ps.len() == self.players@.len(),
                i <= ps.len(),
                self.display_name == old(self).display_name,
                self.game_logic_or == old(self).game_logic_or,
                forall|j: int|
                    0 <= j < ps.len() ==> #[trigger] self.players@[j] == if j < i {
                        with_character(ps, *player_uuid, character)[j]
                    } else {
                        ps[j]
                    },
            decreases ps.len() - i,
        {
            if self.players[i].0 == *player_uuid {
                self.players.set(i, (*player_uuid, Some(character)));
            }
            i = i + 1;
        }
        proof {
            assert(self.players@ =~= with_character(ps, *player_uuid, character));
        }
        Ok(())
    }
}

/// Every player has selected a character when as many chose as there are
/// players; then the chosen list lists them all in order.
pub proof fn lemma_chosen_all(players: Seq<(PlayerUUID, Option<Character>)>)
    requires
        chosen(players).len() >= players.len(),
    ensures
        chosen(players).len() == players.len(),
        forall|i: int|
            0 <= i < players.len() ==> players[i].1 == Some(#[trigger] chosen(players)[i].1)
                && chosen(players)[i].0 == players[i].0,
    decreases players.len(),
{
    lemma_chosen_len(players);
    if players.len() > 0 {
        let rest = players.drop_last();
        lemma_chosen_len(rest);
        lemma_chosen_all(rest);
    }
}

/// No more players chose than there are.
pub proof fn lemma_chosen_len(players: Seq<(PlayerUUID, Option<Character>)>)
    ensures
        chosen(players).len() <= players.len(),
    decreases players.len(),
{
    if players.len() > 0 {
        lemma_chosen_len(players.drop_last());
    }
}

/// The error of an action on a game that was never started.
pub open spec fn not_running_message() -> Seq<char> {
    "Game is not currently running"@
}

/// The game `entry.1`, whose identifier is `entry.0`, as listed to
/// everyone: its name, identifier and number of players.
pub open spec fn listed(entry: (GameUUID, Game)) -> ListedGameView {
    ListedGameView {
        game_name: entry.1.display_name,
        game_uuid: entry.0,
        player_count: entry.1.players@.len() as usize,
    }
}

/// `gv` is the game as shown to `u`, with the players' display names taken
/// from `names`.
pub open spec fn game_view_ok(
    gv: GameView,
    g: Game,
    u: PlayerUUID,
    names: Seq<(PlayerUUID, String)>,
) -> bool {
    &&& gv.game_name@ == g.display_name@
    &&& gv.self_player_uuid == u
    &&& gv.player_display_names@.len() == g.players@.len()
    &&& forall|i: int|
        0 <= i < g.players@.len() ==> (#[trigger] gv.player_display_names@[i]).0 == g.players@[i].0
            && gv.player_display_names@[i].1@ == name_of(names, g.players@[i].0)
    &&& gv.is_running == game_running(g)
    &&& match g.game_logic_or {
        Some(gl) => {
            &&& gv.current_turn_player_uuid == Some(gl@.table.turn.player_turn)
            &&& gv.current_turn_phase == Some(gl@.table.turn.turn_phase)
            &&& gv.can_pass == (spec_pass(gl@, u).0 is Ok)
            &&& hand_shown(gv.hand@, gl@, u)
            &&& player_data_shown(gv.player_data@, gl@)
            &&& interrupts_shown(gv.interrupts, gl@.stacks)
            &&& gv.winner_uuid == match spec_running_state(gl@.table.players) {
                GameRunningState::Running => None,
                GameRunningState::Finished(w) => w,
            }
        },
        None => {
            &&& gv.current_turn_player_uuid is None
            &&& gv.current_turn_phase is None
            &&& !gv.can_pass
            &&& gv.hand@.len() == 0
            &&& gv.player_data@.len() == 0
            &&& gv.interrupts is None
            &&& gv.winner_uuid is None
        },
    }
}

/// The display name of the player among `names`.
fn find_display_name(names: &Vec<(PlayerUUID, String)>, player_uuid: &PlayerUUID) -> (r: String)
    requires
        uuid_index(names@, *player_uuid) >= 0,
    ensures
        r@ == name_of(names@, *player_uuid),
{
    proof {
        lemma_uuid_index(names@, *player_uuid);
    }
    let mut i: usize = 0;
    while i < names.len()
        invariant
            i <= names@.len(),
            forall|j: int| 0 <= j < i ==> (#[trigger] names@[j]).0 != *player_uuid,
            0 <= uuid_index(names@, *player_uuid) < names@.len(),
            names@[uuid_index(names@, *player_uuid)].0 == *player_uuid,
            forall|j: int|
                0 <= j < uuid_index(names@, *player_uuid) ==> (#[trigger] names@[j]).0
                    != *player_uuid,
        decreases names@.len() - i,
    {
        if names[i].0 == *player_uuid {
            return names[i].1.clone();
        }
        i = i + 1;
    }
    proof {
        let k = uuid_index(names@, *player_uuid);
        assert(names@[k].0 != *player_uuid);
    }
    String::new()
}

impl Game {
    /// Whether the player may pass now; never before the game started.
    pub fn player_can_pass(&self, player_uuid: &PlayerUUID) -> (b: bool)
        requires
            game_ok(*self),
        ensures
            b == match self.game_logic_or {
                Some(gl) => spec_pass(gl@, *player_uuid).0 is Ok,
                None => false,
            },
    {
        match &self.game_logic_or {
            Some(game_logic) => game_logic.player_can_pass(player_uuid),
            None => false,
        }
    }

    /// Plays a card from the player's hand, directed at another player or
    /// not (see `spec_play_card`). An error if the game was never started.
    pub fn play_card(
        &mut self,
        player_uuid: &PlayerUUID,
        other_player_uuid_or: &Option<PlayerUUID>,
        card_index: usize,
    ) -> (r: Result<(), Error>)
        requires
            game_ok(*old(self)),
        ensures
            game_ok(*final(self)),
            card_played(
                *old(self),
                *final(self),
                res_msg(r),
                *player_uuid,
                *other_player_uuid_or,
                card_index as int,
            ),
    {
        match &mut self.game_logic_or {
            Some(game_logic) => game_logic.play_card(player_uuid, other_player_uuid_or, card_index),
            None => Err(Error::new("Game is not currently running")),
        }
    }

    /// Discards cards from the player's hand and draws back to a full hand
    /// (see `spec_discard_and_draw`). An error if the game was never started.
    pub fn discard_cards_and_draw_to_full(
        &mut self,
        player_uuid: &PlayerUUID,
        card_indices: Vec<usize>,
    ) -> (r: Result<(), Error>)
        requires
            game_ok(*old(self)),
            discard_ready(*old(self), *player_uuid),
        ensures
            game_ok(*final(self)),
            cards_discarded(*old(self), *final(self), res_msg(r), *player_uuid, card_indices@),
    {
        match &mut self.game_logic_or {
            Some(game_logic) => game_logic.discard_cards_and_draw_to_full(player_uuid, card_indices),
            None => Err(Error::new("Game is not currently running")),
        }
    }

    /// Orders a drink for another player (see `GameLogic::order_drink`). An
    /// error if the game was never started.
    pub fn order_drink(&mut self, player_uuid: &PlayerUUID, other_player_uuid: &PlayerUUID) -> (r:
        Result<(), Error>)
        requires
            game_ok(*old(self)),
            order_ready(*old(self), *player_uuid, *other_player_uuid),
        ensures
            game_ok(*final(self)),
            drink_ordered(*old(self), *final(self), res_msg(r), *player_uuid, *other_player_uuid),
    {
        match &mut self.game_logic_or {
            Some(game_logic) => game_logic.order_drink(player_uuid, other_player_uuid),
            None => Err(Error::new("Game is not currently running")),
        }
    }

    /// The player passes (see `spec_pass`). An error if the game was never
    /// started.
    pub fn pass(&mut self, player_uuid: &PlayerUUID) -> (r: Result<(), Error>)
        requires
            game_ok(*old(self)),
        ensures
            game_ok(*final(self)),
            player_passed(*old(self), *final(self), res_msg(r), *player_uuid),
    {
        match &mut self.game_logic_or {
            Some(game_logic) => game_logic.pass(player_uuid),
            None => Err(Error::new("Game is not currently running")),
        }
    }

    /// The game as shown to the player, with the players' display names
    /// taken from `player_uuids_to_display_names`.
    pub fn get_game_view(
        &self,
        player_uuid: PlayerUUID,
        player_uuids_to_display_names: &Vec<(PlayerUUID, String)>,
    ) -> (r: Result<GameView, Error>)
        requires
            game_ok(*self),
            all_named(self.players@, player_uuids_to_display_names@),
        ensures
            r matches Ok(gv) && game_view_ok(gv, *self, player_uuid, player_uuids_to_display_names@),
    {
        let mut player_display_names: Vec<(PlayerUUID, String)> = Vec::new();
        let mut i: usize = 0;
        while i < self.players.len()
            invariant
                i <= self.players@.len(),
                all_named(self.players@, player_uuids_to_display_names@),
                player_display_names@.len() == i,
                forall|k: int|
                    0 <= k < i ==> (#[trigger] player_display_names@[k]).0 == self.players@[k].0
                        && player_display_names@[k].1@ == name_of(
                        player_uuids_to_display_names@,
                        self.players@[k].0,
                    ),
            decreases self.players@.len() - i,
        {
            let id = self.players[i].0;
            let name = find_display_name(player_uuids_to_display_names, &id);
            player_display_names.push((id, name));
            i = i + 1;
        }
        let gv = match &self.game_logic_or {
            Some(game_logic) => GameView {
                game_name: self.display_name.clone(),
                self_player_uuid: player_uuid,
                current_turn_player_uuid: Some(game_logic.get_turn_info().get_current_player_turn()),
                current_turn_phase: Some(game_logic.get_turn_phase()),
                can_pass: game_logic.player_can_pass(&player_uuid),
                hand: game_logic.get_game_view_player_hand(&player_uuid),
                player_data: game_logic.get_game_view_player_data_of_all_players(),
                player_display_names,
                interrupts: game_logic.get_game_view_interrupt_data_or(),
                is_running: self.is_running(),
                winner_uuid: game_logic.get_winner_or(),
            },
            None => GameView {
                game_name: self.display_name.clone(),
                self_player_uuid: player_uuid,
                current_turn_player_uuid: None,
                current_turn_phase: None,
                can_pass: false,
                hand: Vec::new(),
                player_data: Vec::new(),
                player_display_names,
                interrupts: None,
                is_running: self.is_running(),
                winner_uuid: None,
            },
        };
        Ok(gv)
    }

    /// The game as listed to everyone.
    pub fn get_listed_game_view(&self, game_uuid: GameUUID) -> (v: ListedGameView)
        ensures
            v == listed((game_uuid, *self)),
    {
        ListedGameView {
            game_name: self.display_name.clone(),
            game_uuid,
            player_count: self.players.len(),
        }
    }
}

/// With none of the players out, all of them are still in the game.
pub proof fn lemma_none_out_all_alive(players: Seq<(PlayerUUID, crate::player::PlayerView)>)
    requires
        forall|i: int| 0 <= i < players.len() ==> !(#[trigger] players[i]).1.is_out(),
    ensures
        alive_uuids(players).len() == players.len(),
    decreases players.len(),
{
    if players.len() > 0 {
        let init = players.drop_last();
        assert forall|i: int| 0 <= i < init.len() implies !(#[trigger] init[i]).1.is_out() by {
            assert(init[i] == players[i]);
        }
        lemma_none_out_all_alive(init);
        assert(!players[players.len() - 1].1.is_out());
    }
}

/// A game that the owner starts is then running, with every player still
/// in it; a refused start changes nothing.
pub proof fn law_started_game_is_running(
    before: Game,
    after: Game,
    m: Result<(), Seq<char>>,
    u: PlayerUUID,
)
    requires
        game_started(before, after, m, u),
    ensures
        m is Err ==> after == before,
        m is Ok ==> game_running(after) && alive_uuids(
            after.game_logic_or->0@.table.players,
        ).len() == before.players@.len(),
{
    if m is Ok {
        let gl = after.game_logic_or->0;
        let ps = before.players@;
        let pv = gl@.table.players;
        assert(pv.len() == ps.len());
        assert forall|i: int| 0 <= i < pv.len() implies !(#[trigger] pv[i]).1.is_out() by {
            assert(gl.player_manager.players@[i].1.is_fresh(chosen(ps)[i].1, starting_gold(ps.len())));
        }
        lemma_none_out_all_alive(pv);
    }
}

} // verus!
