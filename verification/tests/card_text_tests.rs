use tavern_game::drink::{simple_drink, DrinkWithPossibleChasers};
use tavern_game::interrupt_manager::{GameInterruptType, PlayerCardInfo};
use tavern_game::player_card::ignore_root_card_affecting_fortitude;
use tavern_game::player_card::{
    change_all_other_player_fortitude_card, change_other_player_fortitude_card,
    gain_fortitude_anytime_card, PlayerCard,
};
use tavern_game::text::{decimal_string, signed_decimal_string};

#[test]
fn fortitude_card_descriptions_name_the_amount() {
    assert_eq!(
        change_other_player_fortitude_card("Punch", -2).display_description,
        "Pick another player. They lose 2 Fortitude."
    );
    assert_eq!(
        change_other_player_fortitude_card("Hug", 3).display_description,
        "Pick another player. They gain 3 Fortitude."
    );
    assert_eq!(
        change_all_other_player_fortitude_card("Brawl", -1).display_description,
        "Each other player loses 1 Fortitude."
    );
    assert_eq!(
        change_all_other_player_fortitude_card("Round", 12).display_description,
        "Each other player gains 12 Fortitude."
    );
    assert_eq!(
        gain_fortitude_anytime_card("Heal", 2).display_description,
        "Gain 2 Fortitude."
    );
    assert_eq!(
        gain_fortitude_anytime_card("Curse", -3).display_description,
        "Gain -3 Fortitude."
    );
    assert_eq!(
        gain_fortitude_anytime_card("Doom", i32::MIN).display_description,
        "Gain -2147483648 Fortitude."
    );
}

#[test]
fn cards_show_their_name_and_description() {
    let card: PlayerCard = change_other_player_fortitude_card("Punch", -2).into();
    assert_eq!(card.get_display_name(), "Punch");
    assert_eq!(
        card.get_display_description(),
        "Pick another player. They lose 2 Fortitude."
    );
}

#[test]
fn numbers_are_written_in_decimal() {
    assert_eq!(decimal_string(0), "0");
    assert_eq!(decimal_string(4294967295), "4294967295");
    assert_eq!(signed_decimal_string(0), "0");
    assert_eq!(signed_decimal_string(-7), "-7");
    assert_eq!(signed_decimal_string(i32::MAX), "2147483647");
}

#[test]
fn drink_with_chasers_display_name_joins_names_without_trailing_separator() {
    let two = DrinkWithPossibleChasers::new(
        vec![
            simple_drink("Wine", 2, 0, false),
            simple_drink("Water", 0, 0, false),
        ],
        None,
    );
    assert_eq!(two.get_display_name(), "[Wine, Water]");
    let one = DrinkWithPossibleChasers::new(vec![simple_drink("Wine", 2, 0, false)], None);
    assert_eq!(one.get_display_name(), "[Wine]");
    let none = DrinkWithPossibleChasers::new(Vec::new(), None);
    assert_eq!(none.get_display_name(), "[]");
}

#[test]
fn ignore_fortitude_card_answers_action_and_sometimes_cards() {
    let card = ignore_root_card_affecting_fortitude("Ignore");
    let hits = PlayerCardInfo {
        affects_fortitude: true,
        is_i_dont_think_so_card: false,
    };
    let misses = PlayerCardInfo {
        affects_fortitude: false,
        is_i_dont_think_so_card: false,
    };
    assert!(card.can_interrupt(GameInterruptType::DirectedActionCardPlayed(hits)));
    assert!(card.can_interrupt(GameInterruptType::SometimesCardPlayed(hits)));
    assert!(!card.can_interrupt(GameInterruptType::DirectedActionCardPlayed(misses)));
    assert!(!card.can_interrupt(GameInterruptType::SometimesCardPlayed(misses)));
    assert!(!card.can_interrupt(GameInterruptType::AboutToAnte));
    assert!(!card.can_interrupt(GameInterruptType::AboutToDrink));
}
