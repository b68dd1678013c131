use tavern_game::{GameUUID, PlayerUUID};

#[test]
fn can_convert_to_and_from_string() {
    let test_uuid = PlayerUUID::new();
    assert_eq!(
        test_uuid,
        PlayerUUID::from_str(&test_uuid.to_string()).unwrap()
    );

    // Stringified version is a 32-character hex string.
    assert!(PlayerUUID::from_str("1bc68e20bad1456dab8039137094ca6d").is_ok());
}

#[test]
fn generates_unique_ids() {
    let test_uuid_1 = PlayerUUID::new();
    assert!(test_uuid_1 == test_uuid_1.clone()); // Sanity check.
    let test_uuid_2 = PlayerUUID::new();
    assert!(test_uuid_1 != test_uuid_2);
}

#[test]
fn uuid_text_is_32_lower_case_hex_digits_most_significant_first() {
    let id = PlayerUUID::from_u128(0x1bc68e20bad1456dab8039137094ca6d);
    assert_eq!(id.to_string(), "1bc68e20bad1456dab8039137094ca6d");
    let small = GameUUID::from_u128(255);
    assert_eq!(small.to_string(), "000000000000000000000000000000ff");
}

#[test]
fn uuid_parses_either_case_and_round_trips() {
    let upper = PlayerUUID::from_str("1BC68E20BAD1456DAB8039137094CA6D").unwrap();
    assert_eq!(upper, PlayerUUID::from_u128(0x1bc68e20bad1456dab8039137094ca6d));
    let g = GameUUID::from_u128(0x0123456789abcdef0011223344556677);
    assert_eq!(GameUUID::from_str(&g.to_string()).unwrap(), g);
}

#[test]
fn uuid_rejects_text_that_is_not_an_identifier() {
    let err = PlayerUUID::from_str("not a uuid").unwrap_err();
    assert_eq!(err.message, "Not a valid UUID");
    assert!(GameUUID::from_str("1bc68e20bad1456dab8039137094ca6").is_err());
    assert!(GameUUID::from_str("").is_err());
}

#[test]
fn fresh_ids_are_random_version_4_uuids() {
    for _ in 0..50 {
        let player_text = PlayerUUID::new().to_string();
        let game_text = GameUUID::new().to_string();
        for text in [player_text, game_text] {
            let chars: Vec<char> = text.chars().collect();
            assert_eq!(chars[12], '4');
            assert!(['8', '9', 'a', 'b'].contains(&chars[16]));
        }
    }
}

#[test]
fn uuid_parses_hyphenated_and_urn_forms_only() {
    let id = PlayerUUID::from_u128(0x1bc68e20bad1456dab8039137094ca6d);
    assert_eq!(
        PlayerUUID::from_str("1bc68e20-bad1-456d-ab80-39137094ca6d").unwrap(),
        id
    );
    assert_eq!(
        PlayerUUID::from_str("urn:uuid:1BC68E20-BAD1-456D-AB80-39137094CA6D").unwrap(),
        id
    );
    // Hyphens in the wrong places, a URN prefix in upper case, or a URN
    // around the simple form are refused.
    assert!(PlayerUUID::from_str("1bc68e2-0bad1-456d-ab80-39137094ca6d").is_err());
    assert!(PlayerUUID::from_str("URN:UUID:1bc68e20-bad1-456d-ab80-39137094ca6d").is_err());
    assert!(PlayerUUID::from_str("urn:uuid:1bc68e20bad1456dab8039137094ca6d").is_err());
    assert!(PlayerUUID::from_str("1bc68e20-bad1-456d-ab80-39137094ca6g").is_err());
}
