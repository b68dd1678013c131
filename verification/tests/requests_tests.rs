use tavern_game::requests::{
    api_not_found_message, not_found_page_of, parse_usize_piece, parse_usize_vec, NotFoundPage,
};

fn parse(text: &str) -> Result<Vec<usize>, String> {
    parse_usize_vec(Some(text.to_string())).map_err(|e| e.message)
}

#[test]
fn no_list_is_an_empty_list() {
    assert_eq!(parse_usize_vec(None), Ok(Vec::new()));
}

#[test]
fn comma_separated_numbers_are_read_in_order() {
    assert_eq!(parse("1,2,3"), Ok(vec![1, 2, 3]));
    assert_eq!(parse("7"), Ok(vec![7]));
    assert_eq!(parse("+4,05,0"), Ok(vec![4, 5, 0]));
}

#[test]
fn a_piece_that_is_not_a_number_fails_the_list() {
    let error = Err("Unable to parse items".to_string());
    assert_eq!(parse(""), error);
    assert_eq!(parse("1,,2"), error);
    assert_eq!(parse("1,2,"), error);
    assert_eq!(parse("-1"), error);
    assert_eq!(parse("1, 2"), error);
    assert_eq!(parse("+"), error);
    assert_eq!(parse("x"), error);
    assert_eq!(parse("٣"), error);
}

#[test]
fn numbers_must_fit_a_machine_integer() {
    let max = usize::MAX.to_string();
    assert_eq!(parse(&max), Ok(vec![usize::MAX]));
    let too_big = format!("{}0", max);
    assert_eq!(parse(&too_big), Err("Unable to parse items".to_string()));
    let digits: Vec<char> = "99999999999999999999999".chars().collect();
    assert_eq!(parse_usize_piece(&digits), None);
}

#[test]
fn single_pieces_read_like_the_standard_parser() {
    for text in ["0", "12", "+12", "007", "", "+", "-0", "1a", " 1"] {
        let chars: Vec<char> = text.chars().collect();
        assert_eq!(parse_usize_piece(&chars), text.parse::<usize>().ok(), "{}", text);
    }
}

#[test]
fn unknown_paths_are_answered_by_kind() {
    assert_eq!(not_found_page_of("/api/foo"), NotFoundPage::ApiPath);
    assert_eq!(not_found_page_of("api"), NotFoundPage::ApiPath);
    assert_eq!(not_found_page_of("//api"), NotFoundPage::ApiPath);
    assert_eq!(not_found_page_of("/api/bundle.js"), NotFoundPage::ApiPath);
    assert_eq!(not_found_page_of("/apix/foo"), NotFoundPage::Page);
    assert_eq!(not_found_page_of("/x/bundle.js"), NotFoundPage::JavaScriptBundle);
    assert_eq!(not_found_page_of("/favicon.ico"), NotFoundPage::Favicon);
    assert_eq!(not_found_page_of("/bundle.js/"), NotFoundPage::Page);
    assert_eq!(not_found_page_of("/"), NotFoundPage::Page);
    assert_eq!(not_found_page_of(""), NotFoundPage::Page);
    assert_eq!(not_found_page_of("/game/abc"), NotFoundPage::Page);
}

#[test]
fn unknown_api_paths_get_a_message_naming_them() {
    assert_eq!(
        api_not_found_message("/api/nothing"),
        "404 - API path '/api/nothing' does not exist!"
    );
}
