use poker::normalize_input_cards;

#[test]
fn normalize_input_cards_with_quit() {
    assert_eq!(Ok(None), normalize_input_cards("done", 0));
    assert_eq!(Ok(None), normalize_input_cards("exit", 0));
    assert_eq!(Ok(None), normalize_input_cards("quit", 0));
    assert_eq!(Ok(None), normalize_input_cards("DONE", 0));
    assert_eq!(Ok(None), normalize_input_cards("EXIT", 0));
    assert_eq!(Ok(None), normalize_input_cards("QUIT", 0));
}

#[test]
fn normalize_input_cards_with_invalid_input() {
    assert_eq!(Ok(None), normalize_input_cards("done", 0));
    assert_eq!(Ok(None), normalize_input_cards("EXIT", 0));
    assert_eq!(Ok(None), normalize_input_cards("qUiT", 0));
}

#[test]
fn normalize_input_cards_with_two_cards() {
    assert_eq!(
        Ok(Some(vec!["As".to_string(), "Kd".to_string()])),
        normalize_input_cards("As Kd", 2)
    );
}

#[test]
fn normalize_input_cards_with_mixed_case_and_blanks() {
    assert_eq!(
        Ok(Some(vec!["Th".to_string(), "2c".to_string(), "Qs".to_string()])),
        normalize_input_cards("  tH 2C   qs ", 3)
    );
}

#[test]
fn normalize_input_cards_without_blank_between_cards() {
    assert_eq!(
        Ok(Some(vec!["As".to_string(), "Kd".to_string()])),
        normalize_input_cards("AsKd", 2)
    );
}

#[test]
fn normalize_input_cards_with_rank_without_suit() {
    assert!(normalize_input_cards("As K", 2).is_err());
    assert!(normalize_input_cards("A K", 2).is_err());
    assert!(normalize_input_cards("AKd", 2).is_err());
}

#[test]
fn normalize_input_cards_with_suit_without_rank() {
    assert!(normalize_input_cards("s Kd", 2).is_err());
    assert!(normalize_input_cards("Asd", 2).is_err());
}

#[test]
fn normalize_input_cards_with_foreign_character() {
    assert!(normalize_input_cards("As K*", 2).is_err());
    assert!(normalize_input_cards("A\u{e9}", 1).is_err());
    assert!(normalize_input_cards("1s", 1).is_err());
}

#[test]
fn normalize_input_cards_with_wrong_count() {
    assert!(normalize_input_cards("As", 2).is_err());
    assert!(normalize_input_cards("As Kd Qh", 2).is_err());
    assert!(normalize_input_cards("", 1).is_err());
}

#[test]
fn normalize_input_cards_with_empty_line_expecting_none() {
    assert_eq!(Ok(Some(vec![])), normalize_input_cards("   ", 0));
}
