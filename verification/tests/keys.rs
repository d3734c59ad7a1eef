use humboldti_note::keys::{normalize, parse, Key, KeyCode, KeyModifiers, KeyParseError};

fn plain(code: KeyCode) -> Key {
    Key { code, modifiers: KeyModifiers::none() }
}

#[test]
fn parses_a_bare_char() {
    assert_eq!(parse("h").unwrap(), plain(KeyCode::Char('h')));
}

#[test]
fn parses_named_keys() {
    assert_eq!(parse("left").unwrap(), plain(KeyCode::Left));
    assert_eq!(parse("enter").unwrap(), plain(KeyCode::Enter));
}

#[test]
fn parses_a_modifier_prefix() {
    assert_eq!(
        parse("ctrl-a").unwrap(),
        Key { code: KeyCode::Char('a'), modifiers: KeyModifiers { control: true, ..KeyModifiers::none() } }
    );
}

#[test]
fn parses_stacked_modifiers() {
    assert_eq!(
        parse("ctrl-shift-tab").unwrap(),
        Key { code: KeyCode::Tab, modifiers: KeyModifiers { control: true, shift: true, ..KeyModifiers::none() } }
    );
}

#[test]
fn parses_punctuation_as_a_char() {
    assert_eq!(parse("/").unwrap(), plain(KeyCode::Char('/')));
    assert_eq!(parse("[").unwrap(), plain(KeyCode::Char('[')));
}

#[test]
fn uppercase_and_shift_forms_parse_to_the_same_key() {
    let expected = plain(KeyCode::Char('G'));
    assert_eq!(parse("G").unwrap(), expected);
    assert_eq!(parse("shift-g").unwrap(), expected);
    assert_eq!(parse("shift-G").unwrap(), expected);
}

#[test]
fn normalize_keeps_shift_on_non_char_keys() {
    let shift = KeyModifiers { shift: true, ..KeyModifiers::none() };
    assert_eq!(normalize(KeyCode::Tab, shift), Key { code: KeyCode::Tab, modifiers: shift });
}

#[test]
fn rejects_empty_spec() {
    assert!(matches!(parse(""), Err(KeyParseError::Empty)));
}

#[test]
fn rejects_unknown_modifier() {
    assert!(matches!(parse("meta-a"), Err(KeyParseError::UnknownModifier(m)) if m == "meta"));
}

#[test]
fn rejects_multi_char_key_name() {
    assert!(matches!(parse("xyz"), Err(KeyParseError::UnknownKey(_))));
}

#[test]
fn space_names_the_space_bar() {
    assert_eq!(parse("space").unwrap(), plain(KeyCode::Char(' ')));
}

#[test]
fn normalize_folds_shift_into_the_character() {
    let shift = KeyModifiers { shift: true, ..KeyModifiers::none() };
    assert_eq!(normalize(KeyCode::Char('g'), shift), plain(KeyCode::Char('G')));
    assert_eq!(normalize(KeyCode::Char('G'), shift), plain(KeyCode::Char('G')));
}

#[test]
fn parse_errors_explain_themselves() {
    assert_eq!(parse("").unwrap_err().message(), "key spec is empty");
    assert_eq!(parse("xyz").unwrap_err().message(), "unknown key name `xyz`");
}

#[test]
fn shift_on_ascii_letters_gives_the_capital() {
    let shift = KeyModifiers { shift: true, ..KeyModifiers::none() };
    assert_eq!(normalize(KeyCode::Char('q'), shift), Key { code: KeyCode::Char('Q'), modifiers: KeyModifiers::none() });
    assert_eq!(normalize(KeyCode::Char('1'), shift), Key { code: KeyCode::Char('1'), modifiers: KeyModifiers::none() });
}
