use humboldti_note::action::{display_key, resolve, Action, KeyMap, KeyMapError, Mode};
use humboldti_note::config::KeysConfig;
use humboldti_note::keys::{KeyCode, KeyEvent, KeyModifiers};

fn key(code: KeyCode) -> KeyEvent {
    KeyEvent { code, modifiers: KeyModifiers::none() }
}

fn with(modifiers: KeyModifiers, code: KeyCode) -> KeyEvent {
    KeyEvent { code, modifiers }
}

fn shift() -> KeyModifiers {
    KeyModifiers { shift: true, ..KeyModifiers::none() }
}

fn control() -> KeyModifiers {
    KeyModifiers { control: true, ..KeyModifiers::none() }
}

fn alt() -> KeyModifiers {
    KeyModifiers { alt: true, ..KeyModifiers::none() }
}

fn default_keymap() -> KeyMap {
    KeyMap::from_config(&KeysConfig::default()).unwrap()
}

#[test]
fn hjkl_and_arrows_resolve_to_the_same_actions() {
    let m = default_keymap();
    assert_eq!(
        resolve(&m, key(KeyCode::Char('h')), Mode::Calendar),
        resolve(&m, key(KeyCode::Left), Mode::Calendar)
    );
    assert_eq!(
        resolve(&m, key(KeyCode::Char('l')), Mode::Calendar),
        resolve(&m, key(KeyCode::Right), Mode::Calendar)
    );
    assert_eq!(
        resolve(&m, key(KeyCode::Char('k')), Mode::Calendar),
        resolve(&m, key(KeyCode::Up), Mode::Calendar)
    );
    assert_eq!(
        resolve(&m, key(KeyCode::Char('j')), Mode::Calendar),
        resolve(&m, key(KeyCode::Down), Mode::Calendar)
    );
    assert_eq!(resolve(&m, key(KeyCode::Char('h')), Mode::Calendar), Some(Action::PrevDay));
    assert_eq!(resolve(&m, key(KeyCode::Char('l')), Mode::Calendar), Some(Action::NextDay));
    assert_eq!(resolve(&m, key(KeyCode::Char('k')), Mode::Calendar), Some(Action::PrevWeek));
    assert_eq!(resolve(&m, key(KeyCode::Char('j')), Mode::Calendar), Some(Action::NextWeek));
}

#[test]
fn enter_opens_and_q_or_esc_quits() {
    let m = default_keymap();
    assert_eq!(resolve(&m, key(KeyCode::Enter), Mode::Calendar), Some(Action::Open));
    assert_eq!(resolve(&m, key(KeyCode::Char('q')), Mode::Calendar), Some(Action::Quit));
    assert_eq!(resolve(&m, key(KeyCode::Esc), Mode::Calendar), Some(Action::Quit));
}

#[test]
fn brackets_jump_by_month_and_year() {
    let m = default_keymap();
    assert_eq!(resolve(&m, key(KeyCode::Char('[')), Mode::Calendar), Some(Action::PrevMonth));
    assert_eq!(resolve(&m, key(KeyCode::Char(']')), Mode::Calendar), Some(Action::NextMonth));
    assert_eq!(resolve(&m, key(KeyCode::Char('{')), Mode::Calendar), Some(Action::PrevYear));
    assert_eq!(resolve(&m, key(KeyCode::Char('}')), Mode::Calendar), Some(Action::NextYear));
}

#[test]
fn unknown_key_resolves_to_none() {
    let m = default_keymap();
    assert_eq!(resolve(&m, key(KeyCode::Char('x')), Mode::Calendar), None);
}

#[test]
fn slash_enters_search_from_calendar() {
    let m = default_keymap();
    assert_eq!(resolve(&m, key(KeyCode::Char('/')), Mode::Calendar), Some(Action::EnterSearch));
}

#[test]
fn search_input_treats_letters_as_text() {
    let m = default_keymap();
    assert_eq!(resolve(&m, key(KeyCode::Char('j')), Mode::SearchInput), Some(Action::InputChar('j')));
    assert_eq!(resolve(&m, key(KeyCode::Char('あ')), Mode::SearchInput), Some(Action::InputChar('あ')));
    assert_eq!(resolve(&m, key(KeyCode::Backspace), Mode::SearchInput), Some(Action::Backspace));
    assert_eq!(resolve(&m, key(KeyCode::Enter), Mode::SearchInput), Some(Action::Confirm));
    assert_eq!(resolve(&m, key(KeyCode::Esc), Mode::SearchInput), Some(Action::Cancel));
}

#[test]
fn search_results_uses_jk_for_navigation_not_text() {
    let m = default_keymap();
    assert_eq!(resolve(&m, key(KeyCode::Char('j')), Mode::SearchResults), Some(Action::NextResult));
    assert_eq!(resolve(&m, key(KeyCode::Char('k')), Mode::SearchResults), Some(Action::PrevResult));
    assert_eq!(resolve(&m, key(KeyCode::Enter), Mode::SearchResults), Some(Action::Confirm));
    assert_eq!(resolve(&m, key(KeyCode::Char('q')), Mode::SearchResults), Some(Action::Cancel));
}

#[test]
fn custom_binding_overrides_the_default() {
    let mut cfg = KeysConfig::default();
    cfg.calendar.insert("next_day".to_string(), vec!["n".to_string()]);
    let m = KeyMap::from_config(&cfg).unwrap();

    assert_eq!(resolve(&m, key(KeyCode::Char('n')), Mode::Calendar), Some(Action::NextDay));
    assert_eq!(resolve(&m, key(KeyCode::Char('l')), Mode::Calendar), None);
}

#[test]
fn uppercase_bindings_match_the_shifted_event_crossterm_sends() {
    let mut cfg = KeysConfig::default();
    cfg.calendar.insert("next_month".to_string(), vec!["N".to_string()]);
    cfg.calendar.insert("prev_month".to_string(), vec!["shift-p".to_string()]);
    let m = KeyMap::from_config(&cfg).unwrap();

    assert_eq!(resolve(&m, with(shift(), KeyCode::Char('N')), Mode::Calendar), Some(Action::NextMonth));
    assert_eq!(resolve(&m, with(shift(), KeyCode::Char('P')), Mode::Calendar), Some(Action::PrevMonth));
    assert_eq!(resolve(&m, key(KeyCode::Char('h')), Mode::Calendar), Some(Action::PrevDay));
}

#[test]
fn uppercase_and_shift_forms_of_one_key_conflict() {
    let mut cfg = KeysConfig::default();
    cfg.calendar.insert("next_month".to_string(), vec!["G".to_string()]);
    cfg.calendar.insert("prev_month".to_string(), vec!["shift-g".to_string()]);

    assert!(matches!(KeyMap::from_config(&cfg), Err(KeyMapError::Conflict { .. })));
}

#[test]
fn help_items_show_the_default_keys() {
    let m = default_keymap();
    assert_eq!(
        m.help_items(Mode::Calendar),
        ["h l: day", "k j: week", "[ ]: month", "{ }: year", "/: search", "Enter: open", "q: quit"]
    );
    assert_eq!(m.help_items(Mode::SearchInput), ["Enter: search", "Esc: cancel"]);
    assert_eq!(m.help_items(Mode::SearchResults), ["j k: move", "Enter: open", "q: back"]);
}

#[test]
fn help_items_follow_rebound_and_unbound_keys() {
    let mut cfg = KeysConfig::default();
    cfg.calendar.insert("next_day".to_string(), vec!["n".to_string()]);
    cfg.calendar.insert("open".to_string(), vec![]);
    cfg.calendar.insert("quit".to_string(), vec!["ctrl-q".to_string()]);
    let m = KeyMap::from_config(&cfg).unwrap();

    let items = m.help_items(Mode::Calendar);
    assert!(items.contains(&"h n: day".to_string()));
    assert!(items.contains(&"Ctrl-q: quit".to_string()));
    assert!(!items.iter().any(|item| item.ends_with(": open")));
}

#[test]
fn display_key_capitalizes_names_but_not_single_characters() {
    assert_eq!(display_key("enter"), "Enter");
    assert_eq!(display_key("ctrl-shift-tab"), "Ctrl-Shift-Tab");
    assert_eq!(display_key("ctrl-a"), "Ctrl-a");
    assert_eq!(display_key("G"), "G");
    assert_eq!(display_key("g"), "g");
    assert_eq!(display_key("/"), "/");
}

#[test]
fn ctrl_c_quits_from_every_screen() {
    let m = default_keymap();
    let ctrl_c = with(control(), KeyCode::Char('c'));
    for mode in [Mode::Calendar, Mode::SearchInput, Mode::SearchResults] {
        assert_eq!(resolve(&m, ctrl_c, mode), Some(Action::Quit));
    }
}

#[test]
fn ctrl_and_alt_keys_are_not_typed_into_the_search_query() {
    let m = default_keymap();
    for modifiers in [control(), alt()] {
        assert_eq!(resolve(&m, with(modifiers, KeyCode::Char('x')), Mode::SearchInput), None);
    }
    assert_eq!(
        resolve(&m, with(shift(), KeyCode::Char('X')), Mode::SearchInput),
        Some(Action::InputChar('X'))
    );
}

#[test]
fn binding_ctrl_c_is_a_startup_error() {
    let mut cfg = KeysConfig::default();
    cfg.calendar.insert("open".to_string(), vec!["ctrl-c".to_string()]);

    assert!(matches!(KeyMap::from_config(&cfg), Err(KeyMapError::Reserved { .. })));
}

#[test]
fn conflicting_bindings_in_the_same_mode_are_a_startup_error() {
    let mut cfg = KeysConfig::default();
    cfg.calendar.insert("next_day".to_string(), vec!["h".to_string()]);

    assert!(matches!(KeyMap::from_config(&cfg), Err(KeyMapError::Conflict { .. })));
}

#[test]
fn invalid_key_spec_is_a_startup_error() {
    let mut cfg = KeysConfig::default();
    cfg.calendar.insert("next_day".to_string(), vec!["ctrl-".to_string()]);

    assert!(matches!(KeyMap::from_config(&cfg), Err(KeyMapError::InvalidKey { .. })));
}

#[test]
fn unknown_action_names_in_config_are_ignored_here() {
    let mut cfg = KeysConfig::default();
    cfg.calendar.insert("nxet_day".to_string(), vec!["n".to_string()]);

    assert!(KeyMap::from_config(&cfg).is_ok());
}

#[test]
fn a_rebound_key_works_on_its_own_screen_only() {
    let mut cfg = KeysConfig::default();
    cfg.search_results.insert("next_result".to_string(), vec!["n".to_string()]);
    let m = KeyMap::from_config(&cfg).unwrap();

    assert_eq!(resolve(&m, key(KeyCode::Char('n')), Mode::SearchResults), Some(Action::NextResult));
    assert_eq!(resolve(&m, key(KeyCode::Char('j')), Mode::SearchResults), None);
    assert_eq!(resolve(&m, key(KeyCode::Char('j')), Mode::Calendar), Some(Action::NextWeek));
}

#[test]
fn the_same_key_may_serve_different_screens() {
    let mut cfg = KeysConfig::default();
    cfg.search_input.insert("confirm".to_string(), vec!["tab".to_string()]);
    let m = KeyMap::from_config(&cfg).unwrap();

    assert_eq!(resolve(&m, key(KeyCode::Tab), Mode::SearchInput), Some(Action::Confirm));
    assert_eq!(resolve(&m, key(KeyCode::Enter), Mode::SearchResults), Some(Action::Confirm));
}

#[test]
fn startup_errors_name_the_key_and_the_table() {
    let mut cfg = KeysConfig::default();
    cfg.calendar.insert("open".to_string(), vec!["ctrl-c".to_string()]);
    let err = KeyMap::from_config(&cfg).err().unwrap();
    assert_eq!(err.message(), "key `ctrl-c` bound to `open` in [keys.calendar] is reserved: ctrl-c always quits");

    let mut cfg = KeysConfig::default();
    cfg.calendar.insert("next_day".to_string(), vec!["h".to_string()]);
    let err = KeyMap::from_config(&cfg).err().unwrap();
    assert_eq!(err.message(), "key `h` in [keys.calendar] is bound to both `prev_day` and `next_day`");

    let mut cfg = KeysConfig::default();
    cfg.search_results.insert("confirm".to_string(), vec!["meta-x".to_string()]);
    let err = KeyMap::from_config(&cfg).err().unwrap();
    assert_eq!(
        err.message(),
        "invalid key `meta-x` bound to `confirm` in [keys.search_results]: unknown modifier `meta`, expected `ctrl`, `alt`, or `shift`"
    );
}
