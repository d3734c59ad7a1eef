use humboldti_note::config::{
    annotate_default_config, app_config_dir, config_file_path, unknown_config_keys, Config, KeyPath,
    KeysConfig, HEADER_COMMENT,
};

fn path(keys: &[&str], is_table: bool) -> KeyPath {
    KeyPath { keys: keys.iter().map(|k| k.to_string()).collect(), is_table }
}

#[test]
fn expand_tilde_resolves_to_home_dir() {
    let notes_dir = Config::default().notes_dir;
    assert!(notes_dir.starts_with('/'));
    assert!(notes_dir.ends_with("notes"));
    assert!(!notes_dir.starts_with('~'));
}

#[test]
fn app_config_dir_appends_app_name() {
    assert_eq!(app_config_dir("/home/someone/.config"), "/home/someone/.config/pen");
}

#[test]
fn config_file_path_is_inside_the_app_dir() {
    assert_eq!(config_file_path("/home/someone/.config"), "/home/someone/.config/pen/config.toml");
    assert_eq!(config_file_path("/xdg/"), "/xdg/pen/config.toml");
}

#[test]
fn default_config_has_the_documented_values() {
    let config = Config::default();
    assert_eq!(config.merge_window_minutes, 30);
    assert_eq!(config.editor, "");
}

#[test]
fn default_config_serializes_the_documented_calendar_binding() {
    let keys = KeysConfig::default();
    let next_day = keys.calendar.get("next_day").unwrap();
    assert_eq!(next_day, &vec!["l".to_string(), "right".to_string()]);
}

#[test]
fn warn_unknown_keys_detects_unrecognized_top_level_key() {
    let known = vec![path(&["notes_dir"], false), path(&["bogus"], false)];
    let raw = vec![path(&["notes_dir"], false), path(&["bogus_key"], false)];
    assert_eq!(unknown_config_keys(&raw, &known), vec!["bogus_key".to_string()]);
}

#[test]
fn warn_unknown_keys_detects_a_typo_inside_a_keys_section() {
    let known = vec![
        path(&["notes_dir"], false),
        path(&["keys"], true),
        path(&["keys", "calendar"], true),
        path(&["keys", "calendar", "next_day"], false),
    ];
    let raw = vec![
        path(&["notes_dir"], false),
        path(&["keys"], true),
        path(&["keys", "calendar"], true),
        path(&["keys", "calendar", "nxet_day"], false),
    ];
    assert_eq!(unknown_config_keys(&raw, &known), vec!["keys.calendar.nxet_day".to_string()]);
}

#[test]
fn rendered_default_config_is_commented_but_still_parses_to_the_real_defaults() {
    let toml = "notes_dir = \"/home/x/notes\"\nmerge_window_minutes = 30\neditor = \"\"\n\n[keys.calendar]\nnext_day = [\"l\"]\n";
    let rendered = annotate_default_config(toml);

    assert!(rendered.contains("# Humboldti Note config file"));
    assert!(rendered.contains("# Where daily notes are written"));
    assert!(rendered.contains("# Command (with any arguments) used to open a note"));
    assert!(rendered.contains("# Keybindings for `pen cal`"));
    assert!(rendered.starts_with(HEADER_COMMENT));

    let without_comments: Vec<&str> = rendered.lines().filter(|l| !l.starts_with('#')).collect();
    let original: Vec<&str> = toml.lines().collect();
    assert_eq!(without_comments[1..], original[..]);
}

#[test]
fn unknown_keys_are_read_from_the_file_text() {
    let known = humboldti_note::config::key_paths_in("notes_dir = \"/x\"\n[keys.calendar]\nnext_day = [\"l\"]\n").unwrap();
    assert_eq!(known.len(), 4);
    let unknown =
        humboldti_note::config::unknown_keys_in("notes_dir = \"/y\"\nbogus = 1\n[keys.calendar]\nnxet_day = [\"n\"]\n", &known)
            .unwrap();
    assert_eq!(unknown, vec!["bogus".to_string(), "keys.calendar.nxet_day".to_string()]);
    assert!(humboldti_note::config::unknown_keys_in("notes_dir = ", &known).is_err());
}

#[test]
fn a_tilde_naming_another_user_is_kept() {
    assert_eq!(humboldti_note::config::expanded_path("~other/notes"), "~other/notes");
    assert_eq!(humboldti_note::config::expanded_path("/abs/notes"), "/abs/notes");
}
