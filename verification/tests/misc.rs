//! Key-bind parsing and configuration helpers.

use pog_paint::config::{data_dir, StatusPos};
use pog_paint::keybind::{classify, parse_key_bind, KeyOrButton};

#[test]
fn parse_single_key() {
    let kb = parse_key_bind(&b"A".to_vec()).expect("single key must parse");
    assert_eq!(kb.modifiers.len(), 0);
    match &kb.key {
        KeyOrButton::Key(name) => assert_eq!(name, &b"A".to_vec()),
        KeyOrButton::Mouse(_) => panic!("plain name is a key"),
    }
}

#[test]
fn parse_modifiers_and_mouse_button() {
    let kb = parse_key_bind(&b"Ctrl-Shift-MouseLeft".to_vec()).expect("bind must parse");
    assert_eq!(kb.modifiers.len(), 2);
    assert_eq!(kb.modifiers[0], b"Ctrl".to_vec());
    assert_eq!(kb.modifiers[1], b"Shift".to_vec());
    match &kb.key {
        KeyOrButton::Mouse(name) => assert_eq!(name, &b"Left".to_vec()),
        KeyOrButton::Key(_) => panic!("Mouse prefix names a button"),
    }
}

#[test]
fn parse_rejects_malformed_binds() {
    // Empty input, bare prefix, mouse button as a modifier, empty trigger.
    assert!(parse_key_bind(&b"".to_vec()).is_err());
    assert!(parse_key_bind(&b"Mouse".to_vec()).is_err());
    assert!(parse_key_bind(&b"MouseLeft-A".to_vec()).is_err());
    assert!(parse_key_bind(&b"A-".to_vec()).is_err());
    assert!(parse_key_bind(&b"-A".to_vec()).is_err());
}

#[test]
fn classify_tokens() {
    match classify(&b"Space".to_vec()) {
        Some(KeyOrButton::Key(name)) => assert_eq!(name, b"Space".to_vec()),
        _ => panic!("a plain name is a key"),
    }
    match classify(&b"MouseMiddle".to_vec()) {
        Some(KeyOrButton::Mouse(name)) => assert_eq!(name, b"Middle".to_vec()),
        _ => panic!("Mouse prefix names a button"),
    }
    assert!(classify(&b"".to_vec()).is_none());
    assert!(classify(&b"Mouse".to_vec()).is_none());
}

#[test]
fn data_dir_appends_data() {
    assert_eq!(data_dir("/opt/tool"), "/opt/tool/data".to_string());
    assert_eq!(data_dir(""), "/data".to_string());
}

#[test]
fn status_pos_variants() {
    assert_eq!(StatusPos::Top, StatusPos::Top);
    assert!(StatusPos::Top != StatusPos::Bottom);
}
