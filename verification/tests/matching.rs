//! Matcher behaviour: modifier aliasing, additive modifiers, literal-key
//! conjunction, and consumption of matched keys.

use hotkeys_core::hotkey::Hotkey;
use hotkeys_core::keystate::KeyState;
use hotkeys_core::matcher::{first_match, hotkey_matches, match_and_consume};

fn pressed(keys: &[&str]) -> KeyState {
    let mut s = KeyState::new();
    for k in keys {
        s.key_down(String::from(*k));
    }
    s
}

#[test]
fn modifier_alias_left_right_or_both() {
    let h = Hotkey::new("ctrl+k");
    assert!(hotkey_matches(&h, &pressed(&["controlleft", "k"])));
    assert!(hotkey_matches(&h, &pressed(&["controlright", "k"])));
    assert!(hotkey_matches(&h, &pressed(&["controlleft", "controlright", "k"])));
    assert!(!hotkey_matches(&h, &pressed(&["k"])));

    let h = Hotkey::new("shift+k");
    assert!(hotkey_matches(&h, &pressed(&["shiftleft", "k"])));
    assert!(hotkey_matches(&h, &pressed(&["shiftright", "k"])));

    let h = Hotkey::new("alt+k");
    assert!(hotkey_matches(&h, &pressed(&["altleft", "k"])));
    assert!(hotkey_matches(&h, &pressed(&["altright", "k"])));

    let h = Hotkey::new("meta+k");
    assert!(hotkey_matches(&h, &pressed(&["metaleft", "k"])));
    assert!(hotkey_matches(&h, &pressed(&["metaright", "k"])));
}

#[test]
fn unrelated_modifiers_never_block() {
    let h = Hotkey::new("k");
    assert!(hotkey_matches(&h, &pressed(&["k", "controlleft"])));
    assert!(hotkey_matches(&h, &pressed(&["k", "shiftright", "altleft", "metaleft"])));
}

#[test]
fn literal_keys_are_a_conjunction() {
    let h = Hotkey::new("k+l");
    assert!(!hotkey_matches(&h, &pressed(&["k"])));
    assert!(hotkey_matches(&h, &pressed(&["k", "l"])));
}

#[test]
fn empty_hotkey_matches_anything() {
    let h = Hotkey { modifiers: hotkeys_core::hotkey::Modifiers::empty(), keys: Vec::new() };
    assert!(hotkey_matches(&h, &pressed(&[])));
    assert!(hotkey_matches(&h, &pressed(&["controlleft", "q"])));
}

#[test]
fn successful_match_consumes_literal_keys_only() {
    let h = Hotkey::new("ctrl+s");
    let mut s = pressed(&["controlleft", "s"]);
    assert!(match_and_consume(&h, &mut s));
    for e in &s.entries {
        if e.key == "s" {
            assert!(e.consumed);
        } else {
            assert!(!e.consumed, "{} must not be consumed", e.key);
        }
    }
}

#[test]
fn failed_match_consumes_nothing() {
    let h = Hotkey::new("ctrl+s+d");
    let mut s = pressed(&["controlleft", "s"]);
    assert!(!match_and_consume(&h, &mut s));
    for e in &s.entries {
        assert!(!e.consumed);
    }
}

#[test]
fn first_match_picks_earliest_alternative() {
    let alts = hotkeys_core::parser::parse_alternatives("ctrl+k,cmd+k,k");
    assert_eq!(first_match(&alts, &pressed(&["controlleft", "k"])), Some(0));
    assert_eq!(first_match(&alts, &pressed(&["metaleft", "k"])), Some(1));
    assert_eq!(first_match(&alts, &pressed(&["k"])), Some(2));
    assert_eq!(first_match(&alts, &pressed(&["q"])), None);
}

#[test]
fn release_removes_key() {
    let h = Hotkey::new("k");
    let mut s = pressed(&["k"]);
    assert!(hotkey_matches(&h, &s));
    s.key_up("k");
    assert!(!hotkey_matches(&h, &s));
    assert!(!s.contains_key("k"));
}
