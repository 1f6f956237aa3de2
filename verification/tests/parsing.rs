//! Parser behaviour: token recognition, case and whitespace
//! insensitivity, alternatives, and the lenient handling of unknown
//! tokens.

use hotkeys_core::hotkey::Hotkey;
use hotkeys_core::parser::parse_alternatives;

#[test]
fn parse_single_key() {
    let h = Hotkey::new("k");
    assert!(!h.modifiers.ctrl);
    assert!(!h.modifiers.shift);
    assert!(!h.modifiers.alt);
    assert!(!h.modifiers.meta);
    assert_eq!(h.keys, vec![String::from("k")]);
}

#[test]
fn parse_modifiers_and_key() {
    let h = Hotkey::new("ctrl+shift+k");
    assert!(h.modifiers.ctrl);
    assert!(h.modifiers.shift);
    assert!(!h.modifiers.alt);
    assert!(!h.modifiers.meta);
    assert_eq!(h.keys, vec![String::from("k")]);
}

#[test]
fn parse_modifier_only() {
    let h = Hotkey::new("ctrl");
    assert!(h.modifiers.ctrl);
    assert!(h.keys.is_empty());
}

#[test]
fn parse_all_modifier_spellings() {
    let h = Hotkey::new("control+option+command+enter");
    assert!(h.modifiers.ctrl);
    assert!(h.modifiers.alt);
    assert!(h.modifiers.meta);
    assert!(!h.modifiers.shift);
    assert_eq!(h.keys, vec![String::from("enter")]);

    for meta in ["meta+x", "cmd+x", "command+x", "super+x", "win+x"] {
        let h = Hotkey::new(meta);
        assert!(h.modifiers.meta, "{meta} should set the meta flag");
        assert_eq!(h.keys, vec![String::from("x")]);
    }
}

#[test]
fn parse_is_deterministic() {
    assert_eq!(Hotkey::new("ctrl+k"), Hotkey::new("ctrl+k"));
    assert_eq!(parse_alternatives("ctrl+k,cmd+k"), parse_alternatives("ctrl+k,cmd+k"));
}

#[test]
fn parse_is_case_insensitive() {
    assert_eq!(Hotkey::new("CTRL+K"), Hotkey::new("ctrl+k"));
    assert_eq!(Hotkey::new("Shift+Enter"), Hotkey::new("shift+enter"));
    assert_eq!(parse_alternatives("Ctrl+K,CMD+K"), parse_alternatives("ctrl+k,cmd+k"));
}

#[test]
fn parse_ignores_whitespace_around_tokens() {
    assert_eq!(Hotkey::new(" ctrl + k "), Hotkey::new("ctrl+k"));
    assert_eq!(Hotkey::new("\tctrl\t+\tk\t"), Hotkey::new("ctrl+k"));
}

#[test]
fn parse_equality_is_by_key_set() {
    assert_eq!(Hotkey::new("ctrl+k+l"), Hotkey::new("ctrl+l+k"));
    assert_ne!(Hotkey::new("ctrl+k"), Hotkey::new("ctrl+l"));
    assert_ne!(Hotkey::new("ctrl+k"), Hotkey::new("shift+k"));
}

#[test]
fn parse_alternatives_in_order() {
    let alts = parse_alternatives("ctrl+k,cmd+k");
    assert_eq!(alts.len(), 2);
    assert!(alts[0].modifiers.ctrl);
    assert!(!alts[0].modifiers.meta);
    assert!(alts[1].modifiers.meta);
    assert!(!alts[1].modifiers.ctrl);
    assert_eq!(alts[0].keys, vec![String::from("k")]);
    assert_eq!(alts[1].keys, vec![String::from("k")]);
}

#[test]
fn parse_unknown_token_is_kept_as_literal() {
    let h = Hotkey::new("hyper+k");
    assert!(!h.modifiers.ctrl && !h.modifiers.shift && !h.modifiers.alt && !h.modifiers.meta);
    assert_eq!(h.keys, vec![String::from("hyper"), String::from("k")]);
}
