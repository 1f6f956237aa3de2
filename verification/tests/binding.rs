//! Scope gating and whole-registry evaluation scenarios: a fired handle in
//! the result of an evaluation pass stands for one invocation of the
//! callback registered under it.

use hotkeys_core::keystate::KeyState;
use hotkeys_core::registry::HotkeyRegistry;
use hotkeys_core::scope::scopes_active;

fn pressed(keys: &[&str]) -> KeyState {
    let mut s = KeyState::new();
    for k in keys {
        s.key_down(String::from(*k));
    }
    s
}

fn strings(names: &[&str]) -> Vec<String> {
    names.iter().map(|n| String::from(*n)).collect()
}

#[test]
fn scope_activation_is_intersection() {
    assert!(!scopes_active(&strings(&["editor"]), &strings(&["sidebar"])));
    assert!(scopes_active(&strings(&["editor"]), &strings(&["editor", "sidebar"])));
    assert!(scopes_active(&strings(&["editor", "panel"]), &strings(&["panel"])));
}

#[test]
fn empty_scope_set_is_never_active() {
    assert!(!scopes_active(&strings(&[]), &strings(&[])));
    assert!(!scopes_active(&strings(&[]), &strings(&["editor", "sidebar", "panel"])));
}

#[test]
fn binding_fires_in_active_scope() {
    let mut reg = HotkeyRegistry::new();
    let id = reg.register("ctrl+s", strings(&["editor"]));
    let mut s = pressed(&["controlleft", "s"]);
    let fired = reg.evaluate(&mut s, &strings(&["editor"]));
    assert_eq!(fired, vec![id]);
}

#[test]
fn binding_does_not_fire_without_modifier() {
    let mut reg = HotkeyRegistry::new();
    let _id = reg.register("ctrl+s", strings(&["editor"]));
    let mut s = pressed(&["s"]);
    let fired = reg.evaluate(&mut s, &strings(&["editor"]));
    assert!(fired.is_empty());
}

#[test]
fn binding_does_not_fire_in_inactive_scope() {
    let mut reg = HotkeyRegistry::new();
    let _id = reg.register("ctrl+s", strings(&["editor"]));
    let mut s = pressed(&["controlleft", "s"]);
    let fired = reg.evaluate(&mut s, &strings(&["sidebar"]));
    assert!(fired.is_empty());
}

#[test]
fn binding_fires_when_any_declared_scope_is_active() {
    let mut reg = HotkeyRegistry::new();
    let id = reg.register("ctrl+s", strings(&["editor"]));
    let mut s = pressed(&["controlleft", "s"]);
    let fired = reg.evaluate(&mut s, &strings(&["editor", "sidebar"]));
    assert_eq!(fired, vec![id]);
}

#[test]
fn binding_with_no_scopes_is_inert() {
    let mut reg = HotkeyRegistry::new();
    let _id = reg.register("ctrl+s", strings(&[]));
    let mut s = pressed(&["controlleft", "s"]);
    let fired = reg.evaluate(&mut s, &strings(&["editor", "sidebar"]));
    assert!(fired.is_empty());
    let fired = reg.evaluate(&mut s, &strings(&[]));
    assert!(fired.is_empty());
}

#[test]
fn later_alternative_still_fires() {
    let mut reg = HotkeyRegistry::new();
    let id = reg.register("ctrl+k,cmd+k", strings(&["editor"]));
    let mut s = pressed(&["metaleft", "k"]);
    let fired = reg.evaluate(&mut s, &strings(&["editor"]));
    assert_eq!(fired, vec![id]);
}

#[test]
fn unregistered_binding_never_fires_again() {
    let mut reg = HotkeyRegistry::new();
    let id = reg.register("ctrl+s", strings(&["editor"]));
    let mut s = pressed(&["controlleft", "s"]);
    let fired = reg.evaluate(&mut s, &strings(&["editor"]));
    assert_eq!(fired, vec![id]);
    reg.unregister(id);
    let mut s = pressed(&["controlleft", "s"]);
    let fired = reg.evaluate(&mut s, &strings(&["editor"]));
    assert!(fired.is_empty());
}

#[test]
fn evaluation_reports_fired_handles_in_registration_order() {
    let mut reg = HotkeyRegistry::new();
    let a = reg.register("ctrl+s", strings(&["editor"]));
    let b = reg.register("q", strings(&["editor"]));
    let c = reg.register("ctrl+s,s", strings(&["editor"]));
    let mut s = pressed(&["controlleft", "s"]);
    let fired = reg.evaluate(&mut s, &strings(&["editor"]));
    assert_eq!(fired, vec![a, c]);
    assert_ne!(a, b);
    assert_ne!(b, c);
}

#[test]
fn evaluation_consumes_keys_of_fired_bindings() {
    let mut reg = HotkeyRegistry::new();
    let _id = reg.register("ctrl+s", strings(&["editor"]));
    let mut s = pressed(&["controlleft", "s", "x"]);
    let fired = reg.evaluate(&mut s, &strings(&["editor"]));
    assert_eq!(fired.len(), 1);
    for e in &s.entries {
        if e.key == "s" {
            assert!(e.consumed);
        } else {
            assert!(!e.consumed, "{} must not be consumed", e.key);
        }
    }
}

#[test]
fn only_first_matching_alternative_consumes() {
    let mut reg = HotkeyRegistry::new();
    // Both alternatives match the pressed state below; only the first
    // alternative's keys may be consumed.
    let _id = reg.register("k,k+l", strings(&["editor"]));
    let mut s = pressed(&["k", "l"]);
    let fired = reg.evaluate(&mut s, &strings(&["editor"]));
    assert_eq!(fired.len(), 1);
    for e in &s.entries {
        if e.key == "k" {
            assert!(e.consumed);
        } else {
            assert!(!e.consumed, "{} must not be consumed", e.key);
        }
    }
}
