//! The matching predicate: does one `Hotkey` match the currently pressed
//! keys? A required modifier is satisfied by either its left or its right
//! variant; modifier flags left clear impose no constraint; every literal
//! key must be held. A successful match consumes the matched literal keys.

use vstd::prelude::*;
use crate::hotkey::{Hotkey, Modifiers, SpecHotkey};
use crate::keystate::KeyState;

verus! {

/// One modifier requirement: when `flag` is set, either variant of the
/// modifier must be pressed; when clear, nothing is required.
pub open spec fn mod_satisfied(
    flag: bool,
    left: Seq<char>,
    right: Seq<char>,
    pressed: Set<Seq<char>>,
) -> bool {
    flag ==> (pressed.contains(left) || pressed.contains(right))
}

/// All four modifier requirements, over the left/right variant pairs the
/// host reports for the physical modifier keys.
pub open spec fn mods_satisfied(m: Modifiers, pressed: Set<Seq<char>>) -> bool {
    &&& mod_satisfied(m.ctrl, "controlleft"@, "controlright"@, pressed)
    &&& mod_satisfied(m.shift, "shiftleft"@, "shiftright"@, pressed)
    &&& mod_satisfied(m.alt, "altleft"@, "altright"@, pressed)
    &&& mod_satisfied(m.meta, "metaleft"@, "metaright"@, pressed)
}

/// Every literal key of the hotkey is pressed.
pub open spec fn keys_satisfied(keys: Seq<Seq<char>>, pressed: Set<Seq<char>>) -> bool {
    forall|i: int| 0 <= i < keys.len() ==> pressed.contains(keys[i])
}

/// The matching predicate: all required modifiers and all literal keys
/// are held. Unrequired modifiers are never an obstacle.
pub open spec fn spec_matches(h: SpecHotkey, pressed: Set<Seq<char>>) -> bool {
    mods_satisfied(h.modifiers, pressed) && keys_satisfied(h.keys, pressed)
}

/// Decides one modifier requirement against the pressed-key state.
fn mod_holds(flag: bool, left: &str, right: &str, state: &KeyState) -> (r: bool)
    ensures
        r == mod_satisfied(flag, left@, right@, state.pressed_set()),
{
    !flag || state.contains_key(left) || state.contains_key(right)
}

/// Decides whether `hotkey` matches the pressed-key state, without any
/// side effect.
pub fn hotkey_matches(hotkey: &Hotkey, state: &KeyState) -> (r: bool)
    ensures
        r == spec_matches(hotkey@, state.pressed_set()),
{
    let mods_ok = mod_holds(hotkey.modifiers.ctrl, "controlleft", "controlright", state)
        && mod_holds(hotkey.modifiers.shift, "shiftleft", "shiftright", state)
        && mod_holds(hotkey.modifiers.alt, "altleft", "altright", state)
        && mod_holds(hotkey.modifiers.meta, "metaleft", "metaright", state);
    if !mods_ok {
        return false;
    }
    let n = hotkey.keys.len();
    let mut i: usize = 0;
    while i < n
        invariant
            n == hotkey.keys@.len(),
            i <= n,
            mods_satisfied(hotkey@.modifiers, state.pressed_set()),
            forall|j: int| 0 <= j < i ==> state.pressed_set().contains(hotkey@.keys[j]),
        decreases n - i,
    {
        if !state.contains_key(hotkey.keys[i].as_str()) {
            proof {
                assert(!state.pressed_set().contains(hotkey@.keys[i as int]));
            }
            return false;
        }
        i = i + 1;
    }
    true
}

/// Decides whether `hotkey` matches and, exactly when it does, marks each
/// of its literal keys as consumed so the host suppresses their default
/// actions. A failed match leaves the state untouched.
pub fn match_and_consume(hotkey: &Hotkey, state: &mut KeyState) -> (r: bool)
    requires
        old(state).wf(),
    ensures
        final(state).wf(),
        r == spec_matches(hotkey@, old(state).pressed_set()),
        final(state).same_keys(*old(state)),
        final(state).pressed_set() == old(state).pressed_set(),
        r ==> forall|i: int|
            0 <= i < final(state).entries@.len() ==> final(state).entries@[i].consumed == (old(
                state,
            ).entries@[i].consumed || hotkey@.key_set().contains(old(state).entries@[i].key@)),
        !r ==> *final(state) == *old(state),
{
    if !hotkey_matches(hotkey, state) {
        return false;
    }
    let ghost pre = *state;
    let n = hotkey.keys.len();
    let mut i: usize = 0;
    while i < n
        invariant
            n == hotkey.keys@.len(),
            i <= n,
            state.wf(),
            state.same_keys(pre),
            state.pressed_set() == pre.pressed_set(),
            forall|j: int|
                0 <= j < state.entries@.len() ==> state.entries@[j].consumed == (
                pre.entries@[j].consumed || exists|k: int|
                    0 <= k < i && hotkey@.keys[k] == pre.entries@[j].key@),
        decreases n - i,
    {
        let ghost before = *state;
        state.consume_key(hotkey.keys[i].as_str());
        proof {
            assert forall|j: int| 0 <= j < state.entries@.len() implies state.entries@[j].consumed
                == (pre.entries@[j].consumed || exists|k: int|
                0 <= k < i + 1 && hotkey@.keys[k] == pre.entries@[j].key@) by {
                assert(state.entries@[j].consumed == (before.entries@[j].consumed
                    || before.entries@[j].key@ == hotkey@.keys[i as int]));
                assert(before.entries@[j].key@ == pre.entries@[j].key@);
                if state.entries@[j].consumed {
                    if !pre.entries@[j].consumed {
                        if before.entries@[j].consumed {
                            let k = choose|k: int|
                                0 <= k < i && hotkey@.keys[k] == pre.entries@[j].key@;
                            assert(0 <= k < i + 1 && hotkey@.keys[k] == pre.entries@[j].key@);
                        } else {
                            assert(hotkey@.keys[i as int] == pre.entries@[j].key@);
                        }
                    }
                }
            }
        }
        i = i + 1;
    }
    proof {
        assert forall|j: int| 0 <= j < state.entries@.len() implies state.entries@[j].consumed == (
        pre.entries@[j].consumed || hotkey@.key_set().contains(pre.entries@[j].key@)) by {
            if exists|k: int| 0 <= k < n && hotkey@.keys[k] == pre.entries@[j].key@ {
                assert(hotkey@.key_set().contains(pre.entries@[j].key@));
            }
            if hotkey@.key_set().contains(pre.entries@[j].key@) {
                let k = choose|k: int|
                    0 <= k < hotkey@.keys.len() && hotkey@.keys[k] == pre.entries@[j].key@;
                assert(0 <= k < n && hotkey@.keys[k] == pre.entries@[j].key@);
            }
        }
    }
    true
}

/// The index of the first alternative that matches, if any. Alternatives
/// are always tried in this order, so the search is deterministic.
pub open spec fn spec_first_match(hks: Seq<SpecHotkey>, pressed: Set<Seq<char>>) -> Option<int>
    decreases hks.len(),
{
    if hks.len() == 0 {
        None
    } else if spec_matches(hks[0], pressed) {
        Some(0)
    } else {
        match spec_first_match(hks.skip(1), pressed) {
            None => None,
            Some(i) => Some(i + 1),
        }
    }
}

/// What `spec_first_match` returns: the least matching index, or `None`
/// exactly when no alternative matches.
pub proof fn lemma_first_match(hks: Seq<SpecHotkey>, pressed: Set<Seq<char>>)
    ensures
        match spec_first_match(hks, pressed) {
            Some(i) => 0 <= i < hks.len() && spec_matches(hks[i], pressed) && forall|j: int|
                0 <= j < i ==> !spec_matches(hks[j], pressed),
            None => forall|j: int| 0 <= j < hks.len() ==> !spec_matches(hks[j], pressed),
        },
    decreases hks.len(),
{
    if hks.len() > 0 && !spec_matches(hks[0], pressed) {
        lemma_first_match(hks.skip(1), pressed);
        match spec_first_match(hks.skip(1), pressed) {
            None => {
                assert forall|j: int| 0 <= j < hks.len() implies !spec_matches(
                    hks[j],
                    pressed,
                ) by {
                    if j > 0 {
                        assert(hks.skip(1)[j - 1] == hks[j]);
                    }
                }
            },
            Some(i) => {
                assert(hks.skip(1)[i] == hks[i + 1]);
                assert forall|j: int| 0 <= j < i + 1 implies !spec_matches(hks[j], pressed) by {
                    if j > 0 {
                        assert(hks.skip(1)[j - 1] == hks[j]);
                    }
                }
            },
        }
    }
}

/// Finds the first matching alternative among `hotkeys`, without side
/// effects.
pub fn first_match(hotkeys: &Vec<Hotkey>, state: &KeyState) -> (r: Option<usize>)
    ensures
        match r {
            Some(i) => spec_first_match(hotkeys.deep_view(), state.pressed_set()) == Some(i as int),
            None => spec_first_match(hotkeys.deep_view(), state.pressed_set()) is None,
        },
{
    let n = hotkeys.len();
    let mut i: usize = 0;
    while i < n
        invariant
            n == hotkeys@.len(),
            i <= n,
            hotkeys.deep_view().len() == n,
            forall|j: int| 0 <= j < n ==> hotkeys.deep_view()[j] == #[trigger] hotkeys@[j]@,
            forall|j: int|
                0 <= j < i ==> !spec_matches(hotkeys.deep_view()[j], state.pressed_set()),
        decreases n - i,
    {
        if hotkey_matches(&hotkeys[i], state) {
            proof {
                lemma_first_match(hotkeys.deep_view(), state.pressed_set());
                match spec_first_match(hotkeys.deep_view(), state.pressed_set()) {
                    Some(k) => {
                        assert(k == i as int);
                    },
                    None => {
                        assert(false);
                    },
                }
            }
            return Some(i);
        }
        i = i + 1;
    }
    proof {
        lemma_first_match(hotkeys.deep_view(), state.pressed_set());
    }
    None
}

} // verus!
