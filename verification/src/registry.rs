//! Binding registrations and the evaluation pass. A registration pairs a
//! set of alternative hotkeys with the scope names it belongs to and is
//! identified by a handle. One evaluation pass tests every registration
//! against a consistent snapshot of the pressed-key state and the active
//! scopes: a registration fires when one of its scopes is active and its first
//! matching alternative — and only that alternative — consumes its keys.

use vstd::prelude::*;
use crate::hotkey::{Hotkey, SpecHotkey};
use crate::keystate::KeyState;
use crate::matcher::{first_match, lemma_first_match, match_and_consume, spec_first_match};
use crate::parser::{parse_alternatives, spec_parse_alternatives};
use crate::scope::{scopes_active, spec_scope_active};

verus! {

/// Mathematical view of one registration.
pub struct SpecBinding {
    pub id: u64,
    pub hotkeys: Seq<SpecHotkey>,
    pub scopes: Seq<Seq<char>>,
}

/// One live registration: the parsed alternatives of its specification,
/// the scopes it belongs to, and the handle it was registered under.
pub struct Binding {
    pub id: u64,
    pub hotkeys: Vec<Hotkey>,
    pub scopes: Vec<String>,
}

impl View for Binding {
    type V = SpecBinding;

    open spec fn view(&self) -> SpecBinding {
        SpecBinding {
            id: self.id,
            hotkeys: self.hotkeys.deep_view(),
            scopes: self.scopes.deep_view(),
        }
    }
}

impl DeepView for Binding {
    type V = SpecBinding;

    open spec fn deep_view(&self) -> SpecBinding {
        self.view()
    }
}

/// A registration fires when one of its scopes is active and some alternative
/// matches the pressed keys.
pub open spec fn spec_binding_fires(
    b: SpecBinding,
    pressed: Set<Seq<char>>,
    active: Seq<Seq<char>>,
) -> bool {
    spec_scope_active(b.scopes, active) && spec_first_match(b.hotkeys, pressed) is Some
}

/// The keys the first matching alternative of `b` consumes when `b`
/// fires; nothing otherwise.
pub open spec fn spec_binding_consumes(
    b: SpecBinding,
    pressed: Set<Seq<char>>,
    active: Seq<Seq<char>>,
) -> Set<Seq<char>> {
    if spec_binding_fires(b, pressed, active) {
        match spec_first_match(b.hotkeys, pressed) {
            Some(i) => b.hotkeys[i].key_set(),
            None => Set::empty(),
        }
    } else {
        Set::empty()
    }
}

/// The handles of the registrations that fire during one evaluation pass,
/// in registration order.
pub open spec fn spec_fired(
    bs: Seq<SpecBinding>,
    pressed: Set<Seq<char>>,
    active: Seq<Seq<char>>,
) -> Seq<u64>
    decreases bs.len(),
{
    if bs.len() == 0 {
        Seq::empty()
    } else {
        let prev = spec_fired(bs.drop_last(), pressed, active);
        if spec_binding_fires(bs.last(), pressed, active) {
            prev.push(bs.last().id)
        } else {
            prev
        }
    }
}

/// All keys consumed during one evaluation pass.
pub open spec fn spec_consumed(
    bs: Seq<SpecBinding>,
    pressed: Set<Seq<char>>,
    active: Seq<Seq<char>>,
) -> Set<Seq<char>>
    decreases bs.len(),
{
    if bs.len() == 0 {
        Set::empty()
    } else {
        spec_consumed(bs.drop_last(), pressed, active).union(
            spec_binding_consumes(bs.last(), pressed, active),
        )
    }
}

/// `bs` with every registration under handle `id` removed; order is kept.
pub open spec fn spec_remove_binding(bs: Seq<SpecBinding>, id: u64) -> Seq<SpecBinding>
    decreases bs.len(),
{
    if bs.len() == 0 {
        Seq::empty()
    } else {
        let prev = spec_remove_binding(bs.drop_last(), id);
        if bs.last().id == id {
            prev
        } else {
            prev.push(bs.last())
        }
    }
}

/// The registrations currently alive, with the next free handle.
pub struct HotkeyRegistry {
    pub bindings: Vec<Binding>,
    pub next_id: u64,
}

impl HotkeyRegistry {
    /// The views of the live registrations, in registration order.
    pub open spec fn bindings_view(self) -> Seq<SpecBinding> {
        self.bindings.deep_view()
    }

    /// Handles are unique and below the next free handle.
    pub open spec fn wf(self) -> bool {
        &&& forall|i: int|
            0 <= i < self.bindings@.len() ==> #[trigger] self.bindings@[i].id < self.next_id
        &&& forall|i: int, j: int|
            0 <= i < j < self.bindings@.len() ==> self.bindings@[i].id != self.bindings@[j].id
    }

    /// An empty registry.
    pub fn new() -> (r: HotkeyRegistry)
        ensures
            r.wf(),
            r.bindings_view() =~= Seq::<SpecBinding>::empty(),
    {
        let r = HotkeyRegistry { bindings: Vec::new(), next_id: 0 };
        proof {
            assert(r.bindings.deep_view() =~= Seq::<SpecBinding>::empty());
        }
        r
    }

    /// Registers `key_combination` (a comma-separated list of
    /// alternatives) under the given scopes and returns the handle of the
    /// new registration.
    pub fn register(&mut self, key_combination: &str, scopes: Vec<String>) -> (id: u64)
        requires
            old(self).wf(),
            old(self).next_id < u64::MAX,
        ensures
            final(self).wf(),
            id == old(self).next_id,
            final(self).next_id == old(self).next_id + 1,
            final(self).bindings_view() == old(self).bindings_view().push(
                SpecBinding {
                    id,
                    hotkeys: spec_parse_alternatives(key_combination@),
                    scopes: scopes.deep_view(),
                },
            ),
    {
        let id = self.next_id;
        let hotkeys = parse_alternatives(key_combination);
        let ghost pre = self.bindings.deep_view();
        self.bindings.push(Binding { id, hotkeys, scopes });
        self.next_id = id + 1;
        proof {
            assert(self.bindings.deep_view() =~= pre.push(self.bindings@.last()@));
        }
        id
    }

    /// Removes the registration under handle `id`. After this call no
    /// evaluation pass ever fires that registration again.
    pub fn unregister(&mut self, id: u64)
        requires
            old(self).wf(),
        ensures
            final(self).wf(),
            final(self).next_id == old(self).next_id,
            final(self).bindings_view() == spec_remove_binding(old(self).bindings_view(), id),
    {
        let n = self.bindings.len();
        let mut kept: Vec<Binding> = Vec::new();
        let mut i: usize = 0;
        proof {
            assert(kept.deep_view() =~= Seq::<SpecBinding>::empty());
            assert(self.bindings.deep_view().take(0) =~= Seq::<SpecBinding>::empty());
        }
        while i < n
            invariant
                n == self.bindings@.len(),
                i <= n,
                self.bindings.deep_view().len() == n,
                forall|k: int|
                    0 <= k < n ==> self.bindings.deep_view()[k] == #[trigger] self.bindings@[k]@,
                kept.deep_view() =~= spec_remove_binding(
                    self.bindings.deep_view().take(i as int),
                    id,
                ),
                forall|k: int|
                    0 <= k < kept@.len() ==> #[trigger] kept@[k].id < old(self).next_id,
                forall|k: int, j: int| 0 <= k < j < kept@.len() ==> kept@[k].id != kept@[j].id,
                forall|k: int, j: int|
                    0 <= k < kept@.len() && i <= j < n ==> kept@[k].id != self.bindings@[j].id,
                *self == *old(self),
                old(self).wf(),
            decreases n - i,
        {
            let ghost prev = kept.deep_view();
            let ghost tk = self.bindings.deep_view().take(i as int);
            let b = &self.bindings[i];
            if b.id != id {
                let copied = Binding {
                    id: b.id,
                    hotkeys: clone_hotkeys(&b.hotkeys),
                    scopes: clone_strings(&b.scopes),
                };
                proof {
                    assert(copied@ == self.bindings@[i as int]@);
                }
                kept.push(copied);
                proof {
                    assert(kept.deep_view() =~= prev.push(self.bindings.deep_view()[i as int]));
                }
            }
            proof {
                let tk1 = self.bindings.deep_view().take(i + 1);
                assert(tk1.drop_last() =~= tk);
                assert(tk1.last() == self.bindings.deep_view()[i as int]);
            }
            i = i + 1;
        }
        proof {
            assert(self.bindings.deep_view().take(n as int) =~= self.bindings.deep_view());
        }
        self.bindings = kept;
    }

    /// One evaluation pass against a consistent snapshot: returns the
    /// handles of the registrations that fire, in registration order, and
    /// marks the keys their first matching alternatives consume.
    pub fn evaluate(&self, state: &mut KeyState, active: &Vec<String>) -> (fired: Vec<u64>)
        requires
            old(state).wf(),
        ensures
            final(state).wf(),
            final(state).same_keys(*old(state)),
            final(state).pressed_set() == old(state).pressed_set(),
            fired@ == spec_fired(self.bindings_view(), old(state).pressed_set(), active.deep_view()),
            forall|i: int|
                0 <= i < final(state).entries@.len() ==> final(state).entries@[i].consumed == (old(
                    state,
                ).entries@[i].consumed || spec_consumed(
                    self.bindings_view(),
                    old(state).pressed_set(),
                    active.deep_view(),
                ).contains(old(state).entries@[i].key@)),
    {
        let ghost pressed0 = old(state).pressed_set();
        let ghost act = active.deep_view();
        let ghost bs = self.bindings.deep_view();
        let n = self.bindings.len();
        let mut fired: Vec<u64> = Vec::new();
        let mut i: usize = 0;
        proof {
            assert(bs.take(0) =~= Seq::<SpecBinding>::empty());
        }
        while i < n
            invariant
                n == self.bindings@.len(),
                i <= n,
                bs == self.bindings.deep_view(),
                bs.len() == n,
                forall|k: int| 0 <= k < n ==> bs[k] == #[trigger] self.bindings@[k]@,
                act == active.deep_view(),
                state.wf(),
                state.same_keys(*old(state)),
                state.pressed_set() == pressed0,
                fired@ =~= spec_fired(bs.take(i as int), pressed0, act),
                forall|k: int|
                    0 <= k < state.entries@.len() ==> state.entries@[k].consumed == (old(
                        state,
                    ).entries@[k].consumed || spec_consumed(bs.take(i as int), pressed0, act)
                        .contains(old(state).entries@[k].key@)),
            decreases n - i,
        {
            let ghost tk = bs.take(i as int);
            let ghost tk1 = bs.take(i + 1);
            proof {
                assert(tk1.drop_last() =~= tk);
                assert(tk1.last() == bs[i as int]);
            }
            let b = &self.bindings[i];
            let ghost before = *state;
            if scopes_active(&b.scopes, active) {
                match first_match(&b.hotkeys, state) {
                    Some(k) => {
                        proof {
                            lemma_first_match(b.hotkeys.deep_view(), pressed0);
                        }
                        let did = match_and_consume(&b.hotkeys[k], state);
                        proof {
                            assert(did);
                            assert(spec_binding_fires(bs[i as int], pressed0, act));
                            assert(spec_binding_consumes(bs[i as int], pressed0, act)
                                == b.hotkeys.deep_view()[k as int].key_set());
                        }
                        fired.push(b.id);
                        proof {
                            assert(fired@ =~= spec_fired(tk, pressed0, act).push(bs[i as int].id));
                            assert forall|m: int| 0 <= m < state.entries@.len() implies state
                                .entries@[m].consumed == (old(state).entries@[m].consumed
                                || spec_consumed(tk1, pressed0, act).contains(
                                old(state).entries@[m].key@,
                            )) by {
                                assert(state.entries@[m].consumed == (before.entries@[m].consumed
                                    || bs[i as int].hotkeys[k as int].key_set().contains(
                                    before.entries@[m].key@,
                                )));
                                assert(before.entries@[m].key@ == old(state).entries@[m].key@);
                            }
                        }
                    },
                    None => {
                        proof {
                            assert(!spec_binding_fires(bs[i as int], pressed0, act));
                            assert(spec_fired(tk1, pressed0, act) =~= spec_fired(
                                tk,
                                pressed0,
                                act,
                            ));
                            assert(spec_consumed(tk1, pressed0, act) =~= spec_consumed(
                                tk,
                                pressed0,
                                act,
                            ));
                        }
                    },
                }
            } else {
                proof {
                    assert(!spec_binding_fires(bs[i as int], pressed0, act));
                    assert(spec_fired(tk1, pressed0, act) =~= spec_fired(tk, pressed0, act));
                    assert(spec_consumed(tk1, pressed0, act) =~= spec_consumed(tk, pressed0, act));
                }
            }
            i = i + 1;
        }
        proof {
            assert(bs.take(n as int) =~= bs);
        }
        fired
    }
}

/// A field-for-field copy of a hotkey list.
fn clone_hotkeys(v: &Vec<Hotkey>) -> (r: Vec<Hotkey>)
    ensures
        r.deep_view() == v.deep_view(),
        r@.len() == v@.len(),
{
    let n = v.len();
    let mut r: Vec<Hotkey> = Vec::new();
    let mut i: usize = 0;
    proof {
        assert(r.deep_view() =~= v.deep_view().take(0));
    }
    while i < n
        invariant
            n == v@.len(),
            i <= n,
            r@.len() == i,
            v.deep_view().len() == n,
            forall|k: int| 0 <= k < n ==> v.deep_view()[k] == #[trigger] v@[k]@,
            r.deep_view() =~= v.deep_view().take(i as int),
        decreases n - i,
    {
        let ghost prev = r.deep_view();
        let h = Hotkey { modifiers: v[i].modifiers, keys: clone_strings(&v[i].keys) };
        proof {
            assert(h@ == v@[i as int]@);
        }
        r.push(h);
        proof {
            assert(r.deep_view() =~= prev.push(v.deep_view()[i as int]));
            assert(r.deep_view() =~= v.deep_view().take(i + 1));
        }
        i = i + 1;
    }
    proof {
        assert(v.deep_view().take(n as int) =~= v.deep_view());
    }
    r
}

/// A copy of a string list.
fn clone_strings(v: &Vec<String>) -> (r: Vec<String>)
    ensures
        r.deep_view() == v.deep_view(),
        r@.len() == v@.len(),
{
    let n = v.len();
    let mut r: Vec<String> = Vec::new();
    let mut i: usize = 0;
    proof {
        assert(r.deep_view() =~= v.deep_view().take(0));
    }
    while i < n
        invariant
            n == v@.len(),
            i <= n,
            r@.len() == i,
            v.deep_view().len() == n,
            forall|k: int| 0 <= k < n ==> v.deep_view()[k] == #[trigger] v@[k]@,
            r.deep_view() =~= v.deep_view().take(i as int),
        decreases n - i,
    {
        let ghost prev = r.deep_view();
        let s = v[i].clone();
        r.push(s);
        proof {
            assert(r.deep_view() =~= prev.push(v.deep_view()[i as int]));
            assert(r.deep_view() =~= v.deep_view().take(i + 1));
        }
        i = i + 1;
    }
    proof {
        assert(v.deep_view().take(n as int) =~= v.deep_view());
    }
    r
}

} // verus!
