//! The canonical parsed form of one key-combination alternative: four
//! modifier requirement flags plus a set of literal key identifiers.

use vstd::prelude::*;
use crate::strutil::str_eq;

verus! {

/// The four independent modifier requirements a key combination can impose.
/// `meta` is the platform "super"/"command" key.
#[derive(Clone, Copy, PartialEq, Eq, Structural, Debug)]
pub struct Modifiers {
    pub ctrl: bool,
    pub shift: bool,
    pub alt: bool,
    pub meta: bool,
}

impl Modifiers {
    /// True when no modifier is required.
    pub open spec fn none_required(self) -> bool {
        !self.ctrl && !self.shift && !self.alt && !self.meta
    }

    /// A requirement set with every flag clear.
    pub fn empty() -> (m: Modifiers)
        ensures
            m.none_required(),
    {
        Modifiers { ctrl: false, shift: false, alt: false, meta: false }
    }
}

/// Mathematical view of a parsed hotkey: the modifier flags together with
/// the literal key identifiers, each as a character sequence, in the order
/// the specification listed them.
pub struct SpecHotkey {
    pub modifiers: Modifiers,
    pub keys: Seq<Seq<char>>,
}

impl SpecHotkey {
    /// The literal keys as a set; matching and equality do not depend on
    /// the order in which keys were written.
    pub open spec fn key_set(self) -> Set<Seq<char>> {
        self.keys.to_set()
    }
}

/// One parsed key-combination alternative. Immutable once parsed.
#[derive(Debug)]
pub struct Hotkey {
    pub modifiers: Modifiers,
    pub keys: Vec<String>,
}

impl View for Hotkey {
    type V = SpecHotkey;

    open spec fn view(&self) -> SpecHotkey {
        SpecHotkey { modifiers: self.modifiers, keys: self.keys.deep_view() }
    }
}

impl DeepView for Hotkey {
    type V = SpecHotkey;

    open spec fn deep_view(&self) -> SpecHotkey {
        self.view()
    }
}

/// Whether `x` occurs in `ys`.
fn contains_string(ys: &Vec<String>, x: &str) -> (r: bool)
    ensures
        r == ys.deep_view().contains(x@),
{
    let m = ys.len();
    let mut j: usize = 0;
    while j < m
        invariant
            m == ys@.len(),
            ys.deep_view().len() == m,
            j <= m,
            forall|k: int| 0 <= k < m ==> ys.deep_view()[k] == #[trigger] ys@[k]@,
            forall|k: int| 0 <= k < j ==> ys.deep_view()[k] != x@,
        decreases m - j,
    {
        if str_eq(ys[j].as_str(), x) {
            proof {
                assert(ys.deep_view()[j as int] == x@);
            }
            return true;
        }
        j = j + 1;
    }
    false
}

/// Every key in `xs` also occurs in `ys`.
fn keys_subset(xs: &Vec<String>, ys: &Vec<String>) -> (r: bool)
    ensures
        r == forall|i: int|
            0 <= i < xs.deep_view().len() ==> ys.deep_view().contains(#[trigger] xs.deep_view()[i]),
{
    let n = xs.len();
    let mut i: usize = 0;
    while i < n
        invariant
            n == xs@.len(),
            i <= n,
            xs.deep_view().len() == n,
            forall|k: int| 0 <= k < n ==> xs.deep_view()[k] == #[trigger] xs@[k]@,
            forall|k: int| 0 <= k < i ==> ys.deep_view().contains(#[trigger] xs.deep_view()[k]),
        decreases n - i,
    {
        if !contains_string(ys, xs[i].as_str()) {
            return false;
        }
        i = i + 1;
    }
    true
}

impl PartialEq for Hotkey {
    /// Hotkeys compare by their modifier flags and their key sets, so
    /// duplicate alternatives written in a different key order or case
    /// compare equal once parsed.
    fn eq(&self, other: &Hotkey) -> (r: bool) {
        let m = self.modifiers == other.modifiers;
        let ab = keys_subset(&self.keys, &other.keys);
        let ba = keys_subset(&other.keys, &self.keys);
        proof {
            if ab && ba {
                assert forall|k: Seq<char>| self@.key_set().contains(k) implies other@
                    .key_set().contains(k) by {
                    let i = choose|i: int|
                        0 <= i < self@.keys.len() && self@.keys[i] == k;
                    assert(other@.keys.contains(self@.keys[i]));
                }
                assert forall|k: Seq<char>| other@.key_set().contains(k) implies self@
                    .key_set().contains(k) by {
                    let i = choose|i: int|
                        0 <= i < other@.keys.len() && other@.keys[i] == k;
                    assert(self@.keys.contains(other@.keys[i]));
                }
                assert(self@.key_set() =~= other@.key_set());
            }
            if !(ab && ba) {
                if !ab {
                    let i = choose|i: int|
                        0 <= i < self@.keys.len() && !other@.keys.contains(
                            #[trigger] self@.keys[i],
                        );
                    assert(self@.key_set().contains(self@.keys[i]));
                    if other@.key_set().contains(self@.keys[i]) {
                        let j = choose|j: int|
                            0 <= j < other@.keys.len() && other@.keys[j] == self@.keys[i];
                        assert(other@.keys.contains(self@.keys[i]));
                    }
                    assert(self@.key_set() != other@.key_set());
                } else {
                    let i = choose|i: int|
                        0 <= i < other@.keys.len() && !self@.keys.contains(
                            #[trigger] other@.keys[i],
                        );
                    assert(other@.key_set().contains(other@.keys[i]));
                    if self@.key_set().contains(other@.keys[i]) {
                        let j = choose|j: int|
                            0 <= j < self@.keys.len() && self@.keys[j] == other@.keys[i];
                        assert(self@.keys.contains(other@.keys[i]));
                    }
                    assert(self@.key_set() != other@.key_set());
                }
            }
        }
        m && ab && ba
    }
}

impl vstd::std_specs::cmp::PartialEqSpecImpl for Hotkey {
    open spec fn obeys_eq_spec() -> bool {
        true
    }

    open spec fn eq_spec(&self, other: &Hotkey) -> bool {
        self.modifiers == other.modifiers && self@.key_set() == other@.key_set()
    }
}

} // verus!
