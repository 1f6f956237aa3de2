//! The pressed-key state the matcher evaluates against: the set of keys
//! currently held down, each carrying a "consumed" marker. The host input
//! layer inserts a key on press and removes it on release; the matcher only
//! ever sets the consumed marker, which tells the host to suppress the
//! default action of the underlying key event.

use vstd::prelude::*;
use crate::strutil::str_eq;

verus! {

/// One currently-held key: its canonical lower-cased identifier and
/// whether a successful match has consumed it.
pub struct PressedKey {
    pub key: String,
    pub consumed: bool,
}

/// The live pressed-key state, keyed by canonical identifier.
pub struct KeyState {
    pub entries: Vec<PressedKey>,
}

impl KeyState {
    /// The identifiers of the held keys, in insertion order.
    pub open spec fn key_seq(self) -> Seq<Seq<char>> {
        Seq::new(self.entries@.len(), |i: int| self.entries@[i].key@)
    }

    /// The set of identifiers of the held keys.
    pub open spec fn pressed_set(self) -> Set<Seq<char>> {
        self.key_seq().to_set()
    }

    /// Each held key appears at most once.
    pub open spec fn wf(self) -> bool {
        forall|i: int, j: int|
            0 <= i < j < self.entries@.len() ==> self.entries@[i].key@ != self.entries@[j].key@
    }

    /// The held keys and their order are the same as in `other`; only the
    /// consumed markers may differ.
    pub open spec fn same_keys(self, other: KeyState) -> bool {
        &&& self.entries@.len() == other.entries@.len()
        &&& forall|i: int|
            0 <= i < self.entries@.len() ==> self.entries@[i].key@ == other.entries@[i].key@
    }

    /// An empty pressed-key state.
    pub fn new() -> (s: KeyState)
        ensures
            s.wf(),
            s.entries@.len() == 0,
            s.pressed_set() =~= Set::<Seq<char>>::empty(),
    {
        KeyState { entries: Vec::new() }
    }

    /// The index of the entry holding `key`, if any.
    fn find(&self, key: &str) -> (r: Option<usize>)
        ensures
            match r {
                Some(i) => i < self.entries@.len() && self.entries@[i as int].key@ == key@,
                None => forall|i: int|
                    0 <= i < self.entries@.len() ==> self.entries@[i].key@ != key@,
            },
    {
        let n = self.entries.len();
        let mut i: usize = 0;
        while i < n
            invariant
                n == self.entries@.len(),
                i <= n,
                forall|j: int| 0 <= j < i ==> self.entries@[j].key@ != key@,
            decreases n - i,
        {
            if str_eq(self.entries[i].key.as_str(), key) {
                return Some(i);
            }
            i = i + 1;
        }
        None
    }

    /// Whether `key` is currently held.
    pub fn contains_key(&self, key: &str) -> (r: bool)
        ensures
            r == self.pressed_set().contains(key@),
    {
        let r = self.find(key);
        proof {
            if r is Some {
                assert(self.key_seq()[r->Some_0 as int] == key@);
                assert(self.pressed_set().contains(key@));
            } else {
                if self.pressed_set().contains(key@) {
                    let i = choose|i: int|
                        0 <= i < self.key_seq().len() && self.key_seq()[i] == key@;
                    assert(self.entries@[i].key@ == key@);
                }
            }
        }
        r.is_some()
    }

    /// Records that `key` went down. A key that is already held is left as
    /// it is (in particular its consumed marker is kept).
    pub fn key_down(&mut self, key: String)
        requires
            old(self).wf(),
        ensures
            final(self).wf(),
            final(self).pressed_set() =~= old(self).pressed_set().insert(key@),
            old(self).pressed_set().contains(key@) ==> *final(self) == *old(self),
            !old(self).pressed_set().contains(key@) ==> final(self).entries@ == old(
                self,
            ).entries@.push(PressedKey { key, consumed: false }),
    {
        if self.contains_key(key.as_str()) {
            return ;
        }
        let ghost pre = *self;
        proof {
            assert forall|i: int| 0 <= i < pre.entries@.len() implies pre.entries@[i].key@
                != key@ by {
                assert(pre.key_seq()[i] == pre.entries@[i].key@);
                assert(pre.pressed_set().contains(pre.key_seq()[i]));
            }
        }
        self.entries.push(PressedKey { key, consumed: false });
        proof {
            assert forall|k: Seq<char>| self.pressed_set().contains(k) implies pre
                .pressed_set().insert(self.entries@.last().key@).contains(k) by {
                let i = choose|i: int|
                    0 <= i < self.key_seq().len() && self.key_seq()[i] == k;
                if i < pre.entries@.len() {
                    assert(pre.key_seq()[i] == k);
                }
            }
            assert forall|k: Seq<char>| pre.pressed_set().contains(k) implies self
                .pressed_set().contains(k) by {
                let i = choose|i: int|
                    0 <= i < pre.key_seq().len() && pre.key_seq()[i] == k;
                assert(self.key_seq()[i] == k);
            }
            assert(self.key_seq().last() == self.entries@.last().key@);
        }
    }

    /// Records that `key` went up: its entry, if any, is removed; every
    /// other entry, including its consumed marker, is kept in order.
    pub fn key_up(&mut self, key: &str)
        requires
            old(self).wf(),
        ensures
            final(self).wf(),
            final(self).pressed_set() =~= old(self).pressed_set().remove(key@),
            old(self).pressed_set().contains(key@) ==> exists|i: int|
                0 <= i < old(self).entries@.len() && old(self).entries@[i].key@ == key@
                    && final(self).entries@ == old(self).entries@.remove(i),
            !old(self).pressed_set().contains(key@) ==> *final(self) == *old(self),
    {
        let r = self.find(key);
        match r {
            Some(i) => {
                let ghost pre = *self;
                proof {
                    assert(pre.key_seq()[i as int] == key@);
                    assert(pre.pressed_set().contains(key@));
                }
                self.entries.remove(i);
                proof {
                    assert forall|k: Seq<char>| self.pressed_set().contains(k) implies pre
                        .pressed_set().remove(key@).contains(k) by {
                        let j = choose|j: int|
                            0 <= j < self.key_seq().len() && self.key_seq()[j] == k;
                        if j < i {
                            assert(pre.key_seq()[j] == k);
                        } else {
                            assert(pre.key_seq()[j + 1] == k);
                            assert(k != key@);
                        }
                    }
                    assert forall|k: Seq<char>|
                        pre.pressed_set().remove(key@).contains(k) implies self
                        .pressed_set().contains(k) by {
                        let j = choose|j: int|
                            0 <= j < pre.key_seq().len() && pre.key_seq()[j] == k;
                        assert(j != i);
                        if j < i {
                            assert(self.key_seq()[j] == k);
                        } else {
                            assert(self.key_seq()[j - 1] == k);
                        }
                    }
                }
            },
            None => {
                proof {
                    assert forall|k: Seq<char>| self.pressed_set().contains(k) implies self
                        .pressed_set().remove(key@).contains(k) by {
                        let j = choose|j: int|
                            0 <= j < self.key_seq().len() && self.key_seq()[j] == k;
                        assert(k != key@);
                    }
                }
            },
        }
    }

    /// Marks the entry holding `key`, if any, as consumed. The held keys
    /// themselves are unchanged.
    pub fn consume_key(&mut self, key: &str)
        requires
            old(self).wf(),
        ensures
            final(self).wf(),
            final(self).same_keys(*old(self)),
            final(self).pressed_set() == old(self).pressed_set(),
            forall|i: int|
                0 <= i < final(self).entries@.len() ==> final(self).entries@[i].consumed == (old(
                    self,
                ).entries@[i].consumed || old(self).entries@[i].key@ == key@),
    {
        let r = self.find(key);
        match r {
            Some(i) => {
                let ghost pre = *self;
                let held = self.entries.remove(i);
                self.entries.insert(i, PressedKey { key: held.key, consumed: true });
                proof {
                    assert(self.entries@ =~= pre.entries@.update(
                        i as int,
                        self.entries@[i as int],
                    ));
                    assert(self.key_seq() =~= pre.key_seq());
                    assert(self.pressed_set() =~= pre.pressed_set());
                }
            },
            None => {},
        }
    }
}

} // verus!
