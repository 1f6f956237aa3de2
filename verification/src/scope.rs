//! Scope activation: a binding is only evaluated while at least one of its
//! declared scope names is active. A binding declared with no scopes is
//! never active — scopes are mandatory for activation, not an optional
//! filter.

use vstd::prelude::*;
use crate::strutil::str_eq;

verus! {

/// At least one declared scope is currently active.
pub open spec fn spec_scope_active(scopes: Seq<Seq<char>>, active: Seq<Seq<char>>) -> bool {
    exists|i: int, j: int|
        0 <= i < scopes.len() && 0 <= j < active.len() && scopes[i] == active[j]
}

/// A binding is in scope exactly when the declared and the active scope sets
/// intersect.
pub proof fn lemma_scope_active_is_intersection(scopes: Seq<Seq<char>>, active: Seq<Seq<char>>)
    ensures
        spec_scope_active(scopes, active) == !scopes.to_set().intersect(
            active.to_set(),
        ).is_empty(),
{
    if spec_scope_active(scopes, active) {
        let (i, j) = choose|i: int, j: int|
            0 <= i < scopes.len() && 0 <= j < active.len() && scopes[i] == active[j];
        assert(scopes.to_set().intersect(active.to_set()).contains(scopes[i]));
    }
    if !scopes.to_set().intersect(active.to_set()).is_empty() {
        let s = scopes.to_set().intersect(active.to_set()).choose();
        assert(scopes.to_set().contains(s) && active.to_set().contains(s));
        let i = choose|i: int| 0 <= i < scopes.len() && scopes[i] == s;
        let j = choose|j: int| 0 <= j < active.len() && active[j] == s;
        assert(0 <= i < scopes.len() && 0 <= j < active.len() && scopes[i] == active[j]);
    }
}

/// A binding with no declared scopes is never active.
pub proof fn lemma_no_scopes_never_active(scopes: Seq<Seq<char>>, active: Seq<Seq<char>>)
    requires
        scopes.len() == 0,
    ensures
        !spec_scope_active(scopes, active),
{
}

/// Decides whether at least one of `scopes` is in `active`.
pub fn scopes_active(scopes: &Vec<String>, active: &Vec<String>) -> (r: bool)
    ensures
        r == spec_scope_active(scopes.deep_view(), active.deep_view()),
{
    let n = scopes.len();
    let mut i: usize = 0;
    while i < n
        invariant
            n == scopes@.len(),
            i <= n,
            scopes.deep_view().len() == n,
            forall|k: int| 0 <= k < n ==> scopes.deep_view()[k] == #[trigger] scopes@[k]@,
            forall|k: int, j: int|
                0 <= k < i && 0 <= j < active.deep_view().len() ==> scopes.deep_view()[k]
                    != active.deep_view()[j],
        decreases n - i,
    {
        let m = active.len();
        let mut j: usize = 0;
        while j < m
            invariant
                m == active@.len(),
                j <= m,
                i < n,
                n == scopes@.len(),
                scopes.deep_view().len() == n,
                active.deep_view().len() == m,
                forall|k: int| 0 <= k < n ==> scopes.deep_view()[k] == #[trigger] scopes@[k]@,
                forall|k: int| 0 <= k < m ==> active.deep_view()[k] == #[trigger] active@[k]@,
                forall|k: int| 0 <= k < j ==> scopes.deep_view()[i as int] != active.deep_view()[k],
            decreases m - j,
        {
            if str_eq(scopes[i].as_str(), active[j].as_str()) {
                return true;
            }
            j = j + 1;
        }
        i = i + 1;
    }
    false
}

} // verus!
