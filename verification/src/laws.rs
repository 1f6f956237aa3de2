//! The engine's guarantees, stated and proved over the mathematical
//! model: matching is monotone in the pressed keys (modifier requirements
//! are additive, never exclusions), each modifier is satisfied by either
//! physical variant, literal keys are a conjunction, gating and firing
//! are tied to handles, and parsing is insensitive to token case and to
//! whitespace around tokens.

use vstd::prelude::*;
use crate::hotkey::{Modifiers, SpecHotkey};
use crate::matcher::{keys_satisfied, spec_first_match, spec_matches, lemma_first_match};
use crate::parser::{
    apply_token, find_char, lemma_find_char, lemma_find_char_at, lemma_find_char_none, norm_token,
    parse_combo_from, spec_parse_alternatives, spec_parse_combo, trim, trim_back, trim_front,
};
use crate::registry::{spec_binding_fires, spec_fired, spec_remove_binding, SpecBinding};
use crate::scope::spec_scope_active;
use crate::strutil::{is_space, spec_lower_char, to_lower};

verus! {

/// `h` with the control requirement dropped.
pub open spec fn ctrl_cleared(h: SpecHotkey) -> SpecHotkey {
    SpecHotkey { modifiers: Modifiers { ctrl: false, ..h.modifiers }, keys: h.keys }
}

/// `h` with the shift requirement dropped.
pub open spec fn shift_cleared(h: SpecHotkey) -> SpecHotkey {
    SpecHotkey { modifiers: Modifiers { shift: false, ..h.modifiers }, keys: h.keys }
}

/// `h` with the alt requirement dropped.
pub open spec fn alt_cleared(h: SpecHotkey) -> SpecHotkey {
    SpecHotkey { modifiers: Modifiers { alt: false, ..h.modifiers }, keys: h.keys }
}

/// `h` with the meta requirement dropped.
pub open spec fn meta_cleared(h: SpecHotkey) -> SpecHotkey {
    SpecHotkey { modifiers: Modifiers { meta: false, ..h.modifiers }, keys: h.keys }
}

/// Matching is monotone in the pressed keys: holding more keys never
/// makes a match fail. In particular, modifiers the hotkey did not ask
/// about never block it.
pub proof fn lemma_matches_monotonic(h: SpecHotkey, p1: Set<Seq<char>>, p2: Set<Seq<char>>)
    requires
        p1.subset_of(p2),
        spec_matches(h, p1),
    ensures
        spec_matches(h, p2),
{
    assert forall|i: int| 0 <= i < h.keys.len() implies p2.contains(h.keys[i]) by {
        assert(p1.contains(h.keys[i]));
    }
}

/// With no modifier required, matching is exactly the literal-key
/// conjunction — any pressed-key state with those keys matches, whatever
/// else is held.
pub proof fn lemma_additive_modifiers(h: SpecHotkey, p: Set<Seq<char>>)
    requires
        h.modifiers.none_required(),
    ensures
        spec_matches(h, p) == keys_satisfied(h.keys, p),
{
}

/// A hotkey that requires a modifier matches a state holding either
/// physical variant of it alone, and a state holding both, provided the
/// rest of its requirements hold of the state.
pub proof fn lemma_modifier_alias_symmetry(h: SpecHotkey, p: Set<Seq<char>>)
    ensures
        h.modifiers.ctrl && spec_matches(ctrl_cleared(h), p) ==> spec_matches(
            h,
            p.insert("controlleft"@),
        ) && spec_matches(h, p.insert("controlright"@)) && spec_matches(
            h,
            p.insert("controlleft"@).insert("controlright"@),
        ),
        h.modifiers.shift && spec_matches(shift_cleared(h), p) ==> spec_matches(
            h,
            p.insert("shiftleft"@),
        ) && spec_matches(h, p.insert("shiftright"@)) && spec_matches(
            h,
            p.insert("shiftleft"@).insert("shiftright"@),
        ),
        h.modifiers.alt && spec_matches(alt_cleared(h), p) ==> spec_matches(
            h,
            p.insert("altleft"@),
        ) && spec_matches(h, p.insert("altright"@)) && spec_matches(
            h,
            p.insert("altleft"@).insert("altright"@),
        ),
        h.modifiers.meta && spec_matches(meta_cleared(h), p) ==> spec_matches(
            h,
            p.insert("metaleft"@),
        ) && spec_matches(h, p.insert("metaright"@)) && spec_matches(
            h,
            p.insert("metaleft"@).insert("metaright"@),
        ),
{
    if h.modifiers.ctrl && spec_matches(ctrl_cleared(h), p) {
        lemma_matches_monotonic(ctrl_cleared(h), p, p.insert("controlleft"@));
        lemma_matches_monotonic(ctrl_cleared(h), p, p.insert("controlright"@));
        lemma_matches_monotonic(ctrl_cleared(h), p, p.insert("controlleft"@).insert("controlright"@));
    }
    if h.modifiers.shift && spec_matches(shift_cleared(h), p) {
        lemma_matches_monotonic(shift_cleared(h), p, p.insert("shiftleft"@));
        lemma_matches_monotonic(shift_cleared(h), p, p.insert("shiftright"@));
        lemma_matches_monotonic(shift_cleared(h), p, p.insert("shiftleft"@).insert("shiftright"@));
    }
    if h.modifiers.alt && spec_matches(alt_cleared(h), p) {
        lemma_matches_monotonic(alt_cleared(h), p, p.insert("altleft"@));
        lemma_matches_monotonic(alt_cleared(h), p, p.insert("altright"@));
        lemma_matches_monotonic(alt_cleared(h), p, p.insert("altleft"@).insert("altright"@));
    }
    if h.modifiers.meta && spec_matches(meta_cleared(h), p) {
        lemma_matches_monotonic(meta_cleared(h), p, p.insert("metaleft"@));
        lemma_matches_monotonic(meta_cleared(h), p, p.insert("metaright"@));
        lemma_matches_monotonic(meta_cleared(h), p, p.insert("metaleft"@).insert("metaright"@));
    }
}

/// Literal keys are a conjunction: one missing key makes the whole match
/// fail.
pub proof fn lemma_literal_key_conjunction(h: SpecHotkey, p: Set<Seq<char>>, i: int)
    requires
        0 <= i < h.keys.len(),
        !p.contains(h.keys[i]),
    ensures
        !spec_matches(h, p),
{
}

/// A handle is reported by an evaluation pass exactly when a registration
/// under that handle fires.
pub proof fn lemma_fired_handles(
    bs: Seq<SpecBinding>,
    pressed: Set<Seq<char>>,
    active: Seq<Seq<char>>,
    id: u64,
)
    ensures
        spec_fired(bs, pressed, active).contains(id) == exists|j: int|
            0 <= j < bs.len() && bs[j].id == id && spec_binding_fires(bs[j], pressed, active),
    decreases bs.len(),
{
    if bs.len() > 0 {
        lemma_fired_handles(bs.drop_last(), pressed, active, id);
        let prev = spec_fired(bs.drop_last(), pressed, active);
        if spec_fired(bs, pressed, active).contains(id) {
            let fi = choose|fi: int|
                0 <= fi < spec_fired(bs, pressed, active).len() && spec_fired(
                    bs,
                    pressed,
                    active,
                )[fi] == id;
            if spec_binding_fires(bs.last(), pressed, active) && fi == prev.len() {
                assert(bs[bs.len() - 1].id == id);
            } else {
                assert(prev[fi] == id);
                assert(prev.contains(id));
                let j = choose|j: int|
                    0 <= j < bs.drop_last().len() && bs.drop_last()[j].id == id
                        && spec_binding_fires(bs.drop_last()[j], pressed, active);
                assert(bs[j] == bs.drop_last()[j]);
            }
        }
        if exists|j: int|
            0 <= j < bs.len() && bs[j].id == id && spec_binding_fires(bs[j], pressed, active) {
            let j = choose|j: int|
                0 <= j < bs.len() && bs[j].id == id && spec_binding_fires(bs[j], pressed, active);
            if j == bs.len() - 1 {
                assert(spec_fired(bs, pressed, active)[spec_fired(bs, pressed, active).len() - 1]
                    == id);
            } else {
                assert(bs.drop_last()[j] == bs[j]);
                assert(prev.contains(id));
                let fi = choose|fi: int| 0 <= fi < prev.len() && prev[fi] == id;
                assert(spec_fired(bs, pressed, active)[fi] == id);
            }
        }
    }
}

/// A registration that is out of scope cannot fire: if every
/// registration under `id` is out of scope, no evaluation pass reports
/// `id`.
pub proof fn lemma_scope_gating(
    bs: Seq<SpecBinding>,
    pressed: Set<Seq<char>>,
    active: Seq<Seq<char>>,
    id: u64,
)
    requires
        forall|j: int|
            0 <= j < bs.len() && bs[j].id == id ==> !spec_scope_active(
                #[trigger] bs[j].scopes,
                active,
            ),
    ensures
        !spec_fired(bs, pressed, active).contains(id),
{
    lemma_fired_handles(bs, pressed, active, id);
}

/// A registration declared with no scopes never fires, whatever is
/// pressed and whatever scopes are active.
pub proof fn lemma_no_scope_inert(
    bs: Seq<SpecBinding>,
    pressed: Set<Seq<char>>,
    active: Seq<Seq<char>>,
    id: u64,
)
    requires
        forall|j: int| 0 <= j < bs.len() && bs[j].id == id ==> #[trigger] bs[j].scopes.len() == 0,
    ensures
        !spec_fired(bs, pressed, active).contains(id),
{
    lemma_scope_gating(bs, pressed, active, id);
}

/// Alternatives are tried first-match-wins, and a registration fires
/// exactly when one of its scopes is active and some alternative matches — in
/// particular a state satisfying only a later alternative still fires it.
pub proof fn lemma_alternatives_first_match(
    b: SpecBinding,
    pressed: Set<Seq<char>>,
    active: Seq<Seq<char>>,
)
    ensures
        spec_binding_fires(b, pressed, active) == (spec_scope_active(b.scopes, active) && exists|
            k: int,
        | 0 <= k < b.hotkeys.len() && spec_matches(b.hotkeys[k], pressed)),
        spec_binding_fires(b, pressed, active) ==> (match spec_first_match(b.hotkeys, pressed) {
            Some(i) => 0 <= i < b.hotkeys.len() && spec_matches(b.hotkeys[i], pressed) && forall|
                j: int,
            | 0 <= j < i ==> !spec_matches(b.hotkeys[j], pressed),
            None => false,
        }),
{
    lemma_first_match(b.hotkeys, pressed);
    if spec_first_match(b.hotkeys, pressed) is Some {
        let i = spec_first_match(b.hotkeys, pressed)->Some_0;
        assert(spec_matches(b.hotkeys[i], pressed));
    }
}

/// With distinct handles, an evaluation pass reports each handle at most
/// once: the callback registered under it runs exactly once per pass in
/// which its binding fires.
pub proof fn lemma_fired_at_most_once(
    bs: Seq<SpecBinding>,
    pressed: Set<Seq<char>>,
    active: Seq<Seq<char>>,
)
    requires
        forall|i: int, j: int| 0 <= i < j < bs.len() ==> bs[i].id != bs[j].id,
    ensures
        forall|i: int, j: int|
            0 <= i < j < spec_fired(bs, pressed, active).len() ==> spec_fired(
                bs,
                pressed,
                active,
            )[i] != spec_fired(bs, pressed, active)[j],
    decreases bs.len(),
{
    if bs.len() > 0 {
        lemma_fired_at_most_once(bs.drop_last(), pressed, active);
        let prev = spec_fired(bs.drop_last(), pressed, active);
        if spec_binding_fires(bs.last(), pressed, active) {
            if prev.contains(bs.last().id) {
                lemma_fired_handles(bs.drop_last(), pressed, active, bs.last().id);
                let j = choose|j: int|
                    0 <= j < bs.drop_last().len() && bs.drop_last()[j].id == bs.last().id
                        && spec_binding_fires(bs.drop_last()[j], pressed, active);
                assert(bs[j].id == bs[bs.len() - 1].id);
                assert(false);
            }
            assert forall|i: int, j: int|
                0 <= i < j < spec_fired(bs, pressed, active).len() implies spec_fired(
                bs,
                pressed,
                active,
            )[i] != spec_fired(bs, pressed, active)[j] by {
                if j == prev.len() {
                    if prev[i] == bs.last().id {
                        assert(prev.contains(bs.last().id));
                    }
                }
            }
        }
    }
}

/// After a handle is unregistered, no evaluation pass ever reports it
/// again, whatever is pressed and whatever scopes are active.
pub proof fn lemma_unregistered_never_fires(
    bs: Seq<SpecBinding>,
    pressed: Set<Seq<char>>,
    active: Seq<Seq<char>>,
    id: u64,
)
    ensures
        !spec_fired(spec_remove_binding(bs, id), pressed, active).contains(id),
{
    lemma_remove_binding_removes(bs, id);
    lemma_fired_handles(spec_remove_binding(bs, id), pressed, active, id);
}

/// Removing a handle removes every registration under it.
proof fn lemma_remove_binding_removes(bs: Seq<SpecBinding>, id: u64)
    ensures
        forall|j: int|
            0 <= j < spec_remove_binding(bs, id).len() ==> spec_remove_binding(bs, id)[j].id != id,
    decreases bs.len(),
{
    if bs.len() > 0 {
        lemma_remove_binding_removes(bs.drop_last(), id);
        let prev = spec_remove_binding(bs.drop_last(), id);
        assert forall|j: int|
            0 <= j < spec_remove_binding(bs, id).len() implies spec_remove_binding(
            bs,
            id,
        )[j].id != id by {
            if bs.last().id != id && j < prev.len() {
                assert(spec_remove_binding(bs, id)[j] == prev[j]);
            }
        }
    }
}

/// Lower-casing is idempotent on characters.
proof fn lemma_lower_char_idempotent(c: char)
    ensures
        spec_lower_char(spec_lower_char(c)) == spec_lower_char(c),
{
}

/// Lower-casing never turns a character into or out of whitespace.
proof fn lemma_lower_char_space(c: char)
    ensures
        is_space(spec_lower_char(c)) == is_space(c),
{
}

/// For a character that is not a letter, lower-casing neither produces
/// nor removes an occurrence of it.
proof fn lemma_lower_char_eq_nonletter(c: char, t: char)
    requires
        !('a' <= t && t <= 'z'),
        !('A' <= t && t <= 'Z'),
    ensures
        (spec_lower_char(c) == t) == (c == t),
{
}

/// Lower-casing is idempotent on sequences.
proof fn lemma_to_lower_idempotent(s: Seq<char>)
    ensures
        to_lower(to_lower(s)) == to_lower(s),
{
    assert forall|i: int| 0 <= i < s.len() implies to_lower(to_lower(s))[i] == to_lower(s)[i] by {
        lemma_lower_char_idempotent(s[i]);
    }
    assert(to_lower(to_lower(s)) =~= to_lower(s));
}

/// Searching for a separator is unaffected by lower-casing.
proof fn lemma_find_char_lower(s: Seq<char>, c: char)
    requires
        !('a' <= c && c <= 'z'),
        !('A' <= c && c <= 'Z'),
    ensures
        find_char(to_lower(s), c) == find_char(s, c),
    decreases s.len(),
{
    if s.len() == 0 {
        assert(to_lower(s).len() == 0);
    } else {
        lemma_lower_char_eq_nonletter(s[0], c);
        if s[0] == c {
        } else {
            assert(to_lower(s).skip(1) =~= to_lower(s.skip(1)));
            lemma_find_char_lower(s.skip(1), c);
        }
    }
}

/// Dropping leading whitespace commutes with lower-casing.
proof fn lemma_trim_front_lower(s: Seq<char>)
    ensures
        trim_front(to_lower(s)) == to_lower(trim_front(s)),
    decreases s.len(),
{
    if s.len() > 0 {
        lemma_lower_char_space(s[0]);
        if is_space(s[0]) {
            assert(to_lower(s).skip(1) =~= to_lower(s.skip(1)));
            lemma_trim_front_lower(s.skip(1));
        }
    }
}

/// Dropping trailing whitespace commutes with lower-casing.
proof fn lemma_trim_back_lower(s: Seq<char>)
    ensures
        trim_back(to_lower(s)) == to_lower(trim_back(s)),
    decreases s.len(),
{
    if s.len() > 0 {
        lemma_lower_char_space(s.last());
        assert(to_lower(s).last() == spec_lower_char(s.last()));
        if is_space(s.last()) {
            assert(to_lower(s).drop_last() =~= to_lower(s.drop_last()));
            lemma_trim_back_lower(s.drop_last());
        }
    }
}

/// The canonical form of a token is unaffected by lower-casing the raw
/// token.
proof fn lemma_norm_token_lower(t: Seq<char>)
    ensures
        norm_token(to_lower(t)) == norm_token(t),
{
    lemma_trim_front_lower(t);
    lemma_trim_back_lower(trim_front(t));
    assert(trim(to_lower(t)) == to_lower(trim(t)));
    lemma_to_lower_idempotent(trim(t));
}

/// Folding a token is unaffected by its case.
pub proof fn lemma_apply_token_lower(h: SpecHotkey, t: Seq<char>)
    ensures
        apply_token(h, to_lower(t)) == apply_token(h, t),
{
    lemma_norm_token_lower(t);
}

/// Parsing one combination is unaffected by case.
proof fn lemma_parse_combo_from_lower(s: Seq<char>, acc: SpecHotkey)
    ensures
        parse_combo_from(to_lower(s), acc) == parse_combo_from(s, acc),
    decreases s.len(),
{
    lemma_find_char_lower(s, '+');
    lemma_find_char(s, '+');
    let i = find_char(s, '+');
    if i == -1 {
        lemma_apply_token_lower(acc, s);
    } else {
        assert(to_lower(s).take(i) =~= to_lower(s.take(i)));
        assert(to_lower(s).skip(i + 1) =~= to_lower(s.skip(i + 1)));
        lemma_apply_token_lower(acc, s.take(i));
        lemma_parse_combo_from_lower(s.skip(i + 1), apply_token(acc, s.take(i)));
    }
}

/// Parsing is insensitive to the case of the specification: a
/// specification and its lower-cased form denote the same hotkeys.
pub proof fn lemma_parse_case_insensitive(s: Seq<char>)
    ensures
        spec_parse_alternatives(to_lower(s)) == spec_parse_alternatives(s),
    decreases s.len(),
{
    lemma_find_char_lower(s, ',');
    lemma_find_char(s, ',');
    let i = find_char(s, ',');
    if i == -1 {
        lemma_parse_combo_from_lower(s, crate::parser::empty_hotkey());
    } else {
        assert(to_lower(s).take(i) =~= to_lower(s.take(i)));
        assert(to_lower(s).skip(i + 1) =~= to_lower(s.skip(i + 1)));
        lemma_parse_combo_from_lower(s.take(i), crate::parser::empty_hotkey());
        lemma_parse_case_insensitive(s.skip(i + 1));
    }
}

/// `trim_front` leaves no leading whitespace.
proof fn lemma_trim_front_props(s: Seq<char>)
    ensures
        trim_front(s).len() == 0 || !is_space(trim_front(s)[0]),
    decreases s.len(),
{
    if s.len() > 0 && is_space(s[0]) {
        lemma_trim_front_props(s.skip(1));
    }
}

/// `trim_back` leaves no trailing whitespace.
proof fn lemma_trim_back_props(s: Seq<char>)
    ensures
        trim_back(s).len() == 0 || !is_space(trim_back(s).last()),
    decreases s.len(),
{
    if s.len() > 0 && is_space(s.last()) {
        lemma_trim_back_props(s.drop_last());
    }
}

/// `trim_back` yields a prefix of its argument.
proof fn lemma_trim_back_prefix(s: Seq<char>)
    ensures
        trim_back(s).len() <= s.len(),
        forall|i: int| 0 <= i < trim_back(s).len() ==> trim_back(s)[i] == s[i],
    decreases s.len(),
{
    if s.len() > 0 && is_space(s.last()) {
        lemma_trim_back_prefix(s.drop_last());
        assert forall|i: int| 0 <= i < trim_back(s).len() implies trim_back(s)[i] == s[i] by {
            assert(trim_back(s)[i] == s.drop_last()[i]);
        }
    }
}

/// Trimming is idempotent.
proof fn lemma_trim_idempotent(s: Seq<char>)
    ensures
        trim(trim(s)) == trim(s),
{
    let u = trim_front(s);
    let t = trim_back(u);
    lemma_trim_front_props(s);
    lemma_trim_back_props(u);
    lemma_trim_back_prefix(u);
    if t.len() > 0 {
        assert(t[0] == u[0]);
        assert(!is_space(t[0]));
    }
    assert(trim_front(t) == t);
    assert(trim_back(t) == t);
}

/// Folding a token is unaffected by whitespace around it: a token and its
/// trimmed form are the same requirement or the same literal key.
pub proof fn lemma_apply_token_trim(h: SpecHotkey, t: Seq<char>)
    ensures
        apply_token(h, trim(t)) == apply_token(h, t),
{
    lemma_trim_idempotent(t);
    assert(norm_token(trim(t)) == norm_token(t));
}

/// The number of leading whitespace characters of `s`.
spec fn leading_spaces(s: Seq<char>) -> int
    decreases s.len(),
{
    if s.len() > 0 && is_space(s[0]) {
        1 + leading_spaces(s.skip(1))
    } else {
        0
    }
}

/// `trim_front` skips exactly the leading whitespace.
proof fn lemma_leading_spaces(s: Seq<char>)
    ensures
        0 <= leading_spaces(s) <= s.len(),
        forall|j: int| 0 <= j < leading_spaces(s) ==> is_space(s[j]),
        leading_spaces(s) == s.len() || !is_space(s[leading_spaces(s)]),
        trim_front(s) == s.skip(leading_spaces(s)),
    decreases s.len(),
{
    if s.len() > 0 && is_space(s[0]) {
        lemma_leading_spaces(s.skip(1));
        let a = leading_spaces(s);
        assert forall|j: int| 0 <= j < a implies is_space(s[j]) by {
            if j > 0 {
                assert(s.skip(1)[j - 1] == s[j]);
            }
        }
        if a < s.len() {
            assert(s.skip(1)[a - 1] == s[a]);
        }
        assert(s.skip(1).skip(a - 1) =~= s.skip(a));
    } else {
        assert(s.skip(0) =~= s);
    }
}

/// Appending a whitespace character does not change the trimmed form.
proof fn lemma_trim_push_space(s: Seq<char>, c: char)
    requires
        is_space(c),
    ensures
        trim(s.push(c)) == trim(s),
{
    lemma_leading_spaces(s);
    lemma_leading_spaces(s.push(c));
    let a = leading_spaces(s);
    let a2 = leading_spaces(s.push(c));
    if a == s.len() {
        assert forall|j: int| 0 <= j < s.push(c).len() implies is_space(s.push(c)[j]) by {
            if j < s.len() {
                assert(s.push(c)[j] == s[j]);
            }
        }
        assert(a2 == s.len() + 1);
        assert(trim_front(s.push(c)) =~= Seq::<char>::empty());
        assert(trim_front(s) =~= Seq::<char>::empty());
    } else {
        assert(s.push(c)[a] == s[a]);
        if a2 < a {
            assert(is_space(s.push(c)[a2]));
            assert(false);
        }
        if a2 > a {
            assert(is_space(s.push(c)[a]));
            assert(false);
        }
        let u = s.skip(a);
        assert(trim_front(s.push(c)) =~= u.push(c));
        assert(u.push(c).last() == c);
        assert(u.push(c).drop_last() =~= u);
        assert(trim_back(u.push(c)) == trim_back(u));
    }
}

/// Prepending a whitespace character does not change the trimmed form.
proof fn lemma_trim_cons_space(c: char, s: Seq<char>)
    requires
        is_space(c),
    ensures
        trim(seq![c] + s) == trim(s),
{
    let u = seq![c] + s;
    assert(u[0] == c);
    assert(u.skip(1) =~= s);
}

/// Where the first occurrence of `c` lands after a different character is
/// inserted.
proof fn lemma_find_char_insert(s: Seq<char>, i: int, c0: char, c: char)
    requires
        0 <= i <= s.len(),
        c0 != c,
    ensures
        find_char(s, c) == -1 ==> find_char(s.insert(i, c0), c) == -1,
        find_char(s, c) != -1 && i <= find_char(s, c) ==> find_char(s.insert(i, c0), c)
            == find_char(s, c) + 1,
        find_char(s, c) != -1 && i > find_char(s, c) ==> find_char(s.insert(i, c0), c)
            == find_char(s, c),
{
    let u = s.insert(i, c0);
    s.insert_ensures(i, c0);
    lemma_find_char(s, c);
    let f = find_char(s, c);
    if f == -1 {
        assert forall|j: int| 0 <= j < u.len() implies u[j] != c by {
            if j < i {
                assert(u[j] == s[j]);
            } else if j == i {
            } else {
                assert(u[j] == s[j - 1]);
            }
        }
        lemma_find_char_none(u, c);
    } else if i <= f {
        assert(u[f + 1] == s[f]);
        assert forall|j: int| 0 <= j < f + 1 implies u[j] != c by {
            if j < i {
                assert(u[j] == s[j]);
            } else if j == i {
            } else {
                assert(u[j] == s[j - 1]);
            }
        }
        lemma_find_char_at(u, c, f + 1);
    } else {
        assert(u[f] == s[f]);
        assert forall|j: int| 0 <= j < f implies u[j] != c by {
            assert(u[j] == s[j]);
        }
        lemma_find_char_at(u, c, f);
    }
}

/// `i` is the start or the end of a token of the combination `s`: the
/// edge of the whole text or a position right beside a `+` separator.
pub open spec fn at_token_edge(s: Seq<char>, i: int) -> bool {
    i == 0 || i == s.len() || s[i] == '+' || s[i - 1] == '+'
}

/// `i` is the start or the end of a token of the full specification `s`:
/// the edge of the whole text or a position right beside a `+` or `,`
/// separator.
pub open spec fn at_separator_edge(s: Seq<char>, i: int) -> bool {
    i == 0 || i == s.len() || s[i] == '+' || s[i] == ',' || s[i - 1] == '+' || s[i - 1] == ','
}

/// Inserting a space at a token edge of one combination does not change
/// what it parses to.
proof fn lemma_combo_insert_space(s: Seq<char>, acc: SpecHotkey, i: int)
    requires
        0 <= i <= s.len(),
        at_token_edge(s, i),
    ensures
        parse_combo_from(s.insert(i, ' '), acc) == parse_combo_from(s, acc),
    decreases s.len(),
{
    let u = s.insert(i, ' ');
    s.insert_ensures(i, ' ');
    lemma_find_char(s, '+');
    lemma_find_char_insert(s, i, ' ', '+');
    let f = find_char(s, '+');
    if f == -1 {
        if i == 0 {
            assert(u =~= seq![' '] + s);
            lemma_trim_cons_space(' ', s);
        } else {
            assert(i == s.len());
            assert(u =~= s.push(' '));
            lemma_trim_push_space(s, ' ');
        }
        assert(norm_token(u) == norm_token(s));
    } else if i <= f {
        let t = s.take(f);
        assert(u.take(f + 1) =~= t.insert(i, ' '));
        if i == 0 {
            assert(t.insert(0, ' ') =~= seq![' '] + t);
            lemma_trim_cons_space(' ', t);
        } else {
            assert(i == f);
            assert(t.insert(f, ' ') =~= t.push(' '));
            lemma_trim_push_space(t, ' ');
        }
        assert(norm_token(u.take(f + 1)) == norm_token(t));
        assert(apply_token(acc, u.take(f + 1)) == apply_token(acc, t));
        assert(u.skip(f + 2) =~= s.skip(f + 1));
    } else {
        assert(u.take(f) =~= s.take(f));
        let s2 = s.skip(f + 1);
        assert(u.skip(f + 1) =~= s2.insert(i - f - 1, ' '));
        assert forall|j: int| 0 <= j < s2.len() implies s2[j] == s[f + 1 + j] by {}
        assert(at_token_edge(s2, i - f - 1));
        lemma_combo_insert_space(s2, apply_token(acc, s.take(f)), i - f - 1);
    }
}

/// Parsing is insensitive to whitespace around tokens: inserting a space
/// at the edge of the specification or beside a separator leaves the
/// parsed hotkeys unchanged. Any amount of whitespace around tokens
/// follows by repetition.
pub proof fn lemma_parse_whitespace_insensitive(s: Seq<char>, i: int)
    requires
        0 <= i <= s.len(),
        at_separator_edge(s, i),
    ensures
        spec_parse_alternatives(s.insert(i, ' ')) == spec_parse_alternatives(s),
    decreases s.len(),
{
    let u = s.insert(i, ' ');
    s.insert_ensures(i, ' ');
    lemma_find_char(s, ',');
    lemma_find_char_insert(s, i, ' ', ',');
    let f = find_char(s, ',');
    if f == -1 {
        assert(at_token_edge(s, i));
        lemma_combo_insert_space(s, crate::parser::empty_hotkey(), i);
    } else if i <= f {
        let t = s.take(f);
        assert(u.take(f + 1) =~= t.insert(i, ' '));
        assert(at_token_edge(t, i)) by {
            if !(i == 0 || i == t.len()) {
                if s[i] == ',' {
                    assert(false);
                }
                if s[i - 1] == ',' {
                    assert(false);
                }
                if s[i] == '+' {
                    assert(t[i] == '+');
                }
                if s[i - 1] == '+' {
                    assert(t[i - 1] == '+');
                }
            }
        }
        lemma_combo_insert_space(t, crate::parser::empty_hotkey(), i);
        assert(spec_parse_combo(u.take(f + 1)) == spec_parse_combo(t));
        assert(u.skip(f + 2) =~= s.skip(f + 1));
    } else {
        assert(u.take(f) =~= s.take(f));
        let s2 = s.skip(f + 1);
        assert(u.skip(f + 1) =~= s2.insert(i - f - 1, ' '));
        assert forall|j: int| 0 <= j < s2.len() implies s2[j] == s[f + 1 + j] by {}
        assert(at_separator_edge(s2, i - f - 1));
        lemma_parse_whitespace_insensitive(s2, i - f - 1);
    }
}

} // verus!
