//! The key-combination parser. A caller-level specification is a
//! comma-separated list of alternatives; each alternative is a list of
//! tokens separated by `+`. Tokens are case-insensitive and whitespace
//! around them is ignored. A token naming a modifier sets the matching
//! flag; any other token is kept as a literal key identifier. Unknown
//! tokens are never rejected: they simply never match a pressed key.

use vstd::prelude::*;
use crate::hotkey::{Hotkey, Modifiers, SpecHotkey};
use crate::strutil::{char_is_space, is_space, lower_char, str_eq, to_lower};
use vstd::string::StrSliceExecFns;

verus! {

/// The index of the first occurrence of `c` in `s`, or `-1` if `c` does
/// not occur.
pub open spec fn find_char(s: Seq<char>, c: char) -> int
    decreases s.len(),
{
    if s.len() == 0 {
        -1
    } else if s[0] == c {
        0
    } else {
        let r = find_char(s.skip(1), c);
        if r == -1 {
            -1
        } else {
            r + 1
        }
    }
}

/// What `find_char` returns: the least index holding `c`, or `-1` when
/// there is none.
pub proof fn lemma_find_char(s: Seq<char>, c: char)
    ensures
        find_char(s, c) == -1 ==> forall|i: int| 0 <= i < s.len() ==> s[i] != c,
        find_char(s, c) != -1 ==> 0 <= find_char(s, c) < s.len() && s[find_char(s, c)] == c
            && forall|j: int| 0 <= j < find_char(s, c) ==> s[j] != c,
    decreases s.len(),
{
    if s.len() > 0 && s[0] != c {
        lemma_find_char(s.skip(1), c);
        let r = find_char(s.skip(1), c);
        if r == -1 {
            assert forall|i: int| 0 <= i < s.len() implies s[i] != c by {
                if i > 0 {
                    assert(s.skip(1)[i - 1] == s[i]);
                }
            }
        } else {
            assert(s.skip(1)[r] == s[r + 1]);
            assert forall|j: int| 0 <= j < r + 1 implies s[j] != c by {
                if j > 0 {
                    assert(s.skip(1)[j - 1] == s[j]);
                }
            }
        }
    }
}

/// `find_char` recognises the first occurrence: an occurrence at `i` with
/// none before it pins the result to `i`.
pub proof fn lemma_find_char_at(s: Seq<char>, c: char, i: int)
    requires
        0 <= i < s.len(),
        s[i] == c,
        forall|j: int| 0 <= j < i ==> s[j] != c,
    ensures
        find_char(s, c) == i,
{
    lemma_find_char(s, c);
    let r = find_char(s, c);
    if r == -1 {
        assert(s[i] != c);
        assert(false);
    } else {
        if r < i {
            assert(s[r] != c);
            assert(false);
        }
        if r > i {
            assert(s[i] != c);
            assert(false);
        }
    }
}

/// With no occurrence of `c` at all, `find_char` reports `-1`.
pub proof fn lemma_find_char_none(s: Seq<char>, c: char)
    requires
        forall|i: int| 0 <= i < s.len() ==> s[i] != c,
    ensures
        find_char(s, c) == -1,
{
    lemma_find_char(s, c);
    let r = find_char(s, c);
    if r != -1 {
        assert(s[r] != c);
        assert(false);
    }
}

/// `s` with its leading whitespace removed.
pub open spec fn trim_front(s: Seq<char>) -> Seq<char>
    decreases s.len(),
{
    if s.len() > 0 && is_space(s[0]) {
        trim_front(s.skip(1))
    } else {
        s
    }
}

/// `s` with its trailing whitespace removed.
pub open spec fn trim_back(s: Seq<char>) -> Seq<char>
    decreases s.len(),
{
    if s.len() > 0 && is_space(s.last()) {
        trim_back(s.drop_last())
    } else {
        s
    }
}

/// `s` with surrounding whitespace removed.
pub open spec fn trim(s: Seq<char>) -> Seq<char> {
    trim_back(trim_front(s))
}

/// The canonical form of a token: surrounding whitespace dropped and the
/// rest lower-cased.
pub open spec fn norm_token(t: Seq<char>) -> Seq<char> {
    to_lower(trim(t))
}

/// The canonical token forms that request the control modifier.
pub open spec fn is_ctrl_token(n: Seq<char>) -> bool {
    n == "ctrl"@ || n == "control"@
}

/// The canonical token form that requests the shift modifier.
pub open spec fn is_shift_token(n: Seq<char>) -> bool {
    n == "shift"@
}

/// The canonical token forms that request the alt modifier.
pub open spec fn is_alt_token(n: Seq<char>) -> bool {
    n == "alt"@ || n == "option"@
}

/// The canonical token forms that request the meta ("super"/"command")
/// modifier.
pub open spec fn is_meta_token(n: Seq<char>) -> bool {
    n == "meta"@ || n == "cmd"@ || n == "command"@ || n == "super"@ || n == "win"@
}

/// Folds one token into a partially built hotkey: a modifier token sets
/// its flag, any other token is appended to the literal keys in canonical
/// form.
pub open spec fn apply_token(h: SpecHotkey, t: Seq<char>) -> SpecHotkey {
    let n = norm_token(t);
    if is_ctrl_token(n) {
        SpecHotkey { modifiers: Modifiers { ctrl: true, ..h.modifiers }, keys: h.keys }
    } else if is_shift_token(n) {
        SpecHotkey { modifiers: Modifiers { shift: true, ..h.modifiers }, keys: h.keys }
    } else if is_alt_token(n) {
        SpecHotkey { modifiers: Modifiers { alt: true, ..h.modifiers }, keys: h.keys }
    } else if is_meta_token(n) {
        SpecHotkey { modifiers: Modifiers { meta: true, ..h.modifiers }, keys: h.keys }
    } else {
        SpecHotkey { modifiers: h.modifiers, keys: h.keys.push(n) }
    }
}

/// A hotkey with no requirements; the starting point of parsing.
pub open spec fn empty_hotkey() -> SpecHotkey {
    SpecHotkey {
        modifiers: Modifiers { ctrl: false, shift: false, alt: false, meta: false },
        keys: Seq::empty(),
    }
}

/// Folds the `+`-separated tokens of `s` into `acc`, left to right.
pub open spec fn parse_combo_from(s: Seq<char>, acc: SpecHotkey) -> SpecHotkey
    decreases s.len(),
    via parse_combo_from_decreases
{
    let i = find_char(s, '+');
    if i == -1 {
        apply_token(acc, s)
    } else {
        parse_combo_from(s.skip(i + 1), apply_token(acc, s.take(i)))
    }
}

#[via_fn]
proof fn parse_combo_from_decreases(s: Seq<char>, acc: SpecHotkey) {
    lemma_find_char(s, '+');
}

/// The hotkey denoted by one combination such as `"ctrl+shift+k"`.
pub open spec fn spec_parse_combo(s: Seq<char>) -> SpecHotkey {
    parse_combo_from(s, empty_hotkey())
}

/// The hotkeys denoted by a comma-separated list of alternative
/// combinations, in the order written.
pub open spec fn spec_parse_alternatives(s: Seq<char>) -> Seq<SpecHotkey>
    decreases s.len(),
    via spec_parse_alternatives_decreases
{
    let i = find_char(s, ',');
    if i == -1 {
        seq![spec_parse_combo(s)]
    } else {
        seq![spec_parse_combo(s.take(i))] + spec_parse_alternatives(s.skip(i + 1))
    }
}

#[via_fn]
proof fn spec_parse_alternatives_decreases(s: Seq<char>) {
    lemma_find_char(s, ',');
}

/// Removing leading whitespace is the same as skipping to the first
/// non-whitespace index.
proof fn lemma_trim_front_index(s: Seq<char>, a: int)
    requires
        0 <= a <= s.len(),
        forall|j: int| 0 <= j < a ==> is_space(s[j]),
        a == s.len() || !is_space(s[a]),
    ensures
        trim_front(s) == s.skip(a),
    decreases a,
{
    if a == 0 {
        assert(s.skip(0) =~= s);
    } else {
        assert(is_space(s[0]));
        lemma_trim_front_index(s.skip(1), a - 1);
        assert(s.skip(1).skip(a - 1) =~= s.skip(a));
    }
}

/// Removing trailing whitespace is the same as taking the prefix up to
/// the last non-whitespace index.
proof fn lemma_trim_back_index(s: Seq<char>, b: int)
    requires
        0 <= b <= s.len(),
        forall|j: int| b <= j < s.len() ==> is_space(s[j]),
        b == 0 || !is_space(s[b - 1]),
    ensures
        trim_back(s) == s.take(b),
    decreases s.len(),
{
    if b == s.len() {
        if s.len() > 0 && is_space(s.last()) {
            assert(!is_space(s[b - 1]));
            assert(false);
        }
        assert(s.take(b) =~= s);
    } else {
        assert(is_space(s.last()));
        lemma_trim_back_index(s.drop_last(), b);
        assert(s.drop_last().take(b) =~= s.take(b));
    }
}

/// `trim(s)` is the subrange between the first and last non-whitespace
/// characters.
proof fn lemma_trim_index(s: Seq<char>, a: int, b: int)
    requires
        0 <= a <= b <= s.len(),
        forall|j: int| 0 <= j < a ==> is_space(s[j]),
        forall|j: int| b <= j < s.len() ==> is_space(s[j]),
        a == s.len() || !is_space(s[a]),
        b == a || !is_space(s[b - 1]),
    ensures
        trim(s) == s.subrange(a, b),
    decreases s.len(),
{
    if a == s.len() {
        lemma_trim_front_index(s, a);
        assert(trim_front(s) =~= Seq::<char>::empty());
        assert(trim_back(Seq::<char>::empty()) =~= Seq::<char>::empty());
        assert(s.subrange(a, b) =~= Seq::<char>::empty());
    } else {
        if b == a {
            assert(is_space(s[a]));
            assert(false);
        }
        lemma_trim_front_index(s, a);
        let u = s.skip(a);
        assert(!is_space(u[b - a - 1]));
        lemma_trim_back_index(u, b - a);
        assert(u.take(b - a) =~= s.subrange(a, b));
    }
}

/// Appends one token, already isolated as `tok`, to the hotkey being
/// built.
fn push_token(h: &mut Hotkey, tok: &str)
    ensures
        final(h)@ == apply_token(old(h)@, tok@),
{
    let n = tok.unicode_len();
    let mut a: usize = 0;
    while a < n && char_is_space(tok.get_char(a))
        invariant
            n == tok@.len(),
            a <= n,
            forall|j: int| 0 <= j < a ==> is_space(tok@[j]),
        decreases n - a,
    {
        a = a + 1;
    }
    let mut b: usize = n;
    while b > a && char_is_space(tok.get_char(b - 1))
        invariant
            n == tok@.len(),
            a <= b <= n,
            forall|j: int| b <= j < n ==> is_space(tok@[j]),
        decreases b,
    {
        b = b - 1;
    }
    proof {
        lemma_trim_index(tok@, a as int, b as int);
    }
    let mut norm = String::new();
    let mut i: usize = a;
    while i < b
        invariant
            n == tok@.len(),
            a <= i <= b <= n,
            norm@ =~= to_lower(tok@.subrange(a as int, i as int)),
        decreases b - i,
    {
        norm.push(lower_char(tok.get_char(i)));
        proof {
            assert(norm@ =~= to_lower(tok@.subrange(a as int, i + 1 as int)));
        }
        i = i + 1;
    }
    proof {
        assert(norm@ == norm_token(tok@));
    }
    let ns = norm.as_str();
    if str_eq(ns, "ctrl") || str_eq(ns, "control") {
        h.modifiers.ctrl = true;
    } else if str_eq(ns, "shift") {
        h.modifiers.shift = true;
    } else if str_eq(ns, "alt") || str_eq(ns, "option") {
        h.modifiers.alt = true;
    } else if str_eq(ns, "meta") || str_eq(ns, "cmd") || str_eq(ns, "command") || str_eq(
        ns,
        "super",
    ) || str_eq(ns, "win") {
        h.modifiers.meta = true;
    } else {
        let ghost pre = *h;
        h.keys.push(norm);
        proof {
            assert(h.keys.deep_view() =~= pre.keys.deep_view().push(norm@));
        }
    }
}

impl Hotkey {
    /// Parses one key-combination alternative such as `"ctrl+shift+k"`.
    /// Tokens are separated by `+`, compared case-insensitively, and
    /// whitespace around them is ignored.
    pub fn new(key_combination: &str) -> (h: Hotkey)
        ensures
            h@ == spec_parse_combo(key_combination@),
    {
        let n = key_combination.unicode_len();
        let mut h = Hotkey { modifiers: Modifiers::empty(), keys: Vec::new() };
        proof {
            assert(h.keys.deep_view() =~= Seq::<Seq<char>>::empty());
            assert(h@ == empty_hotkey());
            assert(key_combination@.skip(0) =~= key_combination@);
        }
        let mut t0: usize = 0;
        let mut i: usize = 0;
        while i < n
            invariant
                n == key_combination@.len(),
                t0 <= i <= n,
                forall|j: int| t0 <= j < i ==> key_combination@[j] != '+',
                parse_combo_from(key_combination@.skip(t0 as int), h@) == spec_parse_combo(
                    key_combination@,
                ),
            decreases n - i,
        {
            if key_combination.get_char(i) == '+' {
                let ghost pre = h@;
                let ghost u = key_combination@.skip(t0 as int);
                proof {
                    assert forall|j: int| 0 <= j < i - t0 implies u[j] != '+' by {
                        assert(u[j] == key_combination@[t0 + j]);
                    }
                    assert(u[i - t0] == '+');
                    lemma_find_char_at(u, '+', i - t0);
                    assert(u.take(i - t0) =~= key_combination@.subrange(t0 as int, i as int));
                    assert(u.skip(i - t0 + 1) =~= key_combination@.skip(i + 1 as int));
                }
                let tok = key_combination.substring_char(t0, i);
                push_token(&mut h, tok);
                proof {
                    assert(parse_combo_from(u, pre) == parse_combo_from(
                        key_combination@.skip(i + 1 as int),
                        h@,
                    ));
                }
                t0 = i + 1;
            }
            i = i + 1;
        }
        let ghost u = key_combination@.skip(t0 as int);
        proof {
            assert forall|j: int| 0 <= j < u.len() implies u[j] != '+' by {
                assert(u[j] == key_combination@[t0 + j]);
            }
            lemma_find_char_none(u, '+');
        }
        let ghost pre = h@;
        let tok = key_combination.substring_char(t0, n);
        proof {
            assert(tok@ =~= u);
        }
        push_token(&mut h, tok);
        proof {
            assert(h@ == parse_combo_from(u, pre));
        }
        h
    }
}

/// Parses a caller-level specification: a comma-separated list of
/// alternative combinations, tried in the order written.
pub fn parse_alternatives(key_combination: &str) -> (v: Vec<Hotkey>)
    ensures
        v.deep_view() == spec_parse_alternatives(key_combination@),
{
    let n = key_combination.unicode_len();
    let mut v: Vec<Hotkey> = Vec::new();
    proof {
        assert(v.deep_view() =~= Seq::<SpecHotkey>::empty());
        assert(key_combination@.skip(0) =~= key_combination@);
        assert(Seq::<SpecHotkey>::empty() + spec_parse_alternatives(key_combination@)
            =~= spec_parse_alternatives(key_combination@));
    }
    let mut t0: usize = 0;
    let mut i: usize = 0;
    while i < n
        invariant
            n == key_combination@.len(),
            t0 <= i <= n,
            forall|j: int| t0 <= j < i ==> key_combination@[j] != ',',
            spec_parse_alternatives(key_combination@) =~= v.deep_view()
                + spec_parse_alternatives(key_combination@.skip(t0 as int)),
        decreases n - i,
    {
        if key_combination.get_char(i) == ',' {
            let ghost prev = v.deep_view();
            let ghost u = key_combination@.skip(t0 as int);
            proof {
                assert forall|j: int| 0 <= j < i - t0 implies u[j] != ',' by {
                    assert(u[j] == key_combination@[t0 + j]);
                }
                assert(u[i - t0] == ',');
                lemma_find_char_at(u, ',', i - t0);
                assert(u.take(i - t0) =~= key_combination@.subrange(t0 as int, i as int));
                assert(u.skip(i - t0 + 1) =~= key_combination@.skip(i + 1 as int));
            }
            let alt = key_combination.substring_char(t0, i);
            let h = Hotkey::new(alt);
            v.push(h);
            proof {
                assert(v.deep_view() =~= prev.push(spec_parse_combo(alt@)));
                assert(spec_parse_alternatives(u) =~= seq![spec_parse_combo(u.take(i - t0))]
                    + spec_parse_alternatives(key_combination@.skip(i + 1 as int)));
                assert(prev + spec_parse_alternatives(u) =~= v.deep_view()
                    + spec_parse_alternatives(key_combination@.skip(i + 1 as int)));
            }
            t0 = i + 1;
        }
        i = i + 1;
    }
    let ghost u = key_combination@.skip(t0 as int);
    proof {
        assert forall|j: int| 0 <= j < u.len() implies u[j] != ',' by {
            assert(u[j] == key_combination@[t0 + j]);
        }
        lemma_find_char_none(u, ',');
    }
    let ghost prev = v.deep_view();
    let alt = key_combination.substring_char(t0, n);
    proof {
        assert(alt@ =~= u);
    }
    let h = Hotkey::new(alt);
    v.push(h);
    proof {
        assert(v.deep_view() =~= prev.push(spec_parse_combo(u)));
        assert(v.deep_view() =~= prev + spec_parse_alternatives(u));
    }
    v
}

} // verus!
