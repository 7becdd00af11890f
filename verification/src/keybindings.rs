//! Keybinding modes and the check that normal-mode bindings leave the count
//! digits free.

use vstd::prelude::*;
use crate::text::strings_view;
use crate::text::{chars_of, chars_view, concat_str, split_words, string_from_chars, words};

verus! {

/// The modes that keybindings are configured for.
#[derive(Debug, Clone, Copy, PartialEq, Eq, Structural)]
pub enum KeybindingMode {
    Global,
    Normal,
    Help,
    ReviewEditor,
    CommandPalette,
    FileSearch,
    FileFilter,
    Goto,
    Search,
    Selection,
    Dashboard,
    DashboardFilter,
}

/// The name of a mode in the configuration (`[keybindings.<name>]`).
pub open spec fn mode_id_spec(m: KeybindingMode) -> Seq<char> {
    match m {
        KeybindingMode::Global => "global"@,
        KeybindingMode::Normal => "normal"@,
        KeybindingMode::Help => "help"@,
        KeybindingMode::ReviewEditor => "review_editor"@,
        KeybindingMode::CommandPalette => "command_palette"@,
        KeybindingMode::FileSearch => "file_search"@,
        KeybindingMode::FileFilter => "file_filter"@,
        KeybindingMode::Goto => "goto"@,
        KeybindingMode::Search => "search"@,
        KeybindingMode::Selection => "selection"@,
        KeybindingMode::Dashboard => "dashboard"@,
        KeybindingMode::DashboardFilter => "dashboard_filter"@,
    }
}

impl KeybindingMode {
    /// The name of this mode in the configuration.
    pub fn id(self) -> (r: &'static str)
        ensures
            r@ == mode_id_spec(self),
    {
        match self {
            KeybindingMode::Global => "global",
            KeybindingMode::Normal => "normal",
            KeybindingMode::Help => "help",
            KeybindingMode::ReviewEditor => "review_editor",
            KeybindingMode::CommandPalette => "command_palette",
            KeybindingMode::FileSearch => "file_search",
            KeybindingMode::FileFilter => "file_filter",
            KeybindingMode::Goto => "goto",
            KeybindingMode::Search => "search",
            KeybindingMode::Selection => "selection",
            KeybindingMode::Dashboard => "dashboard",
            KeybindingMode::DashboardFilter => "dashboard_filter",
        }
    }
}

/// A configured mode name that names one of the modes.
pub open spec fn is_known_mode(name: Seq<char>) -> bool {
    exists|m: KeybindingMode| #[trigger] mode_id_spec(m) == name
}

fn all_modes() -> (r: Vec<KeybindingMode>)
    ensures
        forall|m: KeybindingMode| r@.contains(m),
{
    let r = vec![
        KeybindingMode::Global,
        KeybindingMode::Normal,
        KeybindingMode::Help,
        KeybindingMode::ReviewEditor,
        KeybindingMode::CommandPalette,
        KeybindingMode::FileSearch,
        KeybindingMode::FileFilter,
        KeybindingMode::Goto,
        KeybindingMode::Search,
        KeybindingMode::Selection,
        KeybindingMode::Dashboard,
        KeybindingMode::DashboardFilter,
    ];
    assert forall|m: KeybindingMode| r@.contains(m) by {
        match m {
            KeybindingMode::Global => assert(r@[0] == m),
            KeybindingMode::Normal => assert(r@[1] == m),
            KeybindingMode::Help => assert(r@[2] == m),
            KeybindingMode::ReviewEditor => assert(r@[3] == m),
            KeybindingMode::CommandPalette => assert(r@[4] == m),
            KeybindingMode::FileSearch => assert(r@[5] == m),
            KeybindingMode::FileFilter => assert(r@[6] == m),
            KeybindingMode::Goto => assert(r@[7] == m),
            KeybindingMode::Search => assert(r@[8] == m),
            KeybindingMode::Selection => assert(r@[9] == m),
            KeybindingMode::Dashboard => assert(r@[10] == m),
            KeybindingMode::DashboardFilter => assert(r@[11] == m),
        }
    }
    r
}

fn str_eq(a: &str, b: &str) -> (r: bool)
    ensures
        r == (a@ == b@),
{
    let x = chars_of(a);
    let y = chars_of(b);
    if x.len() != y.len() {
        return false;
    }
    let mut i: usize = 0;
    while i < x.len()
        invariant
            0 <= i <= x.len(),
            x.len() == y.len(),
            x@ == a@,
            y@ == b@,
            forall|j: int| 0 <= j < i ==> x@[j] == y@[j],
        decreases x.len() - i,
    {
        if x[i] != y[i] {
            return false;
        }
        i = i + 1;
    }
    assert(x@ =~= y@);
    true
}

fn known_mode(name: &str) -> (r: bool)
    ensures
        r == is_known_mode(name@),
{
    let modes = all_modes();
    let mut i: usize = 0;
    while i < modes.len()
        invariant
            0 <= i <= modes.len(),
            forall|m: KeybindingMode| modes@.contains(m),
            forall|j: int| 0 <= j < i ==> mode_id_spec(#[trigger] modes@[j]) != name@,
        decreases modes.len() - i,
    {
        if str_eq(modes[i].id(), name) {
            return true;
        }
        i = i + 1;
    }
    proof {
        assert forall|m: KeybindingMode| mode_id_spec(m) != name@ by {
            assert(modes@.contains(m));
            let j = choose|j: int| 0 <= j < modes@.len() && modes@[j] == m;
            assert(mode_id_spec(modes@[j]) != name@);
        }
    }
    false
}

/// The warning for a configured mode that names no mode.
pub open spec fn unknown_mode_warning(name: Seq<char>) -> Seq<char> {
    "Ignoring unknown keybinding mode [keybindings."@ + name + "]"@
}

/// The warnings for the configured mode names that name no mode, in order.
pub open spec fn unknown_mode_warnings(names: Seq<Seq<char>>) -> Seq<Seq<char>>
    decreases names.len(),
{
    if names.len() == 0 {
        Seq::empty()
    } else {
        let rest = unknown_mode_warnings(names.drop_last());
        if is_known_mode(names.last()) {
            rest
        } else {
            rest.push(unknown_mode_warning(names.last()))
        }
    }
}

/// Appends a warning for every configured mode name (in the order given)
/// that names no mode.
pub fn warn_unknown_modes(modes: &[String], warnings: &mut Vec<String>)
    ensures
        strings_view(final(warnings)@) == strings_view(old(warnings)@) + unknown_mode_warnings(strings_view(modes@)),
{
    let ghost start = strings_view(warnings@);
    let ghost ns = strings_view(modes@);
    let mut i: usize = 0;
    assert(ns.take(0) =~= Seq::<Seq<char>>::empty());
    while i < modes.len()
        invariant
            0 <= i <= modes.len(),
            ns == strings_view(modes@),
            strings_view(warnings@) == start + unknown_mode_warnings(ns.take(i as int)),
        decreases modes.len() - i,
    {
        let name = &modes[i];
        assert(ns.take(i + 1).drop_last() =~= ns.take(i as int));
        assert(ns.take(i + 1).last() == name@);
        if !known_mode(name.as_str()) {
            let head = concat_str("Ignoring unknown keybinding mode [keybindings.", name.as_str());
            let msg = concat_str(head.as_str(), "]");
            let ghost before = warnings@;
            warnings.push(msg);
            assert(strings_view(warnings@) =~= strings_view(before).push(msg@));
        }
        i = i + 1;
    }
    assert(ns.take(modes.len() as int) =~= ns);
}

// ---------------------------------------------------------------------------
// Count digits.
// ---------------------------------------------------------------------------

/// A count digit, `1` to `9`, as a word.
pub open spec fn is_count_digit(w: Seq<char>) -> bool {
    w.len() == 1 && '1' <= w[0] && w[0] <= '9'
}

/// The first word of `ws` that is a count digit.
pub open spec fn first_count_digit(ws: Seq<Seq<char>>) -> Option<Seq<char>>
    decreases ws.len(),
{
    if ws.len() == 0 {
        None
    } else if is_count_digit(ws[0]) {
        Some(ws[0])
    } else {
        first_count_digit(ws.drop_first())
    }
}

/// The first bound key, in the order of the bindings and of each action's
/// keys, that uses a count digit as one of its words: the action, the key
/// and the digit.
pub open spec fn first_digit_binding(bindings: Seq<(String, Vec<String>)>) -> Option<(Seq<char>, Seq<char>, Seq<char>)>
    decreases bindings.len(),
{
    if bindings.len() == 0 {
        None
    } else {
        match first_digit_key(bindings[0].1@) {
            Some((key, digit)) => Some((bindings[0].0@, key, digit)),
            None => first_digit_binding(bindings.drop_first()),
        }
    }
}

/// The first key of `keys` that uses a count digit, with the digit.
pub open spec fn first_digit_key(keys: Seq<String>) -> Option<(Seq<char>, Seq<char>)>
    decreases keys.len(),
{
    if keys.len() == 0 {
        None
    } else {
        match first_count_digit(words(keys[0]@)) {
            Some(d) => Some((keys[0]@, d)),
            None => first_digit_key(keys.drop_first()),
        }
    }
}

/// The error for a key that uses a count digit.
pub open spec fn count_digit_error(id: Seq<char>, key: Seq<char>, digit: Seq<char>) -> Seq<char> {
    "key '"@ + key + "' for '"@ + id + "' uses reserved count digit '"@ + digit + "'"@
}

/// The count digit that is a word of `key`, the first one from the left.
fn key_count_digit(key: &str) -> (r: Option<char>)
    ensures
        match r {
            Some(c) => first_count_digit(words(key@)) == Some(seq![c]),
            None => first_count_digit(words(key@)) is None,
        },
{
    let s = chars_of(key);
    let ws = split_words(s.as_slice());
    let ghost wv = chars_view(ws@);
    let mut i: usize = 0;
    assert(wv.skip(0) =~= wv);
    while i < ws.len()
        invariant
            0 <= i <= ws.len(),
            wv == chars_view(ws@),
            wv == words(key@),
            first_count_digit(wv) == first_count_digit(wv.skip(i as int)),
        decreases ws.len() - i,
    {
        let w = &ws[i];
        assert(wv.skip(i as int)[0] == w@);
        assert(wv.skip(i as int).drop_first() =~= wv.skip(i + 1));
        if w.len() == 1 && '1' <= w[0] && w[0] <= '9' {
            assert(w@ =~= seq![w@[0]]);
            return Some(w[0]);
        }
        i = i + 1;
    }
    None
}

/// Checks that no normal-mode key uses a count digit (`1` to `9`) as one of
/// its words; `bindings` holds each action with its keys, in the order of
/// the binding map. The error names the first such key.
pub fn validate_normal_count_bindings(bindings: &[(String, Vec<String>)]) -> (r: Result<(), String>)
    ensures
        match r {
            Ok(_) => first_digit_binding(bindings@) is None,
            Err(msg) => first_digit_binding(bindings@) matches Some((id, key, digit)) && msg@ == count_digit_error(
                id,
                key,
                digit,
            ),
        },
{
    let mut b: usize = 0;
    assert(bindings@.skip(0) =~= bindings@);
    while b < bindings.len()
        invariant
            0 <= b <= bindings.len(),
            first_digit_binding(bindings@) == first_digit_binding(bindings@.skip(b as int)),
        decreases bindings.len() - b,
    {
        let ghost rest = bindings@.skip(b as int);
        let (id, keys) = &bindings[b];
        assert(rest[0] == bindings@[b as int]);
        assert(rest.drop_first() =~= bindings@.skip(b + 1));
        let mut k: usize = 0;
        assert(keys@.skip(0) =~= keys@);
        while k < keys.len()
            invariant
                0 <= k <= keys.len(),
                b < bindings.len(),
                bindings@[b as int].0 == *id,
                bindings@[b as int].1 == *keys,
                rest == bindings@.skip(b as int),
                first_digit_binding(bindings@) == first_digit_binding(bindings@.skip(b as int)),
                first_digit_key(keys@) == first_digit_key(keys@.skip(k as int)),
            decreases keys.len() - k,
        {
            let ghost krest = keys@.skip(k as int);
            assert(krest[0] == keys@[k as int]);
            assert(krest.drop_first() =~= keys@.skip(k + 1));
            if let Some(d) = key_count_digit(keys[k].as_str()) {
                let key = &keys[k];
                let mut digit: Vec<char> = Vec::new();
                digit.push(d);
                assert(digit@ =~= seq![d]);
                let dstr = string_from_chars(digit.as_slice());
                let m1 = concat_str("key '", key.as_str());
                let m2 = concat_str(m1.as_str(), "' for '");
                let m3 = concat_str(m2.as_str(), id.as_str());
                let m4 = concat_str(m3.as_str(), "' uses reserved count digit '");
                let m5 = concat_str(m4.as_str(), dstr.as_str());
                let m6 = concat_str(m5.as_str(), "'");
                return Err(m6);
            }
            k = k + 1;
        }
        assert(keys@.skip(keys.len() as int) =~= Seq::<String>::empty());
        b = b + 1;
    }
    assert(bindings@.skip(bindings.len() as int) =~= Seq::<(String, Vec<String>)>::empty());
    Ok(())
}

} // verus!
