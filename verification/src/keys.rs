//! Key presses as the key handling reads them: a character or another key,
//! with its modifiers; the canonical form that bindings are matched in, and
//! the characters that text inputs take.

use vstd::prelude::*;
use crate::config::{ascii_lower, char_ascii_lower};

verus! {

/// The key of a key press: a character, or another key told apart by a
/// number of the terminal layer's choosing.
#[derive(Debug, Clone, Copy, PartialEq, Eq, Structural)]
pub enum KeyCode {
    Char(char),
    Other(u32),
}

/// The modifiers held with a key.
#[derive(Debug, Clone, Copy, PartialEq, Eq, Structural)]
pub struct KeyMods {
    pub shift: bool,
    pub control: bool,
    pub alt: bool,
    pub super_key: bool,
    pub hyper: bool,
    pub meta: bool,
}

/// A key press.
#[derive(Debug, Clone, Copy, PartialEq, Eq, Structural)]
pub struct KeyPress {
    pub code: KeyCode,
    pub mods: KeyMods,
}

/// The ASCII upper-case form of a letter; other characters are unchanged.
pub open spec fn upper(c: char) -> char {
    if 'a' <= c <= 'z' {
        ((c as u8) - 32) as char
    } else {
        c
    }
}

/// The form a key press is matched in: a shifted letter with control or
/// alt becomes lower case (keeping shift); a shifted letter without them
/// becomes the upper-case letter without shift; everything else is
/// unchanged.
pub open spec fn canonical_spec(k: KeyPress) -> KeyPress {
    match k.code {
        KeyCode::Char(c) => if !k.mods.shift {
            k
        } else if k.mods.control || k.mods.alt {
            KeyPress { code: KeyCode::Char(ascii_lower(c)), mods: k.mods }
        } else if ('a' <= c <= 'z') || ('A' <= c <= 'Z') {
            KeyPress { code: KeyCode::Char(upper(c)), mods: KeyMods { shift: false, ..k.mods } }
        } else {
            k
        },
        KeyCode::Other(_) => k,
    }
}

fn to_upper(c: char) -> (r: char)
    ensures
        r == upper(c),
{
    if 'a' <= c && c <= 'z' {
        ((c as u8) - 32) as char
    } else {
        c
    }
}

/// The form a key press is matched in (see [`canonical_spec`]).
pub fn canonical_key(key: KeyPress) -> (r: KeyPress)
    ensures
        r == canonical_spec(key),
{
    let c = match key.code {
        KeyCode::Char(c) => c,
        KeyCode::Other(_) => return key,
    };
    if !key.mods.shift {
        return key;
    }
    if key.mods.control || key.mods.alt {
        KeyPress { code: KeyCode::Char(char_ascii_lower(c)), mods: key.mods }
    } else if (c >= 'a' && c <= 'z') || (c >= 'A' && c <= 'Z') {
        KeyPress { code: KeyCode::Char(to_upper(c)), mods: KeyMods { shift: false, ..key.mods } }
    } else {
        key
    }
}

/// Matching in canonical form twice is matching once.
pub proof fn law_canonical_key_idempotent(k: KeyPress)
    ensures
        canonical_spec(canonical_spec(k)) == canonical_spec(k),
{
}

/// The character a text input takes from a key press: a character typed
/// without control or alt.
pub fn printable_char(key: KeyPress) -> (r: Option<char>)
    ensures
        r == match key.code {
            KeyCode::Char(c) => if !key.mods.control && !key.mods.alt {
                Some(c)
            } else {
                None
            },
            KeyCode::Other(_) => None,
        },
{
    match key.code {
        KeyCode::Char(c) => if !key.mods.control && !key.mods.alt {
            Some(c)
        } else {
            None
        },
        KeyCode::Other(_) => None,
    }
}

} // verus!
