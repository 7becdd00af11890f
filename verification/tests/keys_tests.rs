use oyo::keys::{canonical_key, printable_char, KeyCode, KeyMods, KeyPress};

fn mods(shift: bool, control: bool, alt: bool) -> KeyMods {
    KeyMods { shift, control, alt, super_key: false, hyper: false, meta: false }
}

fn press(c: char, m: KeyMods) -> KeyPress {
    KeyPress { code: KeyCode::Char(c), mods: m }
}

#[test]
fn shifted_letters_match_upper_case() {
    assert_eq!(canonical_key(press('j', mods(true, false, false))), press('J', mods(false, false, false)));
    assert_eq!(canonical_key(press('J', mods(true, false, false))), press('J', mods(false, false, false)));
    assert_eq!(canonical_key(press('P', mods(true, true, false))), press('p', mods(true, true, false)));
    assert_eq!(canonical_key(press('!', mods(true, false, false))), press('!', mods(true, false, false)));
    assert_eq!(canonical_key(press('j', mods(false, false, false))), press('j', mods(false, false, false)));
    let other = KeyPress { code: KeyCode::Other(3), mods: mods(true, false, false) };
    assert_eq!(canonical_key(other), other);
}

#[test]
fn text_inputs_take_plain_characters() {
    assert_eq!(printable_char(press('a', mods(true, false, false))), Some('a'));
    assert_eq!(printable_char(press('a', mods(false, true, false))), None);
    assert_eq!(printable_char(press('a', mods(false, false, true))), None);
    assert_eq!(printable_char(KeyPress { code: KeyCode::Other(1), mods: mods(false, false, false) }), None);
}
