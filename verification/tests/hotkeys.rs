use localvox::hotkeys::{parse_combo, parse_listener_combo, Combo, ComboError, HotkeyKey, Modifiers};
use localvox::settings::Settings;

fn mods(ctrl: bool, alt: bool, shift: bool) -> Modifiers {
    Modifiers { ctrl, alt, shift }
}

#[test]
fn parses_default_hotkey() {
    let s = Settings::default();
    let c = parse_combo(&s.hotkey_combo).ok().unwrap();
    assert_eq!(c, Combo { modifiers: mods(true, false, false), key: HotkeyKey::F9 });
    assert_eq!(parse_listener_combo(&s.hotkey_combo).unwrap(), c);
}

#[test]
fn parses_any_case_and_all_modifiers() {
    assert_eq!(
        parse_combo("control+alt+shift+scrolllock").ok().unwrap(),
        Combo { modifiers: mods(true, true, true), key: HotkeyKey::ScrollLock }
    );
    assert_eq!(parse_combo("f12").ok().unwrap(), Combo { modifiers: mods(false, false, false), key: HotkeyKey::F12 });
    assert_eq!(parse_combo("Shift+Pause").ok().unwrap().key, HotkeyKey::Pause);
    assert_eq!(parse_combo("Alt+Insert").ok().unwrap().modifiers, mods(false, true, false));
    assert_eq!(parse_combo("ctrl+CTRL+F1").ok().unwrap().modifiers, mods(true, false, false));
}

#[test]
fn unicode_uppercasing_applies() {
    // U+0131 (dotless i) uppercases to I, U+017F (long s) to S.
    assert_eq!(parse_combo("sh\u{131}ft+F5").ok().unwrap().modifiers, mods(false, false, true));
    assert_eq!(parse_combo("\u{17f}hift+F5").ok().unwrap().modifiers, mods(false, false, true));
}

#[test]
fn reports_unknown_modifier_uppercased() {
    match parse_combo("Ctrl+Meta+F9") {
        Err(ComboError::UnknownModifier(m)) => assert_eq!(m, "META"),
        _ => panic!("expected an unknown modifier"),
    }
    let e = parse_combo("Hyper+F9").err().unwrap();
    assert_eq!(e.message(), "unknown modifier: HYPER");
}

#[test]
fn reports_unsupported_key_uppercased() {
    match parse_combo("Ctrl+a") {
        Err(ComboError::UnsupportedKey(k)) => assert_eq!(k, "A"),
        _ => panic!("expected an unsupported key"),
    }
    assert_eq!(parse_combo("").err().unwrap().message(), "unsupported key: ");
    assert_eq!(parse_combo("F13").err().unwrap().message(), "unsupported key: F13");
    assert_eq!(parse_combo("Ctrl+").err().unwrap().message(), "unsupported key: ");
    assert_eq!(parse_combo("Ctrl+F9+").err().unwrap().message(), "unknown modifier: F9");
    assert_eq!(parse_combo("Scroll_Lock").err().unwrap().message(), "unsupported key: SCROLL_LOCK");
}

#[test]
fn listener_accepts_the_same_plus_scroll_lock_spelling() {
    for s in ["Ctrl+F9", "alt+shift+f1", "Insert", "Control+Pause", "ScrollLock"] {
        assert_eq!(parse_listener_combo(s).unwrap(), parse_combo(s).ok().unwrap());
    }
    assert_eq!(parse_listener_combo("Ctrl+scroll_lock").unwrap().key, HotkeyKey::ScrollLock);
}

#[test]
fn listener_errors_name_the_piece_as_typed() {
    assert_eq!(parse_listener_combo("Ctrl+Meta+F9").err().unwrap(), "Unknown modifier: Meta");
    assert_eq!(parse_listener_combo("Ctrl+q").err().unwrap(), "Unknown key: q");
}

#[test]
fn letter_case_of_ascii_hotkeys_is_ignored() {
    for s in ["ctrl+f9", "CTRL+F9", "Ctrl+F9", "cOnTrOl+f9"] {
        assert_eq!(parse_combo(s).ok().unwrap(), Combo { modifiers: mods(true, false, false), key: HotkeyKey::F9 });
        assert_eq!(parse_listener_combo(s).unwrap(), Combo { modifiers: mods(true, false, false), key: HotkeyKey::F9 });
    }
    assert_eq!(parse_listener_combo("scroll_lock").unwrap().key, HotkeyKey::ScrollLock);
}
