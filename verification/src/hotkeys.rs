//! Push-to-talk hotkeys: the events a hotkey backend reports and the
//! grammar of hotkey strings such as `"Ctrl+F9"`.
//!
//! A hotkey string is split at `+`; the last piece names the key and the
//! pieces before it name modifiers. Pieces are compared after Unicode
//! uppercasing, so `ctrl+f9` and `CTRL+F9` are the same hotkey.
use vstd::prelude::*;
use crate::hardware::find_char;
use crate::text::{all_ascii, ascii_upper, chars_of, push_str, str_eq, string_of};

verus! {

/// What a push-to-talk hotkey reports.
#[derive(Debug, Clone, Copy, PartialEq, Eq, Structural)]
pub enum PushToTalkEvent {
    Pressed,
    Released,
}

/// Keys a push-to-talk hotkey may use.
#[derive(Debug, Clone, Copy, PartialEq, Eq, Structural)]
pub enum HotkeyKey {
    F1,
    F2,
    F3,
    F4,
    F5,
    F6,
    F7,
    F8,
    F9,
    F10,
    F11,
    F12,
    ScrollLock,
    Pause,
    Insert,
}

/// Modifier keys held together with the key.
#[derive(Debug, Clone, Copy, PartialEq, Eq, Structural)]
pub struct Modifiers {
    pub ctrl: bool,
    pub alt: bool,
    pub shift: bool,
}

/// A parsed hotkey.
#[derive(Debug, Clone, Copy, PartialEq, Eq, Structural)]
pub struct Combo {
    pub modifiers: Modifiers,
    pub key: HotkeyKey,
}

/// Why a hotkey string was refused; the text is the offending piece,
/// uppercased.
pub enum ComboError {
    UnknownModifier(String),
    UnsupportedKey(String),
}

/// `str::to_uppercase` of a character sequence (Unicode uppercase mapping).
pub uninterp spec fn unicode_upper(s: Seq<char>) -> Seq<char>;

/// `str::to_uppercase`: the Unicode uppercase of the text. On ASCII text
/// this is the ASCII uppercase (each `a`..`z` becomes `A`..`Z`, every other
/// ASCII character stays); what it gives on other text is left to the name.
#[verifier::external_body]
fn to_uppercase(s: &str) -> (r: String)
    ensures
        r@ == unicode_upper(s@),
        all_ascii(s@) ==> r@ == ascii_upper(s@),
{
    s.to_uppercase()
}

/// `str::split('+')`: the pieces between `+` signs (one more than there are
/// `+` signs).
pub open spec fn split_plus(s: Seq<char>) -> Seq<Seq<char>>
    decreases s.len(),
{
    let i = find_char(s, '+', 0);
    if 0 <= i < s.len() {
        seq![s.take(i)] + split_plus(s.skip(i + 1))
    } else {
        seq![s]
    }
}

pub enum ModifierKind {
    Ctrl,
    Alt,
    Shift,
}

/// The modifier an uppercased piece names.
pub open spec fn modifier_named(u: Seq<char>) -> Option<ModifierKind> {
    if u == "CTRL"@ || u == "CONTROL"@ {
        Some(ModifierKind::Ctrl)
    } else if u == "ALT"@ {
        Some(ModifierKind::Alt)
    } else if u == "SHIFT"@ {
        Some(ModifierKind::Shift)
    } else {
        None
    }
}

/// The key an uppercased piece names.
pub open spec fn key_named(u: Seq<char>) -> Option<HotkeyKey> {
    if u == "F1"@ {
        Some(HotkeyKey::F1)
    } else if u == "F2"@ {
        Some(HotkeyKey::F2)
    } else if u == "F3"@ {
        Some(HotkeyKey::F3)
    } else if u == "F4"@ {
        Some(HotkeyKey::F4)
    } else if u == "F5"@ {
        Some(HotkeyKey::F5)
    } else if u == "F6"@ {
        Some(HotkeyKey::F6)
    } else if u == "F7"@ {
        Some(HotkeyKey::F7)
    } else if u == "F8"@ {
        Some(HotkeyKey::F8)
    } else if u == "F9"@ {
        Some(HotkeyKey::F9)
    } else if u == "F10"@ {
        Some(HotkeyKey::F10)
    } else if u == "F11"@ {
        Some(HotkeyKey::F11)
    } else if u == "F12"@ {
        Some(HotkeyKey::F12)
    } else if u == "SCROLLLOCK"@ {
        Some(HotkeyKey::ScrollLock)
    } else if u == "PAUSE"@ {
        Some(HotkeyKey::Pause)
    } else if u == "INSERT"@ {
        Some(HotkeyKey::Insert)
    } else {
        None
    }
}

pub open spec fn with_modifier(m: Modifiers, k: ModifierKind) -> Modifiers {
    match k {
        ModifierKind::Ctrl => Modifiers { ctrl: true, ..m },
        ModifierKind::Alt => Modifiers { alt: true, ..m },
        ModifierKind::Shift => Modifiers { shift: true, ..m },
    }
}

/// The modifiers named by `pieces`, added to `acc` left to right; the first
/// piece that names no modifier is the error.
pub open spec fn fold_modifiers(pieces: Seq<Seq<char>>, acc: Modifiers) -> Result<
    Modifiers,
    Seq<char>,
>
    decreases pieces.len(),
{
    if pieces.len() == 0 {
        Ok(acc)
    } else {
        match modifier_named(unicode_upper(pieces[0])) {
            None => Err(pieces[0]),
            Some(k) => fold_modifiers(pieces.drop_first(), with_modifier(acc, k)),
        }
    }
}

pub open spec fn no_modifiers() -> Modifiers {
    Modifiers { ctrl: false, alt: false, shift: false }
}

/// What a hotkey string means: a combo, or the piece that was refused and
/// whether it stood as a modifier (`true`) or as the key (`false`).
pub enum ComboMeaning {
    Parsed(Combo),
    Refused(Seq<char>, bool),
}

/// The meaning of a hotkey string: for the desktop backend
/// (`listener == false`) or for the evdev backend, which also takes the key
/// spelling `SCROLL_LOCK` (`listener == true`).
pub open spec fn combo_meaning(s: Seq<char>, listener: bool) -> ComboMeaning {
    let pieces = split_plus(s);
    let key_piece = pieces.last();
    match fold_modifiers(pieces.drop_last(), no_modifiers()) {
        Err(bad) => ComboMeaning::Refused(bad, true),
        Ok(m) => {
            let u = unicode_upper(key_piece);
            if listener && u == "SCROLL_LOCK"@ {
                ComboMeaning::Parsed(Combo { modifiers: m, key: HotkeyKey::ScrollLock })
            } else {
                match key_named(u) {
                    Some(k) => ComboMeaning::Parsed(Combo { modifiers: m, key: k }),
                    None => ComboMeaning::Refused(key_piece, false),
                }
            }
        },
    }
}

fn split_pieces(s: &Vec<char>) -> (r: Vec<Vec<char>>)
    ensures
        r@.len() == split_plus(s@).len(),
        forall|i: int| 0 <= i < r@.len() ==> #[trigger] r@[i]@ == split_plus(s@)[i],
{
    let mut r: Vec<Vec<char>> = Vec::new();
    let ghost mut views: Seq<Seq<char>> = Seq::empty();
    let mut start: usize = 0;
    let mut cur: Vec<char> = Vec::new();
    let mut i: usize = 0;
    assert(s@.skip(0) =~= s@);
    while i < s.len()
        invariant
            start <= i <= s.len(),
            cur@ == s@.subrange(start as int, i as int),
            forall|k: int| start <= k < i ==> s@[k] != '+',
            views.len() == r@.len(),
            forall|k: int| 0 <= k < r@.len() ==> #[trigger] r@[k]@ == views[k],
            views + split_plus(s@.skip(start as int)) == split_plus(s@),
        decreases s.len() - i,
    {
        if s[i] == '+' {
            proof {
                let rest = s@.skip(start as int);
                lemma_find_char_at(rest, '+', (i - start) as int);
                assert(rest.take(i - start) =~= cur@);
                assert(rest.skip(i - start + 1) =~= s@.skip(i + 1));
                assert(split_plus(rest) == seq![cur@] + split_plus(s@.skip(i + 1)));
                assert(views.push(cur@) + split_plus(s@.skip(i + 1)) =~= views + split_plus(
                    rest,
                ));
                views = views.push(cur@);
            }
            r.push(cur);
            cur = Vec::new();
            start = i + 1;
        } else {
            cur.push(s[i]);
        }
        i = i + 1;
        assert(cur@ =~= s@.subrange(start as int, i as int));
    }
    proof {
        let rest = s@.skip(start as int);
        lemma_find_char_at(rest, '+', rest.len() as int);
        assert(rest =~= cur@);
        assert(split_plus(rest) == seq![cur@]);
        assert(views.push(cur@) =~= views + split_plus(rest));
        views = views.push(cur@);
    }
    r.push(cur);
    r
}

proof fn lemma_find_char_at(s: Seq<char>, c: char, i: int)
    requires
        0 <= i <= s.len(),
        forall|k: int| 0 <= k < i ==> s[k] != c,
        i < s.len() ==> s[i] == c,
    ensures
        find_char(s, c, 0) == i,
{
    lemma_find_char_from(s, c, 0, i);
}

proof fn lemma_find_char_from(s: Seq<char>, c: char, j: int, i: int)
    requires
        0 <= j <= i <= s.len(),
        forall|k: int| j <= k < i ==> s[k] != c,
        i < s.len() ==> s[i] == c,
    ensures
        find_char(s, c, j) == i,
    decreases i - j,
{
    if j < i {
        lemma_find_char_from(s, c, j + 1, i);
    }
}

proof fn lemma_split_nonempty(s: Seq<char>)
    ensures
        split_plus(s).len() >= 1,
    decreases s.len(),
{
    let i = find_char(s, '+', 0);
    if 0 <= i < s.len() {
        lemma_split_nonempty(s.skip(i + 1));
    }
}

/// Text equality with a literal.
fn is(v: &String, lit: &str) -> (r: bool)
    ensures
        r == (v@ == lit@),
{
    str_eq(v.as_str(), lit)
}

fn modifier_of(u: &String) -> (r: Option<ModifierKind>)
    ensures
        r == modifier_named(u@),
{
    if is(u, "CTRL") || is(u, "CONTROL") {
        Some(ModifierKind::Ctrl)
    } else if is(u, "ALT") {
        Some(ModifierKind::Alt)
    } else if is(u, "SHIFT") {
        Some(ModifierKind::Shift)
    } else {
        None
    }
}

fn key_of(u: &String) -> (r: Option<HotkeyKey>)
    ensures
        r == key_named(u@),
{
    if is(u, "F1") {
        Some(HotkeyKey::F1)
    } else if is(u, "F2") {
        Some(HotkeyKey::F2)
    } else if is(u, "F3") {
        Some(HotkeyKey::F3)
    } else if is(u, "F4") {
        Some(HotkeyKey::F4)
    } else if is(u, "F5") {
        Some(HotkeyKey::F5)
    } else if is(u, "F6") {
        Some(HotkeyKey::F6)
    } else if is(u, "F7") {
        Some(HotkeyKey::F7)
    } else if is(u, "F8") {
        Some(HotkeyKey::F8)
    } else if is(u, "F9") {
        Some(HotkeyKey::F9)
    } else if is(u, "F10") {
        Some(HotkeyKey::F10)
    } else if is(u, "F11") {
        Some(HotkeyKey::F11)
    } else if is(u, "F12") {
        Some(HotkeyKey::F12)
    } else if is(u, "SCROLLLOCK") {
        Some(HotkeyKey::ScrollLock)
    } else if is(u, "PAUSE") {
        Some(HotkeyKey::Pause)
    } else if is(u, "INSERT") {
        Some(HotkeyKey::Insert)
    } else {
        None
    }
}

/// `fold_modifiers` with the pieces uppercased the ASCII way.
pub open spec fn fold_modifiers_ascii(pieces: Seq<Seq<char>>, acc: Modifiers) -> Result<
    Modifiers,
    Seq<char>,
>
    decreases pieces.len(),
{
    if pieces.len() == 0 {
        Ok(acc)
    } else {
        match modifier_named(ascii_upper(pieces[0])) {
            None => Err(pieces[0]),
            Some(k) => fold_modifiers_ascii(pieces.drop_first(), with_modifier(acc, k)),
        }
    }
}

/// What an ASCII hotkey string means: `combo_meaning` with the pieces
/// uppercased the ASCII way (which is what Unicode uppercasing does to
/// ASCII text).
pub open spec fn ascii_combo_meaning(s: Seq<char>, listener: bool) -> ComboMeaning {
    let pieces = split_plus(s);
    let key_piece = pieces.last();
    match fold_modifiers_ascii(pieces.drop_last(), no_modifiers()) {
        Err(bad) => ComboMeaning::Refused(bad, true),
        Ok(m) => {
            let u = ascii_upper(key_piece);
            if listener && u == "SCROLL_LOCK"@ {
                ComboMeaning::Parsed(Combo { modifiers: m, key: HotkeyKey::ScrollLock })
            } else {
                match key_named(u) {
                    Some(k) => ComboMeaning::Parsed(Combo { modifiers: m, key: k }),
                    None => ComboMeaning::Refused(key_piece, false),
                }
            }
        },
    }
}

/// Every piece uppercases the same way under both mappings.
spec fn uppers_agree(pieces: Seq<Seq<char>>) -> bool {
    forall|i: int| 0 <= i < pieces.len() ==> unicode_upper(#[trigger] pieces[i]) == ascii_upper(pieces[i])
}

proof fn lemma_fold_ascii(p: Seq<Seq<char>>, acc: Modifiers)
    requires
        uppers_agree(p),
    ensures
        fold_modifiers(p, acc) == fold_modifiers_ascii(p, acc),
    decreases p.len(),
{
    if p.len() > 0 {
        assert(unicode_upper(p[0]) == ascii_upper(p[0]));
        let k = modifier_named(unicode_upper(p[0]));
        if k is Some {
            assert(uppers_agree(p.drop_first())) by {
                assert forall|i: int| 0 <= i < p.drop_first().len() implies unicode_upper(
                    #[trigger] p.drop_first()[i],
                ) == ascii_upper(p.drop_first()[i]) by {
                    assert(unicode_upper(p[i + 1]) == ascii_upper(p[i + 1]));
                }
            }
            lemma_fold_ascii(p.drop_first(), with_modifier(acc, k->0));
        }
    }
}

proof fn lemma_meaning_ascii(s: Seq<char>, listener: bool)
    requires
        uppers_agree(split_plus(s)),
    ensures
        combo_meaning(s, listener) == ascii_combo_meaning(s, listener),
{
    let p = split_plus(s);
    lemma_split_nonempty(s);
    assert(uppers_agree(p.drop_last())) by {
        assert forall|i: int| 0 <= i < p.drop_last().len() implies unicode_upper(
            #[trigger] p.drop_last()[i],
        ) == ascii_upper(p.drop_last()[i]) by {
            assert(unicode_upper(p[i]) == ascii_upper(p[i]));
        }
    }
    lemma_fold_ascii(p.drop_last(), no_modifiers());
    assert(unicode_upper(p[p.len() - 1]) == ascii_upper(p[p.len() - 1]));
}

/// The pieces of an ASCII text are ASCII.
proof fn lemma_split_ascii(s: Seq<char>)
    requires
        all_ascii(s),
    ensures
        forall|i: int| 0 <= i < split_plus(s).len() ==> all_ascii(#[trigger] split_plus(s)[i]),
    decreases s.len(),
{
    let i = find_char(s, '+', 0);
    if 0 <= i < s.len() {
        let rest = s.skip(i + 1);
        assert(all_ascii(rest)) by {
            assert forall|k: int| 0 <= k < rest.len() implies (rest[k] as u32) < 128 by {
                assert(rest[k] == s[i + 1 + k]);
            }
        }
        lemma_split_ascii(rest);
        let first = s.take(i);
        assert(all_ascii(first)) by {
            assert forall|k: int| 0 <= k < first.len() implies (first[k] as u32) < 128 by {
                assert(first[k] == s[k]);
            }
        }
        assert forall|j: int| 0 <= j < split_plus(s).len() implies all_ascii(
            #[trigger] split_plus(s)[j],
        ) by {
            if j > 0 {
                assert(split_plus(s)[j] == split_plus(rest)[j - 1]);
            }
        }
    }
}

/// Every piece uppercased (`str::to_uppercase`).
fn uppercase_pieces(pieces: &Vec<Vec<char>>) -> (u: Vec<String>)
    ensures
        u@.len() == pieces@.len(),
        forall|i: int|
            0 <= i < u@.len() ==> #[trigger] u@[i]@ == unicode_upper(pieces@[i]@) && (all_ascii(
                pieces@[i]@,
            ) ==> u@[i]@ == ascii_upper(pieces@[i]@)),
{
    let mut u: Vec<String> = Vec::new();
    let mut i: usize = 0;
    while i < pieces.len()
        invariant
            i <= pieces@.len(),
            u@.len() == i,
            forall|k: int|
                0 <= k < i ==> #[trigger] u@[k]@ == unicode_upper(pieces@[k]@) && (all_ascii(
                    pieces@[k]@,
                ) ==> u@[k]@ == ascii_upper(pieces@[k]@)),
        decreases pieces.len() - i,
    {
        let piece = string_of(&pieces[i]);
        u.push(to_uppercase(piece.as_str()));
        i = i + 1;
    }
    u
}

/// The pieces of a hotkey string, uppercased.
fn uppercased_pieces_of(combo: &str) -> (u: Vec<String>)
    ensures
        all_ascii(combo@) ==> uppers_agree(split_plus(combo@)),
{
    let s = chars_of(combo);
    let pieces = split_pieces(&s);
    let u = uppercase_pieces(&pieces);
    proof {
        if all_ascii(combo@) {
            lemma_split_ascii(s@);
            assert forall|i: int| 0 <= i < split_plus(combo@).len() implies unicode_upper(
                #[trigger] split_plus(combo@)[i],
            ) == ascii_upper(split_plus(combo@)[i]) by {
                assert(u@[i]@ == unicode_upper(pieces@[i]@));
            }
        }
    }
    u
}

/// Parses a hotkey string under one of the two whitelists: the one without
/// (`listener == false`) or with (`true`) the `SCROLL_LOCK` spelling.
/// Returns the combo, or the refused piece with whether it was a modifier.
fn parse_pieces(combo: &str, listener: bool) -> (r: Result<Combo, (Vec<char>, bool)>)
    ensures
        match combo_meaning(combo@, listener) {
            ComboMeaning::Parsed(c) => r == Ok::<Combo, (Vec<char>, bool)>(c),
            ComboMeaning::Refused(p, m) => r is Err && r->Err_0.0@ == p && r->Err_0.1 == m,
        },
        all_ascii(combo@) ==> uppers_agree(split_plus(combo@)),
        all_ascii(combo@) && r is Err ==> all_ascii(r->Err_0.0@),
{
    let s = chars_of(combo);
    let pieces = split_pieces(&s);
    let uppers = uppercase_pieces(&pieces);
    proof {
        lemma_split_nonempty(s@);
    }
    let ghost all = split_plus(s@);
    proof {
        if all_ascii(combo@) {
            lemma_split_ascii(s@);
            assert forall|i: int| 0 <= i < all.len() implies unicode_upper(#[trigger] all[i])
                == ascii_upper(all[i]) by {
                assert(uppers@[i]@ == unicode_upper(pieces@[i]@));
            }
        }
    }
    let n = pieces.len() - 1;
    let mut mods = Modifiers { ctrl: false, alt: false, shift: false };
    let mut i: usize = 0;
    assert(all.drop_last().skip(0) =~= all.drop_last());
    while i < n
        invariant
            n == pieces@.len() - 1,
            pieces@.len() == all.len(),
            all == split_plus(s@),
            s@ == combo@,
            i <= n,
            forall|k: int| 0 <= k < pieces@.len() ==> #[trigger] pieces@[k]@ == all[k],
            uppers@.len() == pieces@.len(),
            forall|k: int| 0 <= k < uppers@.len() ==> #[trigger] uppers@[k]@ == unicode_upper(all[k]),
            all_ascii(combo@) ==> forall|k: int| 0 <= k < all.len() ==> all_ascii(#[trigger] all[k]),
            all_ascii(combo@) ==> uppers_agree(all),
            fold_modifiers(all.drop_last(), no_modifiers()) == fold_modifiers(
                all.drop_last().skip(i as int),
                mods,
            ),
        decreases n - i,
    {
        let u = &uppers[i];
        proof {
            let rest = all.drop_last().skip(i as int);
            assert(rest[0] == pieces@[i as int]@);
            assert(rest.drop_first() =~= all.drop_last().skip(i + 1));
        }
        match modifier_of(u) {
            None => {
                return Err((pieces[i].clone(), true));
            },
            Some(k) => {
                mods = match k {
                    ModifierKind::Ctrl => Modifiers { ctrl: true, ..mods },
                    ModifierKind::Alt => Modifiers { alt: true, ..mods },
                    ModifierKind::Shift => Modifiers { shift: true, ..mods },
                };
            },
        }
        i = i + 1;
    }
    proof {
        assert(all.drop_last().skip(n as int) =~= Seq::<Seq<char>>::empty());
    }
    let u = &uppers[n];
    if listener && is(u, "SCROLL_LOCK") {
        return Ok(Combo { modifiers: mods, key: HotkeyKey::ScrollLock });
    }
    match key_of(u) {
        Some(k) => Ok(Combo { modifiers: mods, key: k }),
        None => Err((pieces[n].clone(), false)),
    }
}

/// The meaning of a refusal as the error `parse_combo` reports.
pub open spec fn combo_error_view(e: ComboError) -> (Seq<char>, bool) {
    match e {
        ComboError::UnknownModifier(u) => (u@, true),
        ComboError::UnsupportedKey(u) => (u@, false),
    }
}

/// Parses a hotkey string such as `"Ctrl+F9"`: modifiers `Ctrl`/`Control`,
/// `Alt`, `Shift`; keys `F1`..`F12`, `ScrollLock`, `Pause`, `Insert`; any
/// letter case. The error names the first refused piece, uppercased.
pub fn parse_combo(combo: &str) -> (r: Result<Combo, ComboError>)
    ensures
        match combo_meaning(combo@, false) {
            ComboMeaning::Parsed(c) => r matches Ok(rc) && rc == c,
            ComboMeaning::Refused(p, m) => r matches Err(e) && combo_error_view(e) == (
                unicode_upper(p),
                m,
            ),
        },
        all_ascii(combo@) ==> match ascii_combo_meaning(combo@, false) {
            ComboMeaning::Parsed(c) => r matches Ok(rc) && rc == c,
            ComboMeaning::Refused(p, m) => r matches Err(e) && combo_error_view(e) == (
                ascii_upper(p),
                m,
            ),
        },
{
    let parsed = parse_pieces(combo, false);
    proof {
        if all_ascii(combo@) {
            lemma_meaning_ascii(combo@, false);
        }
    }
    match parsed {
        Ok(c) => Ok(c),
        Err((piece, is_mod)) => {
            let p = string_of(&piece);
            let u = to_uppercase(p.as_str());
            if is_mod {
                Err(ComboError::UnknownModifier(u))
            } else {
                Err(ComboError::UnsupportedKey(u))
            }
        },
    }
}

impl ComboError {
    /// The error as a message for the user.
    pub fn message(&self) -> (m: String)
        ensures
            m@ == match self {
                ComboError::UnknownModifier(u) => "unknown modifier: "@ + u@,
                ComboError::UnsupportedKey(u) => "unsupported key: "@ + u@,
            },
    {
        let mut out: Vec<char> = Vec::new();
        match self {
            ComboError::UnknownModifier(u) => {
                push_str(&mut out, "unknown modifier: ");
                push_str(&mut out, u.as_str());
            },
            ComboError::UnsupportedKey(u) => {
                push_str(&mut out, "unsupported key: ");
                push_str(&mut out, u.as_str());
            },
        }
        string_of(&out)
    }
}

/// The message the evdev hotkey backend gives for a refused piece.
pub open spec fn listener_refusal(p: Seq<char>, is_modifier: bool) -> Seq<char> {
    if is_modifier {
        "Unknown modifier: "@ + p
    } else {
        "Unknown key: "@ + p
    }
}

/// How the evdev hotkey backend prints a key (`hotkey_listener::Key`'s
/// `Display`).
pub open spec fn key_display(k: HotkeyKey) -> Seq<char> {
    match k {
        HotkeyKey::F1 => "F1"@,
        HotkeyKey::F2 => "F2"@,
        HotkeyKey::F3 => "F3"@,
        HotkeyKey::F4 => "F4"@,
        HotkeyKey::F5 => "F5"@,
        HotkeyKey::F6 => "F6"@,
        HotkeyKey::F7 => "F7"@,
        HotkeyKey::F8 => "F8"@,
        HotkeyKey::F9 => "F9"@,
        HotkeyKey::F10 => "F10"@,
        HotkeyKey::F11 => "F11"@,
        HotkeyKey::F12 => "F12"@,
        HotkeyKey::ScrollLock => "ScrollLock"@,
        HotkeyKey::Pause => "Pause"@,
        HotkeyKey::Insert => "Insert"@,
    }
}

/// `hotkey_listener::parse_hotkey`, with the hotkey handed back as its
/// modifiers and the printed name of its key, and an error as its message.
/// The backend's grammar is `parse_combo`'s plus the key spelling
/// `SCROLL_LOCK`; its error text names the refused piece as typed.
#[verifier::external_body]
fn listener_parse(combo: &str) -> (r: Result<(Modifiers, String), String>)
    ensures
        match combo_meaning(combo@, true) {
            ComboMeaning::Parsed(c) => r matches Ok((m, name)) && m == c.modifiers && name@
                == key_display(c.key),
            ComboMeaning::Refused(p, m) => r matches Err(e) && e@ == listener_refusal(p, m),
        },
{
    match hotkey_listener::parse_hotkey(combo) {
        Ok(h) => {
            let m = &h.modifiers;
            Ok((Modifiers { ctrl: m.ctrl, alt: m.alt, shift: m.shift }, h.key.to_string()))
        },
        Err(e) => Err(e.to_string()),
    }
}

#[verifier::spinoff_prover]
#[verifier::rlimit(40)]
proof fn lemma_key_display_injective(a: HotkeyKey, b: HotkeyKey)
    requires
        key_display(a) == key_display(b),
    ensures
        a == b,
{
    reveal_strlit("F1");
    reveal_strlit("F2");
    reveal_strlit("F3");
    reveal_strlit("F4");
    reveal_strlit("F5");
    reveal_strlit("F6");
    reveal_strlit("F7");
    reveal_strlit("F8");
    reveal_strlit("F9");
    reveal_strlit("F10");
    reveal_strlit("F11");
    reveal_strlit("F12");
    reveal_strlit("ScrollLock");
    reveal_strlit("Pause");
    reveal_strlit("Insert");
    let x = key_display(a);
    let y = key_display(b);
    assert(x.len() == y.len());
    if x.len() >= 2 {
        assert(x[1] == y[1]);
    }
    if x.len() >= 3 {
        assert(x[2] == y[2]);
    }
}

/// The key printed as `name`.
fn key_from_display(name: &String) -> (r: Option<HotkeyKey>)
    ensures
        r matches Some(k) ==> key_display(k) == name@,
        (exists|k: HotkeyKey| key_display(k) == name@) ==> r is Some,
{
    let r = if is(name, "F1") {
        Some(HotkeyKey::F1)
    } else if is(name, "F2") {
        Some(HotkeyKey::F2)
    } else if is(name, "F3") {
        Some(HotkeyKey::F3)
    } else if is(name, "F4") {
        Some(HotkeyKey::F4)
    } else if is(name, "F5") {
        Some(HotkeyKey::F5)
    } else if is(name, "F6") {
        Some(HotkeyKey::F6)
    } else if is(name, "F7") {
        Some(HotkeyKey::F7)
    } else if is(name, "F8") {
        Some(HotkeyKey::F8)
    } else if is(name, "F9") {
        Some(HotkeyKey::F9)
    } else if is(name, "F10") {
        Some(HotkeyKey::F10)
    } else if is(name, "F11") {
        Some(HotkeyKey::F11)
    } else if is(name, "F12") {
        Some(HotkeyKey::F12)
    } else if is(name, "ScrollLock") {
        Some(HotkeyKey::ScrollLock)
    } else if is(name, "Pause") {
        Some(HotkeyKey::Pause)
    } else if is(name, "Insert") {
        Some(HotkeyKey::Insert)
    } else {
        None
    };
    proof {
        if exists|k: HotkeyKey| key_display(k) == name@ {
            let k = choose|k: HotkeyKey| key_display(k) == name@;
            assert(r is Some) by {
                match k {
                    HotkeyKey::F1 => {},
                    HotkeyKey::F2 => {},
                    HotkeyKey::F3 => {},
                    HotkeyKey::F4 => {},
                    HotkeyKey::F5 => {},
                    HotkeyKey::F6 => {},
                    HotkeyKey::F7 => {},
                    HotkeyKey::F8 => {},
                    HotkeyKey::F9 => {},
                    HotkeyKey::F10 => {},
                    HotkeyKey::F11 => {},
                    HotkeyKey::F12 => {},
                    HotkeyKey::ScrollLock => {},
                    HotkeyKey::Pause => {},
                    HotkeyKey::Insert => {},
                }
            }
        }
    }
    r
}

/// Parses a hotkey string the way the evdev hotkey backend (used on Linux)
/// reads it; the error is the backend's message.
pub fn parse_listener_combo(combo: &str) -> (r: Result<Combo, String>)
    ensures
        match combo_meaning(combo@, true) {
            ComboMeaning::Parsed(c) => r matches Ok(rc) && rc == c,
            ComboMeaning::Refused(p, m) => r matches Err(e) && e@ == listener_refusal(p, m),
        },
        all_ascii(combo@) ==> match ascii_combo_meaning(combo@, true) {
            ComboMeaning::Parsed(c) => r matches Ok(rc) && rc == c,
            ComboMeaning::Refused(p, m) => r matches Err(e) && e@ == listener_refusal(p, m),
        },
{
    // The backend uppercases each piece with `str::to_uppercase`; doing the
    // same here shows how it reads ASCII text.
    let _uppercased = uppercased_pieces_of(combo);
    proof {
        if all_ascii(combo@) {
            lemma_meaning_ascii(combo@, true);
        }
    }
    match listener_parse(combo) {
        Ok((modifiers, name)) => {
            let k = key_from_display(&name);
            match k {
                Some(key) => {
                    proof {
                        if let ComboMeaning::Parsed(c) = combo_meaning(combo@, true) {
                            lemma_key_display_injective(key, c.key);
                        }
                    }
                    Ok(Combo { modifiers, key })
                },
                None => {
                    proof {
                        if let ComboMeaning::Parsed(c) = combo_meaning(combo@, true) {
                            assert(key_display(c.key) == name@);
                        }
                    }
                    Err(name)
                },
            }
        },
        Err(e) => Err(e),
    }
}

// ---------------------------------------------------------------------
// Laws
// ---------------------------------------------------------------------

/// Both hotkey backends accept the same hotkeys and read them the same way;
/// the only difference is the extra key spelling `SCROLL_LOCK` of the evdev
/// backend.
pub proof fn law_backends_agree(s: Seq<char>)
    requires
        unicode_upper(split_plus(s).last()) != "SCROLL_LOCK"@,
    ensures
        combo_meaning(s, false) == combo_meaning(s, true),
{
}

proof fn lemma_scroll_lock_spelling_is_no_key()
    ensures
        key_named("SCROLL_LOCK"@) is None,
{
    reveal_strlit("SCROLL_LOCK");
    reveal_strlit("SCROLLLOCK");
    reveal_strlit("F1");
    reveal_strlit("F2");
    reveal_strlit("F3");
    reveal_strlit("F4");
    reveal_strlit("F5");
    reveal_strlit("F6");
    reveal_strlit("F7");
    reveal_strlit("F8");
    reveal_strlit("F9");
    reveal_strlit("F10");
    reveal_strlit("F11");
    reveal_strlit("F12");
    reveal_strlit("PAUSE");
    reveal_strlit("INSERT");
    assert("SCROLL_LOCK"@.len() == 11);
    assert("SCROLLLOCK"@.len() == 10);
    assert("PAUSE"@.len() == 5);
    assert("INSERT"@.len() == 6);
    assert("F1"@.len() == 2);
}

/// Whatever one backend accepts, the other accepts too, as the same combo.
pub proof fn law_desktop_combos_work_everywhere(s: Seq<char>, c: Combo)
    requires
        combo_meaning(s, false) == ComboMeaning::Parsed(c),
    ensures
        combo_meaning(s, true) == ComboMeaning::Parsed(c),
{
    lemma_scroll_lock_spelling_is_no_key();
}

/// Two lists of pieces that agree once uppercased.
pub open spec fn same_uppercased(p: Seq<Seq<char>>, q: Seq<Seq<char>>) -> bool {
    &&& p.len() == q.len()
    &&& forall|i: int| 0 <= i < p.len() ==> unicode_upper(#[trigger] p[i]) == unicode_upper(q[i])
}

proof fn lemma_fold_case(p: Seq<Seq<char>>, q: Seq<Seq<char>>, acc: Modifiers)
    requires
        same_uppercased(p, q),
    ensures
        fold_modifiers(p, acc) is Ok <==> fold_modifiers(q, acc) is Ok,
        fold_modifiers(p, acc) is Ok ==> fold_modifiers(p, acc) == fold_modifiers(q, acc),
    decreases p.len(),
{
    if p.len() > 0 {
        assert(unicode_upper(p[0]) == unicode_upper(q[0]));
        let k = modifier_named(unicode_upper(p[0]));
        if k is Some {
            assert(same_uppercased(p.drop_first(), q.drop_first())) by {
                assert forall|i: int| 0 <= i < p.drop_first().len() implies unicode_upper(
                    #[trigger] p.drop_first()[i],
                ) == unicode_upper(q.drop_first()[i]) by {
                    assert(unicode_upper(p[i + 1]) == unicode_upper(q[i + 1]));
                }
            }
            lemma_fold_case(p.drop_first(), q.drop_first(), with_modifier(acc, k->0));
        }
    }
}

/// Letter case does not matter: two hotkey strings whose pieces agree once
/// uppercased (such as `ctrl+f9` and `CTRL+F9`) are accepted alike, as the
/// same combo, by either backend.
pub proof fn law_hotkey_case_is_ignored(s1: Seq<char>, s2: Seq<char>, listener: bool)
    requires
        same_uppercased(split_plus(s1), split_plus(s2)),
    ensures
        combo_meaning(s1, listener) is Parsed <==> combo_meaning(s2, listener) is Parsed,
        combo_meaning(s1, listener) is Parsed ==> combo_meaning(s1, listener) == combo_meaning(
            s2,
            listener,
        ),
{
    let p = split_plus(s1);
    let q = split_plus(s2);
    lemma_split_nonempty(s1);
    assert(same_uppercased(p.drop_last(), q.drop_last())) by {
        assert forall|i: int| 0 <= i < p.drop_last().len() implies unicode_upper(
            #[trigger] p.drop_last()[i],
        ) == unicode_upper(q.drop_last()[i]) by {
            assert(unicode_upper(p[i]) == unicode_upper(q[i]));
        }
    }
    lemma_fold_case(p.drop_last(), q.drop_last(), no_modifiers());
    assert(unicode_upper(p[p.len() - 1]) == unicode_upper(q[q.len() - 1]));
}

/// Each key's printed name, read back through the key whitelist.
proof fn lemma_key_name_round_trip(k: HotkeyKey)
    ensures
        key_named(ascii_upper(key_display(k))) == Some(k),
        ascii_upper(key_display(k)) != "SCROLL_LOCK"@,
        all_ascii(key_display(k)),
        forall|j: int| 0 <= j < key_display(k).len() ==> #[trigger] key_display(k)[j] != '+',
{
    reveal_strlit("F1");
    reveal_strlit("F10");
    reveal_strlit("F11");
    reveal_strlit("F12");
    reveal_strlit("F2");
    reveal_strlit("F3");
    reveal_strlit("F4");
    reveal_strlit("F5");
    reveal_strlit("F6");
    reveal_strlit("F7");
    reveal_strlit("F8");
    reveal_strlit("F9");
    reveal_strlit("INSERT");
    reveal_strlit("Insert");
    reveal_strlit("PAUSE");
    reveal_strlit("Pause");
    reveal_strlit("SCROLLLOCK");
    reveal_strlit("ScrollLock");
    reveal_strlit("SCROLL_LOCK");
    match k {
        HotkeyKey::F1 => {
            assert(ascii_upper("F1"@) =~= "F1"@);
        },
        HotkeyKey::F2 => {
            assert(ascii_upper("F2"@) =~= "F2"@);
            assert("F2"@[1] != "F1"@[1]);
        },
        HotkeyKey::F3 => {
            assert(ascii_upper("F3"@) =~= "F3"@);
            assert("F3"@[1] != "F1"@[1]);
            assert("F3"@[1] != "F2"@[1]);
        },
        HotkeyKey::F4 => {
            assert(ascii_upper("F4"@) =~= "F4"@);
            assert("F4"@[1] != "F1"@[1]);
            assert("F4"@[1] != "F2"@[1]);
            assert("F4"@[1] != "F3"@[1]);
        },
        HotkeyKey::F5 => {
            assert(ascii_upper("F5"@) =~= "F5"@);
            assert("F5"@[1] != "F1"@[1]);
            assert("F5"@[1] != "F2"@[1]);
            assert("F5"@[1] != "F3"@[1]);
            assert("F5"@[1] != "F4"@[1]);
        },
        HotkeyKey::F6 => {
            assert(ascii_upper("F6"@) =~= "F6"@);
            assert("F6"@[1] != "F1"@[1]);
            assert("F6"@[1] != "F2"@[1]);
            assert("F6"@[1] != "F3"@[1]);
            assert("F6"@[1] != "F4"@[1]);
            assert("F6"@[1] != "F5"@[1]);
        },
        HotkeyKey::F7 => {
            assert(ascii_upper("F7"@) =~= "F7"@);
            assert("F7"@[1] != "F1"@[1]);
            assert("F7"@[1] != "F2"@[1]);
            assert("F7"@[1] != "F3"@[1]);
            assert("F7"@[1] != "F4"@[1]);
            assert("F7"@[1] != "F5"@[1]);
            assert("F7"@[1] != "F6"@[1]);
        },
        HotkeyKey::F8 => {
            assert(ascii_upper("F8"@) =~= "F8"@);
            assert("F8"@[1] != "F1"@[1]);
            assert("F8"@[1] != "F2"@[1]);
            assert("F8"@[1] != "F3"@[1]);
            assert("F8"@[1] != "F4"@[1]);
            assert("F8"@[1] != "F5"@[1]);
            assert("F8"@[1] != "F6"@[1]);
            assert("F8"@[1] != "F7"@[1]);
        },
        HotkeyKey::F9 => {
            assert(ascii_upper("F9"@) =~= "F9"@);
            assert("F9"@[1] != "F1"@[1]);
            assert("F9"@[1] != "F2"@[1]);
            assert("F9"@[1] != "F3"@[1]);
            assert("F9"@[1] != "F4"@[1]);
            assert("F9"@[1] != "F5"@[1]);
            assert("F9"@[1] != "F6"@[1]);
            assert("F9"@[1] != "F7"@[1]);
            assert("F9"@[1] != "F8"@[1]);
        },
        HotkeyKey::F10 => {
            assert(ascii_upper("F10"@) =~= "F10"@);
        },
        HotkeyKey::F11 => {
            assert(ascii_upper("F11"@) =~= "F11"@);
            assert("F11"@[2] != "F10"@[2]);
        },
        HotkeyKey::F12 => {
            assert(ascii_upper("F12"@) =~= "F12"@);
            assert("F12"@[2] != "F10"@[2]);
            assert("F12"@[2] != "F11"@[2]);
        },
        HotkeyKey::ScrollLock => {
            assert(ascii_upper("ScrollLock"@) =~= "SCROLLLOCK"@);
        },
        HotkeyKey::Pause => {
            assert(ascii_upper("Pause"@) =~= "PAUSE"@);
        },
        HotkeyKey::Insert => {
            assert(ascii_upper("Insert"@) =~= "INSERT"@);
        },
    }
    assert("SCROLL_LOCK"@.len() == 11);
}

/// Every key of the whitelist is accepted as itself: `Ctrl+` followed by
/// the key's printed name is ASCII and reads, on either backend, as that key
/// with Ctrl held.
pub proof fn law_every_key_is_accepted(k: HotkeyKey, listener: bool)
    ensures
        all_ascii("Ctrl+"@ + key_display(k)),
        ascii_combo_meaning("Ctrl+"@ + key_display(k), listener) == ComboMeaning::Parsed(
            Combo { modifiers: Modifiers { ctrl: true, alt: false, shift: false }, key: k },
        ),
{
    reveal_strlit("Ctrl+");
    reveal_strlit("Ctrl");
    reveal_strlit("CTRL");
    reveal_strlit("CONTROL");
    lemma_key_name_round_trip(k);
    let d = key_display(k);
    let s = "Ctrl+"@ + d;
    assert(all_ascii(s)) by {
        assert forall|j: int| 0 <= j < s.len() implies (s[j] as u32) < 128 by {
            if j >= 5 {
                assert(s[j] == d[j - 5]);
            } else {
                assert(s[j] == "Ctrl+"@[j]);
            }
        }
    }
    lemma_find_char_at(s, '+', 4);
    assert(s.take(4) =~= "Ctrl"@);
    assert(s.skip(5) =~= d);
    lemma_find_char_at(d, '+', d.len() as int);
    let pieces = split_plus(s);
    assert(split_plus(d) == seq![d]);
    assert(pieces =~= seq!["Ctrl"@, d]);
    assert(ascii_upper("Ctrl"@) =~= "CTRL"@);
    assert(pieces.drop_last() =~= seq!["Ctrl"@]);
    assert(seq!["Ctrl"@].drop_first() =~= Seq::<Seq<char>>::empty());
    reveal_with_fuel(fold_modifiers_ascii, 2);
    assert(fold_modifiers_ascii(pieces.drop_last(), no_modifiers()) == Ok::<Modifiers, Seq<char>>(
        Modifiers { ctrl: true, alt: false, shift: false },
    ));
}

/// Every modifier name is accepted as its modifier, in any ASCII letter
/// case: `Ctrl` and `Control` hold Ctrl, `Alt` Alt, `Shift` Shift.
pub proof fn law_every_modifier_is_accepted()
    ensures
        modifier_named(ascii_upper("Ctrl"@)) == Some(ModifierKind::Ctrl),
        modifier_named(ascii_upper("Control"@)) == Some(ModifierKind::Ctrl),
        modifier_named(ascii_upper("Alt"@)) == Some(ModifierKind::Alt),
        modifier_named(ascii_upper("Shift"@)) == Some(ModifierKind::Shift),
        modifier_named(ascii_upper("ctrl"@)) == Some(ModifierKind::Ctrl),
        modifier_named(ascii_upper("alt"@)) == Some(ModifierKind::Alt),
        modifier_named(ascii_upper("shift"@)) == Some(ModifierKind::Shift),
{
    reveal_strlit("Ctrl");
    reveal_strlit("Control");
    reveal_strlit("Alt");
    reveal_strlit("Shift");
    reveal_strlit("ctrl");
    reveal_strlit("alt");
    reveal_strlit("shift");
    reveal_strlit("CTRL");
    reveal_strlit("CONTROL");
    reveal_strlit("ALT");
    reveal_strlit("SHIFT");
    assert(ascii_upper("Ctrl"@) =~= "CTRL"@);
    assert(ascii_upper("ctrl"@) =~= "CTRL"@);
    assert(ascii_upper("Control"@) =~= "CONTROL"@);
    assert(ascii_upper("Alt"@) =~= "ALT"@);
    assert(ascii_upper("alt"@) =~= "ALT"@);
    assert(ascii_upper("Shift"@) =~= "SHIFT"@);
    assert(ascii_upper("shift"@) =~= "SHIFT"@);
    assert("ALT"@ != "CTRL"@);
    assert("SHIFT"@ != "CONTROL"@);
}

} // verus!
