use localvox::inject::{PasteAction, PasteEvent, PasteSession};

fn start(text: &str) -> (PasteSession, PasteAction) {
    let mut s = PasteSession::new(text.to_string());
    let a = s.next(PasteEvent::Slept);
    (s, a)
}

#[test]
fn paste_with_prompt_confirmation_restores_clipboard() {
    let (mut s, a) = start("hello");
    assert!(matches!(a, PasteAction::ReadClipboard));
    assert!(matches!(s.next(PasteEvent::Read(Some("old".into()))), PasteAction::WriteText));
    assert!(matches!(s.next(PasteEvent::Wrote(true)), PasteAction::ReadBack));
    assert!(matches!(s.next(PasteEvent::Read(Some("hello".into()))), PasteAction::Paste));
    assert!(matches!(s.next(PasteEvent::Pasted(true)), PasteAction::Sleep(200)));
    match s.next(PasteEvent::Slept) {
        PasteAction::Restore(p) => assert_eq!(p, "old"),
        _ => panic!("expected a restore"),
    }
    assert!(matches!(s.next(PasteEvent::Restored), PasteAction::Done));
    assert!(matches!(s.next(PasteEvent::Restored), PasteAction::Done));
}

#[test]
fn gives_up_waiting_after_twenty_checks() {
    let (mut s, _) = start("hello");
    s.next(PasteEvent::Read(None));
    let mut checks = 0;
    let mut a = s.next(PasteEvent::Wrote(true));
    loop {
        match a {
            PasteAction::ReadBack => {
                checks += 1;
                assert!(matches!(s.next(PasteEvent::Read(Some("stale".into()))), PasteAction::Sleep(20)));
                a = s.next(PasteEvent::Slept);
            }
            PasteAction::WarnUnconfirmed => break,
            _ => panic!("unexpected step"),
        }
    }
    assert_eq!(checks, 20);
    assert!(matches!(s.next(PasteEvent::Warned), PasteAction::Paste));
    assert!(matches!(s.next(PasteEvent::Pasted(true)), PasteAction::Sleep(200)));
    // nothing was on the clipboard before, so nothing is restored
    assert!(matches!(s.next(PasteEvent::Slept), PasteAction::Done));
}

#[test]
fn failures_stop_the_paste() {
    let (mut s, _) = start("hello");
    s.next(PasteEvent::Read(Some("old".into())));
    assert!(matches!(s.next(PasteEvent::Wrote(false)), PasteAction::Fail));
    assert!(matches!(s.next(PasteEvent::Wrote(true)), PasteAction::Fail));

    let (mut s, _) = start("hi");
    s.next(PasteEvent::Read(Some("old".into())));
    s.next(PasteEvent::Wrote(true));
    s.next(PasteEvent::Read(Some("hi".into())));
    assert!(matches!(s.next(PasteEvent::Pasted(false)), PasteAction::Fail));
}
