use localvox::corrections::ReplacementRule;
use localvox::hotkeys::PushToTalkEvent;
use localvox::pipeline::{
    audio_stalled, deliver_transcript, hud_visible, transcript_text, transcription_done, tray_status,
    vocabulary_prompt, Delivery, LoopStep, Recorder,
};
use localvox::settings::Settings;

#[test]
fn recorder_keeps_audio_between_press_and_release() {
    let mut r: Recorder<f32> = Recorder::new();
    r.audio(&[9.0, 9.0]);
    assert!(!r.is_recording());
    assert!(r.hotkey(PushToTalkEvent::Pressed).is_none());
    assert!(r.is_recording());
    r.audio(&[0.1, 0.2]);
    r.audio(&[0.3]);
    let got = r.hotkey(PushToTalkEvent::Released).unwrap();
    assert_eq!(got, vec![0.1, 0.2, 0.3]);
    assert!(!r.is_recording());
    r.audio(&[5.0]);
    assert!(r.hotkey(PushToTalkEvent::Pressed).is_none());
    assert_eq!(r.hotkey(PushToTalkEvent::Released).unwrap(), Vec::<f32>::new());
}

#[test]
fn transcript_is_repaired_then_corrected() {
    let rules = vec![ReplacementRule { find: "my number".to_string(), replace: "My number".to_string() }];
    match deliver_transcript(Some(Ok("my number is 555, 123, 4567".to_string())), &rules) {
        Delivery::Type(t) => assert_eq!(t, "My number is 5551234567"),
        _ => panic!("expected text to type"),
    }
}

#[test]
fn nothing_to_type_without_text() {
    assert!(matches!(deliver_transcript(Some(Ok(String::new())), &[]), Delivery::Nothing));
    assert!(matches!(deliver_transcript(None, &[]), Delivery::Nothing));
}

#[test]
fn failed_transcription_is_reported() {
    match deliver_transcript(Some(Err("model crashed".to_string())), &[]) {
        Delivery::Warn(w) => assert_eq!(w, "Transcription failed: model crashed"),
        _ => panic!("expected a warning"),
    }
}

#[test]
fn vocabulary_prompt_joins_with_commas() {
    assert_eq!(vocabulary_prompt(&[]), "");
    assert_eq!(vocabulary_prompt(&["Verus".to_string()]), "Verus");
    let words = vec!["Localvox".to_string(), "Tauri".to_string(), "whisper".to_string()];
    assert_eq!(vocabulary_prompt(&words), words.join(", "));
    assert_eq!(vocabulary_prompt(&Settings::default().vocabulary), "");
}

#[test]
fn transcript_segments_are_joined_and_trimmed() {
    let segs = vec![" Hello".to_string(), " world. ".to_string(), "\n".to_string()];
    assert_eq!(transcript_text(&segs), "Hello world.");
    assert_eq!(transcript_text(&[]), "");
}

#[test]
fn microphone_counts_as_lost_after_five_seconds() {
    assert!(!audio_stalled(5_000_000_000));
    assert!(audio_stalled(5_000_000_001));
    assert!(!audio_stalled(0));
}

#[test]
fn indicator_shows_while_listening_or_transcribing() {
    assert!(hud_visible("listening..."));
    assert!(hud_visible("transcribing..."));
    assert!(!hud_visible("idle"));
    assert!(!hud_visible("Running"));
    assert!(!hud_visible("Listening"));
    assert_eq!(tray_status("idle"), "Status: idle");
}

#[test]
fn hotkey_steps_come_in_order() {
    let mut r: Recorder<u8> = Recorder::new();
    let steps = r.on_hotkey(PushToTalkEvent::Pressed);
    assert_eq!(steps.len(), 1);
    assert!(matches!(&steps[0], LoopStep::ShowStatus(s) if s == "listening..."));
    r.audio(&[1, 2, 3]);
    let steps = r.on_hotkey(PushToTalkEvent::Released);
    assert_eq!(steps.len(), 2);
    assert!(matches!(&steps[0], LoopStep::ShowStatus(s) if s == "transcribing..."));
    assert!(matches!(&steps[1], LoopStep::Transcribe(a) if a == &vec![1, 2, 3]));
    assert!(!r.is_recording());
}

#[test]
fn transcription_steps_come_in_order() {
    let rules = vec![ReplacementRule { find: "teh".to_string(), replace: "the".to_string() }];
    let steps: Vec<LoopStep<u8>> = transcription_done(Some(Ok("teh number 555, 123, 4567".to_string())), &rules);
    assert_eq!(steps.len(), 2);
    assert!(matches!(&steps[0], LoopStep::ShowStatus(s) if s == "idle"));
    assert!(matches!(&steps[1], LoopStep::TypeText(t) if t == "the number 5551234567"));

    let steps: Vec<LoopStep<u8>> = transcription_done(Some(Err("boom".to_string())), &rules);
    assert_eq!(steps.len(), 2);
    assert!(matches!(&steps[0], LoopStep::Warn(w) if w == "Transcription failed: boom"));
    assert!(matches!(&steps[1], LoopStep::ShowStatus(s) if s == "idle"));

    for result in [None, Some(Ok(String::new()))] {
        let steps: Vec<LoopStep<u8>> = transcription_done(result, &rules);
        assert_eq!(steps.len(), 1);
        assert!(matches!(&steps[0], LoopStep::ShowStatus(s) if s == "idle"));
    }
}
