use localvox::settings::Settings;

#[test]
fn default_settings() {
    let s = Settings::default();
    assert_eq!(s.hotkey_combo, "Ctrl+F9");
    assert!(s.model_id.is_none());
    assert!(s.vocabulary.is_empty());
    assert!(s.replacements.is_empty());
}
