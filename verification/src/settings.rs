//! The persisted user settings.
use vstd::prelude::*;
use crate::corrections::ReplacementRule;

verus! {

/// What the application remembers between runs.
pub struct Settings {
    /// The push-to-talk hotkey, such as `"Ctrl+F9"`.
    pub hotkey_combo: String,
    /// The chosen speech model's catalog id; none until the user picks one.
    pub model_id: Option<String>,
    /// Words the recognizer should expect.
    pub vocabulary: Vec<String>,
    /// Corrections applied to every transcript.
    pub replacements: Vec<ReplacementRule>,
}

impl Default for Settings {
    /// Push-to-talk on `Ctrl+F9`, no model chosen, no vocabulary, no
    /// corrections.
    fn default() -> (s: Self)
        ensures
            s.hotkey_combo@ == "Ctrl+F9"@,
            s.model_id is None,
            s.vocabulary@.len() == 0,
            s.replacements@.len() == 0,
    {
        Settings {
            hotkey_combo: String::from_str("Ctrl+F9"),
            model_id: None,
            vocabulary: Vec::new(),
            replacements: Vec::new(),
        }
    }
}

} // verus!
