use localvox::cleanup::{
    clean_from_pieces, cleanup_prompt, completion_budget, is_blank_text, CompletionCollector,
    SYSTEM_PROMPT,
};

fn pieces(p: &[&str]) -> Vec<String> {
    p.iter().map(|s| s.to_string()).collect()
}

#[test]
fn prompt_has_the_chat_format() {
    let p = cleanup_prompt("go to school, sorry, the market");
    assert_eq!(
        p,
        format!("<|im_start|>system\n{SYSTEM_PROMPT}<|im_end|>\n<|im_start|>user\ngo to school, sorry, the market<|im_end|>\n<|im_start|>assistant\n")
    );
}

#[test]
fn budget_is_three_tokens_per_word_plus_32_capped() {
    assert_eq!(completion_budget(""), 32);
    assert_eq!(completion_budget("one two  three\n"), 41);
    assert_eq!(completion_budget(&"w ".repeat(74)), 254);
    assert_eq!(completion_budget(&"w ".repeat(75)), 256);
    assert_eq!(completion_budget(&"w ".repeat(1000)), 256);
}

#[test]
fn output_stops_at_end_of_turn() {
    let raw = "go to school, sorry, the market";
    assert_eq!(clean_from_pieces(raw, &pieces(&[" go to", " the market", "<|im_end|>junk", "more"])), "go to the market");
    assert_eq!(clean_from_pieces(raw, &pieces(&["go to the mar", "ket<|im_end|>"])), "go to the market");
}

#[test]
fn blank_input_gives_empty_output() {
    assert!(is_blank_text("  \n\t"));
    assert!(!is_blank_text(" a "));
    assert_eq!(clean_from_pieces("   ", &pieces(&["anything"])), "");
}

#[test]
fn empty_model_output_keeps_the_dictation() {
    assert_eq!(clean_from_pieces("hello there", &pieces(&["  ", "<|im_end|>"])), "hello there");
    assert_eq!(clean_from_pieces("hello there", &pieces(&[])), "hello there");
}

#[test]
fn collector_reports_when_to_stop() {
    let mut c = CompletionCollector::new();
    assert!(c.accept("abc"));
    assert!(!c.accept("de<|im_end|>fg<|im_end|>"));
    assert_eq!(c.finish("raw"), "abcde");
}
