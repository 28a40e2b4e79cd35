use localvox::corrections::{apply_replacements, replace_case_insensitive, ReplacementRule};
use localvox::digits::fix_digit_sequences;

fn rule(find: &str, replace: &str) -> ReplacementRule {
    ReplacementRule { find: find.to_string(), replace: replace.to_string() }
}

#[test]
fn replaces_ignoring_ascii_case() {
    assert_eq!(replace_case_insensitive("Hello hello HELLO", "hello", "hi"), "hi hi hi");
    assert_eq!(replace_case_insensitive("Call Jon now", "JON", "John"), "Call John now");
}

#[test]
fn replacement_keeps_the_rest_and_does_not_overlap() {
    assert_eq!(replace_case_insensitive("aaaa", "aa", "b"), "bb");
    assert_eq!(replace_case_insensitive("aaa", "aa", "b"), "ba");
    assert_eq!(replace_case_insensitive("abc", "x", "y"), "abc");
    assert_eq!(replace_case_insensitive("", "x", "y"), "");
    assert_eq!(replace_case_insensitive("xx", "x", ""), "");
}

#[test]
fn replacement_is_not_rescanned() {
    assert_eq!(replace_case_insensitive("cat", "cat", "concat"), "concat");
}

#[test]
fn case_folding_is_ascii_only() {
    assert_eq!(replace_case_insensitive("ÉCOLE école", "école", "school"), "ÉCOLE school");
    assert_eq!(replace_case_insensitive("naïve NAÏVE", "naïve", "naive"), "naive NAÏVE");
}

#[test]
fn rules_apply_in_order() {
    let rules = vec![rule("gonna", "going to"), rule("going to", "will")];
    assert_eq!(apply_replacements("I'm gonna go", &rules), "I'm will go");
    let swapped = vec![rule("going to", "will"), rule("gonna", "going to")];
    assert_eq!(apply_replacements("I'm gonna go", &swapped), "I'm going to go");
}

#[test]
fn empty_find_rules_are_skipped() {
    let rules = vec![rule("", "x"), rule("a", "b")];
    assert_eq!(apply_replacements("aaa", &rules), "bbb");
    assert_eq!(apply_replacements("text", &[]), "text");
}

#[test]
fn replacement_agrees_with_string_search() {
    // Byte-level search with std's `str::find` in the lowercased text,
    // copying the unchanged text between matches.
    fn reference(text: &str, find: &str, replace: &str) -> String {
        let lower_text = text.to_ascii_lowercase();
        let lower_find = find.to_ascii_lowercase();
        let mut result = String::new();
        let mut last_end = 0;
        let mut search_start = 0;
        while let Some(pos) = lower_text[search_start..].find(&lower_find) {
            let start = search_start + pos;
            let end = start + find.len();
            result.push_str(&text[last_end..start]);
            result.push_str(replace);
            last_end = end;
            search_start = end;
        }
        result.push_str(&text[last_end..]);
        result
    }
    let texts = ["The Quick brown fox", "ababab", "ÄäAa aA", "tschüß TSCHÜSS", "x"];
    let finds = ["quick", "ab", "aa", "a", "ÜSS", "x", "bab"];
    for t in texts {
        for f in finds {
            assert_eq!(replace_case_insensitive(t, f, "<>"), reference(t, f, "<>"), "{t} / {f}");
        }
    }
}

#[test]
fn collapses_long_digit_sequences() {
    assert_eq!(fix_digit_sequences("call 555, 123, 4567 now"), "call 5551234567 now");
    assert_eq!(fix_digit_sequences("1,2,3,4,5,6,7"), "1234567");
    assert_eq!(fix_digit_sequences("12,  34,\t567"), "1234567");
}

#[test]
fn keeps_short_digit_sequences() {
    assert_eq!(fix_digit_sequences("I bought 3, 4 apples"), "I bought 3, 4 apples");
    assert_eq!(fix_digit_sequences("1, 2, 3, 4, 5, 6"), "1, 2, 3, 4, 5, 6");
    assert_eq!(fix_digit_sequences("no digits, here"), "no digits, here");
    assert_eq!(fix_digit_sequences("1234567"), "1234567");
    assert_eq!(fix_digit_sequences(""), "");
}

#[test]
fn trailing_comma_stays_outside_the_sequence() {
    assert_eq!(fix_digit_sequences("555, 123, 4567, and more"), "5551234567, and more");
    assert_eq!(fix_digit_sequences("1234, 5678,"), "12345678,");
}

#[test]
fn non_ascii_digits_count_for_the_pattern_not_the_result() {
    // Arabic-Indic digits are decimal digits for the pattern, but only ASCII
    // digits are kept when collapsing.
    assert_eq!(fix_digit_sequences("١٢٣, ٤٥٦, 7"), "١٢٣, ٤٥٦, 7");
    assert_eq!(fix_digit_sequences("١, 1234567"), "1234567");
}

#[test]
fn digit_repair_matches_the_regex() {
    let re = regex::Regex::new(r"\d+(?:,\s*\d+)+").unwrap();
    let reference = |text: &str| -> String {
        re.replace_all(text, |caps: &regex::Captures| {
            let matched = &caps[0];
            let digits_only: String = matched.chars().filter(|c| c.is_ascii_digit()).collect();
            if digits_only.len() >= 7 {
                digits_only
            } else {
                matched.to_string()
            }
        })
        .to_string()
    };
    let samples = [
        "my number is 0, 7, 9, 1, 2, 3, 4, 5, 6, 7, 8 thanks",
        "dates 1, 2 and 3, 4, 5, 6, 7, 8, 9",
        "5, , 6",
        "5,6 , 7,8,9,0,1,2,3",
        "a1,2,3,4,5,6,7b",
        "٣,٣,٣,٣,٣,٣,٣ and 1,\u{2003}2,\u{3000}3, 4,5,6,7",
        "1,\n2,\r\n3,4,5,6,7,8",
        "١٢٣٤٥٦٧, 8",
        "𝟏𝟐, 34567, 8",
        "12,,34,5678",
    ];
    for s in samples {
        assert_eq!(fix_digit_sequences(s), reference(s), "for {s:?}");
    }
}

fn regex_reference(re: &regex::Regex, text: &str) -> String {
    re.replace_all(text, |caps: &regex::Captures| {
        let matched = &caps[0];
        let digits_only: String = matched.chars().filter(|c| c.is_ascii_digit()).collect();
        if digits_only.len() >= 7 {
            digits_only
        } else {
            matched.to_string()
        }
    })
    .to_string()
}

#[test]
fn character_classes_match_the_regex() {
    let re = regex::Regex::new(r"\d+(?:,\s*\d+)+").unwrap();
    for cp in 0u32..=0x10FFFF {
        if let Some(c) = char::from_u32(cp) {
            let as_digit = format!("1,{c},1234567");
            assert_eq!(fix_digit_sequences(&as_digit), regex_reference(&re, &as_digit), "{cp:x}");
            let as_space = format!("1,{c}2,3,4,5,6,7");
            assert_eq!(fix_digit_sequences(&as_space), regex_reference(&re, &as_space), "{cp:x}");
        }
    }
}

#[test]
fn digit_repair_keeps_every_ascii_digit() {
    for s in ["a1, 2b,3,4,5,6,7,8 c9", "555, 123, 4567", "1 , 2", "١, 1234567, 8"] {
        let before: String = s.chars().filter(|c| c.is_ascii_digit()).collect();
        let after: String = fix_digit_sequences(s).chars().filter(|c| c.is_ascii_digit()).collect();
        assert_eq!(before, after);
        assert!(fix_digit_sequences(s).chars().count() <= s.chars().count());
    }
}

#[test]
fn digit_repair_is_stable() {
    for s in [
        "call 555, 123, 4567 now",
        "1234567, 8, 9",
        "12, 34, 5",
        "1, 2, 3, 4, 5, 6, 7, and 8, 9",
        "١, 1234567, 8",
        "1,2,3,4,5,6,7,8,9,",
    ] {
        let once = fix_digit_sequences(s);
        assert_eq!(fix_digit_sequences(&once), once, "for {s:?}");
    }
    assert_eq!(fix_digit_sequences("1234567, 8, 9"), "123456789");
    assert_eq!(fix_digit_sequences("123456789"), "123456789");
}

#[test]
fn self_replacement_changes_nothing() {
    assert_eq!(replace_case_insensitive("a cat sat on a cat", "cat", "cat"), "a cat sat on a cat");
}

#[test]
fn rule_lists_compose() {
    let a = vec![rule("teh", "the")];
    let b = vec![rule("THE END", "fin"), rule("", "ignored")];
    let both: Vec<ReplacementRule> = a.iter().cloned().chain(b.iter().cloned()).collect();
    let text = "teh end is teh end";
    assert_eq!(apply_replacements(text, &both), apply_replacements(&apply_replacements(text, &a), &b));
    assert_eq!(apply_replacements(text, &both), "fin is fin");
}
