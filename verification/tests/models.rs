use localvox::checksum::{checksum_matches, checksum_mismatch, sha256_hex, Sha256Stream};
use localvox::hardware::Tier;
use localvox::models::{cleanup_model, find_model, manifest};
use localvox::pipeline::{model_for_tier, remembered_model};

#[test]
fn finds_known_model() {
    assert!(find_model("whisper-base-en").is_some());
    assert!(find_model("does-not-exist").is_none());
}

#[test]
fn found_entry_has_the_asked_id() {
    let e = find_model("whisper-large-v3-turbo").unwrap();
    assert_eq!(e.id, "whisper-large-v3-turbo");
    assert_eq!(e.file, "ggml-large-v3-turbo.bin");
    assert_eq!(e.repo, "ggerganov/whisper.cpp");
    assert_eq!(e.size_mb, 1600);
    assert!(e.sha256.is_none());
}

#[test]
fn model_ids_are_case_sensitive() {
    assert!(find_model("WHISPER-BASE-EN").is_none());
    assert!(find_model("").is_none());
}

#[test]
fn manifest_lists_five_models_smallest_first() {
    let m = manifest();
    assert_eq!(m.len(), 5);
    for w in m.windows(2) {
        assert!(w[0].size_mb < w[1].size_mb);
    }
}

#[test]
fn every_tier_model_is_in_the_catalog() {
    for t in [Tier::Light, Tier::Balanced, Tier::Performance, Tier::MaxAccuracy] {
        let e = model_for_tier(t);
        assert_eq!(e.id, t.recommended_model());
        assert!(find_model(t.recommended_model()).is_some());
    }
}

#[test]
fn higher_tiers_run_larger_models() {
    let sizes: Vec<u64> = [Tier::Light, Tier::Balanced, Tier::Performance, Tier::MaxAccuracy]
        .iter()
        .map(|t| model_for_tier(*t).size_mb)
        .collect();
    assert_eq!(sizes, vec![75, 148, 1500, 1600]);
}

#[test]
fn remembered_model_must_be_in_catalog() {
    assert_eq!(remembered_model(&Some("whisper-small-en".to_string())).unwrap().file, "ggml-small.en.bin");
    assert!(remembered_model(&Some("whisper-huge".to_string())).is_none());
    assert!(remembered_model(&None).is_none());
}

#[test]
fn cleanup_model_location() {
    let c = cleanup_model();
    assert_eq!(c.repo, "Qwen/Qwen2.5-1.5B-Instruct-GGUF");
    assert_eq!(c.file, "qwen2.5-1.5b-instruct-q4_k_m.gguf");
    assert_eq!(c.size_mb, 1100);
}

#[test]
fn same_content_hashes_the_same() {
    assert_eq!(sha256_hex(b"hello world"), sha256_hex(b"hello world"));
}

#[test]
fn sha256_of_known_text() {
    assert_eq!(
        sha256_hex(b"hello world"),
        "b94d27b9934d3e08a52e52d7da7dabfac484efe37a5380ee9088f7ace2efcde9"
    );
    assert_eq!(
        sha256_hex(b""),
        "e3b0c44298fc1c149afbf4c8996fb92427ae41e4649b934ca495991b7852b855"
    );
}

#[test]
fn chunked_hashing_equals_one_shot() {
    let mut s = Sha256Stream::new();
    s.update(b"hello ");
    s.update(b"");
    s.update(b"world");
    assert_eq!(s.finish_hex(), sha256_hex(b"hello world"));
}

#[test]
fn checksum_comparison() {
    assert!(checksum_matches("abc", "abc"));
    assert!(!checksum_matches("abc", "abd"));
    assert!(!checksum_matches("abc", "ABC"));
}

#[test]
fn catalog_ids_are_distinct() {
    let m = manifest();
    for (i, a) in m.iter().enumerate() {
        for b in &m[i + 1..] {
            assert_ne!(a.id, b.id);
        }
        assert_eq!(find_model(a.id).unwrap().file, a.file);
    }
}

#[test]
fn checksum_mismatch_names_the_file_and_both_sums() {
    assert_eq!(checksum_mismatch("ggml-base.en.bin", "abc", "abc"), None);
    assert_eq!(
        checksum_mismatch("ggml-base.en.bin", "abc", "abd"),
        Some("checksum mismatch for ggml-base.en.bin: expected abc, got abd".to_string())
    );
}
