use localvox::vad::Segmenter;

/// The segmenter's loudness test: root-mean-square amplitude above 0.015.
fn loud(chunk: &[f32]) -> bool {
    if chunk.is_empty() {
        return false;
    }
    let sum_sq: f32 = chunk.iter().map(|s| s * s).sum();
    (sum_sq / chunk.len() as f32).sqrt() > 0.015
}

/// The default segmenter at 16 kHz: 600 ms of hang-over.
fn segmenter() -> Segmenter<f32> {
    Segmenter::new(((600f64 / 1000.0) * 16_000f64) as usize)
}

fn push(g: &mut Segmenter<f32>, chunk: &[f32]) -> Option<Vec<f32>> {
    g.push(chunk, loud(chunk))
}

fn loud_chunk(len: usize) -> Vec<f32> {
    (0..len).map(|i| if i % 2 == 0 { 0.5 } else { -0.5 }).collect()
}
fn silent_chunk(len: usize) -> Vec<f32> {
    vec![0.0; len]
}

#[test]
fn stays_silent_through_silence() {
    let mut seg = segmenter();
    for _ in 0..10 {
        assert!(push(&mut seg, &silent_chunk(160)).is_none());
    }
}

#[test]
fn emits_utterance_after_speech_then_pause() {
    let mut seg = segmenter();
    for _ in 0..5 {
        assert!(push(&mut seg, &loud_chunk(1600)).is_none());
    }
    assert!(push(&mut seg, &silent_chunk(1600)).is_none());
    let mut result = None;
    for _ in 0..10 {
        if let Some(out) = push(&mut seg, &silent_chunk(1600)) {
            result = Some(out);
            break;
        }
    }
    assert!(result.expect("should emit an utterance").len() >= 5 * 1600);
}

#[test]
fn utterance_ends_once_silence_exceeds_the_hangover() {
    let mut g: Segmenter<u8> = Segmenter::new(4);
    assert!(g.push(&[1, 2], true).is_none());
    assert!(g.push(&[0, 0, 0], false).is_none());
    assert!(g.push(&[3], true).is_none());
    assert!(g.push(&[0, 0, 0], false).is_none());
    assert!(g.push(&[0], false).is_none());
    assert_eq!(g.push(&[0], false).unwrap(), vec![1, 2, 0, 0, 0, 3, 0, 0, 0, 0, 0]);
    assert!(!g.is_speaking());
    assert!(g.push(&[0; 10], false).is_none());
}

#[test]
fn utterance_starts_at_the_first_loud_chunk() {
    let mut g: Segmenter<u8> = Segmenter::new(2);
    assert!(g.push(&[9, 9], false).is_none());
    assert!(g.push(&[1], true).is_none());
    assert!(g.push(&[0], false).is_none());
    assert!(g.push(&[2, 3], true).is_none());
    assert!(g.push(&[0, 0], false).is_none());
    assert_eq!(g.push(&[0], false), Some(vec![1, 0, 2, 3, 0, 0, 0]));
    assert!(!g.is_speaking());
    assert!(g.push(&[0, 0, 0], false).is_none());
    assert!(g.push(&[5], true).is_none());
    assert_eq!(g.push(&[0, 0, 0], false), Some(vec![5, 0, 0, 0]));
}
