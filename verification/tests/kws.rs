use nemotron_mlx::kws::{EXPECTED_KEYWORD, KeywordDetection, KeywordLatch};

#[test]
fn only_the_expected_keyword_is_reported_once() {
    let mut latch = KeywordLatch::new();
    assert!(latch.accepts_audio());
    assert_eq!(latch.detect(None), None);
    assert_eq!(latch.detect(Some(("OTHER".to_string(), 10))), None);
    assert!(latch.accepts_audio());
    assert_eq!(
        latch.detect(Some((EXPECTED_KEYWORD.to_string(), 1234))),
        Some(KeywordDetection { keyword: "SUBMIT_ZH".to_string(), start_ms: 1234 })
    );
    assert!(!latch.accepts_audio());
    assert_eq!(latch.detect(Some((EXPECTED_KEYWORD.to_string(), 5))), None);
    latch.reset();
    assert!(latch.accepts_audio());
    assert!(latch.detect(Some((EXPECTED_KEYWORD.to_string(), 5))).is_some());
}

#[test]
fn other_spotted_keywords_are_not_the_submit_command() {
    let mut latch = KeywordLatch::new();
    assert_eq!(EXPECTED_KEYWORD, "SUBMIT_ZH");
    assert_eq!(latch.detect(Some(("TIPPI_GO".to_string(), 700))), None);
    assert!(latch.accepts_audio());
    assert_eq!(
        latch.detect(Some(("SUBMIT_ZH".to_string(), 1000))),
        Some(KeywordDetection { keyword: "SUBMIT_ZH".to_string(), start_ms: 1000 })
    );
}
