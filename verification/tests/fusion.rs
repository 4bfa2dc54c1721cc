use nemotron_mlx::fusion::{SpeakerSegment, attribution_window, fuse_segments, group_labeled};
use nemotron_mlx::model::TimedToken;

fn tok(id: u32, frame: u64) -> TimedToken {
    TimedToken { id, frame }
}

/// Votes for the speaker present in at least half of the window's frames.
fn majority(frames: &[Option<u8>]) -> impl Fn(usize, usize) -> Option<u8> + '_ {
    move |lo, hi| {
        let window = &frames[lo..=hi];
        (0u8..4).find(|speaker| {
            2 * window.iter().filter(|frame| **frame == Some(*speaker)).count() >= window.len()
        })
    }
}

fn count_text(ids: &[u32]) -> String {
    format!("t:{}", ids.len())
}

fn fuse(tokens: &[TimedToken], frames: &[Option<u8>], flushed: bool) -> Vec<SpeakerSegment> {
    fuse_segments(tokens, frames.len(), flushed, 3, 500, 80, majority(frames), count_text)
}

fn run(speaker: Option<u8>, count: usize) -> Vec<Option<u8>> {
    vec![speaker; count]
}

#[test]
fn tokens_follow_the_dominant_speaker() {
    let mut frames = run(Some(0), 20);
    frames.extend(run(Some(1), 20));
    let segments = fuse(&[tok(1, 5), tok(2, 25)], &frames, false);
    assert_eq!(segments.len(), 2);
    assert_eq!((segments[0].speaker, segments[0].start_ms, segments[0].end_ms), (0, 400, 480));
    assert_eq!((segments[1].speaker, segments[1].start_ms, segments[1].end_ms), (1, 2000, 2080));
    assert!(segments.iter().all(|segment| segment.is_final && segment.text == "t:1"));
}

#[test]
fn unvoted_tokens_inherit_the_previous_speaker() {
    let mut frames = run(Some(2), 10);
    frames.extend(run(None, 30));
    let segments = fuse(&[tok(1, 3), tok(2, 20)], &frames, true);
    assert_eq!(segments.len(), 1);
    assert_eq!(segments[0].speaker, 2);
    assert_eq!(segments[0].text, "t:2");
}

#[test]
fn a_first_unvoted_token_goes_to_speaker_zero() {
    let segments = fuse(&[tok(1, 10)], &run(None, 30), true);
    assert_eq!(segments.len(), 1);
    assert_eq!(segments[0].speaker, 0);
    assert!(segments[0].is_final);
}

#[test]
fn a_short_turn_merges_into_its_long_neighbours() {
    let mut frames = run(Some(0), 30);
    frames.extend(run(Some(1), 5));
    frames.extend(run(Some(0), 30));
    let tokens = [tok(1, 2), tok(2, 25), tok(3, 31), tok(4, 32), tok(5, 40), tok(6, 60)];
    let segments = fuse(&tokens, &frames, true);
    assert_eq!(segments.len(), 1);
    assert_eq!(segments[0].speaker, 0);
    assert_eq!(segments[0].text, "t:6");
    assert_eq!((segments[0].start_ms, segments[0].end_ms), (160, 4880));
}

#[test]
fn two_short_turns_both_survive() {
    let mut frames = run(Some(0), 20);
    frames.extend(run(Some(1), 20));
    let segments = fuse(&[tok(1, 5), tok(2, 25)], &frames, true);
    assert_eq!(segments.len(), 2);
    assert_ne!(segments[0].speaker, segments[1].speaker);
}

#[test]
fn tokens_past_the_diarization_horizon_are_tentative() {
    let frames = run(Some(1), 10);
    let segments = fuse(&[tok(1, 5), tok(2, 30)], &frames, false);
    assert_eq!(segments.len(), 2);
    assert!(segments[0].is_final);
    assert_eq!(segments[0].speaker, 1);
    assert!(!segments[1].is_final);
    assert_eq!(segments[1].speaker, 1);
    assert_eq!((segments[1].start_ms, segments[1].end_ms), (2400, 2480));

    let flushed = fuse(&[tok(1, 5), tok(2, 30)], &frames, true);
    assert!(flushed.iter().all(|segment| segment.is_final));
}

#[test]
fn without_diarization_everything_waits_until_flush() {
    let pending = fuse(&[tok(1, 0), tok(2, 1)], &[], false);
    assert_eq!(pending.len(), 1);
    assert!(!pending[0].is_final);
    assert_eq!(pending[0].speaker, 0);

    let flushed = fuse(&[tok(1, 0), tok(2, 1)], &[], true);
    assert_eq!(flushed.len(), 1);
    assert!(flushed[0].is_final);
    assert_eq!(flushed[0].text, "t:2");
}

#[test]
fn nothing_in_nothing_out() {
    assert!(fuse(&[], &run(Some(0), 10), true).is_empty());
}

#[test]
fn windows_clip_to_the_available_frames() {
    assert_eq!(attribution_window(5, 3, 40), (2, 8));
    assert_eq!(attribution_window(1, 3, 40), (0, 4));
    assert_eq!(attribution_window(30, 3, 10), (9, 9));
}

#[test]
fn grouping_splits_runs_of_one_speaker() {
    let labeled = [(tok(1, 0), 0), (tok(2, 1), 0), (tok(3, 2), 1), (tok(4, 3), 0)];
    let groups = group_labeled(&labeled);
    let spans: Vec<(u8, usize, usize)> = groups.iter().map(|g| (g.speaker, g.start, g.end)).collect();
    assert_eq!(spans, vec![(0, 0, 2), (1, 2, 3), (0, 3, 4)]);
}
