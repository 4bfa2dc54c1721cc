use nemotron_mlx::model::{AudioChunkScheduler, EncoderConfig, StreamingChunkPlan};

fn scheduler() -> AudioChunkScheduler<f32> {
    let plan = StreamingChunkPlan::new(&EncoderConfig::nemotron_3_5(), 3).unwrap();
    AudioChunkScheduler::new(plan)
}

#[test]
fn waits_for_complete_first_and_subsequent_windows() {
    let mut scheduler = scheduler();

    assert!(scheduler.push(&vec![1.0; 4_039]).unwrap().is_empty());
    let first = scheduler.push(&[2.0]).unwrap();
    assert_eq!(first.len(), 1);
    assert_eq!(first[0].samples.len(), 4_040);
    assert!(first[0].center);
    assert_eq!(first[0].mel_frames, 25);

    assert!(scheduler.push(&vec![3.0; 5_223]).unwrap().is_empty());
    let second = scheduler.push(&[4.0]).unwrap();
    assert_eq!(second.len(), 1);
    assert_eq!(second[0].samples.len(), 5_520);
    assert!(!second[0].center);
    assert_eq!(second[0].mel_frames, 32);
    assert_eq!(&second[0].samples[..295], &vec![1.0; 295][..]);
    assert_eq!(second[0].samples[295], 2.0);
}

#[test]
fn finish_pads_at_most_one_tail_and_locks_the_scheduler() {
    let mut scheduler = scheduler();
    scheduler.push(&vec![1.0; 4_040]).unwrap();

    let tail = scheduler.finish().unwrap().expect("overlapping tail");
    assert_eq!(tail.samples.len(), 5_520);
    assert!(!tail.center);
    assert_eq!(tail.samples[..296], vec![1.0; 296]);
    assert!(tail.samples[296..].iter().all(|sample| *sample == 0.0));

    assert!(scheduler.finish().is_err());
    assert!(scheduler.push(&[1.0]).is_err());
}

#[test]
fn reset_clears_audio_and_lifecycle_state() {
    let mut scheduler = scheduler();
    scheduler.push(&vec![1.0; 4_040]).unwrap();
    scheduler.finish().unwrap();
    scheduler.reset();

    assert!(scheduler.push(&vec![2.0; 4_039]).unwrap().is_empty());
    let first = scheduler.push(&[3.0]).unwrap();
    assert_eq!(first.len(), 1);
    assert!(first[0].center);
    assert_eq!(first[0].samples[4_039], 3.0);
}

#[test]
fn finishing_empty_audio_emits_nothing() {
    let mut scheduler = scheduler();
    assert!(scheduler.finish().unwrap().is_none());
}

#[test]
fn one_large_block_yields_every_complete_window() {
    let mut scheduler = scheduler();
    // Uncentered window j starts at (25 + 32j) * 160 - 256 and spans 5520 samples,
    // so the second one ends at sample 14384.
    let chunks = scheduler.push(&vec![0.5f32; 14_384]).unwrap();
    assert_eq!(chunks.len(), 3);
    assert!(chunks[0].center);
    assert!(!chunks[1].center && !chunks[2].center);
    assert!(scheduler.push(&[]).unwrap().is_empty());
}

#[test]
fn finish_before_the_first_window_pads_it() {
    let mut scheduler = scheduler();
    scheduler.push(&[7.0f32; 10]).unwrap();
    let chunk = scheduler.finish().unwrap().expect("centered window");
    assert!(chunk.center);
    assert_eq!(chunk.samples.len(), 4_040);
    assert_eq!(&chunk.samples[..10], &[7.0; 10]);
    assert!(chunk.samples[10..].iter().all(|sample| *sample == 0.0));
}

#[test]
fn zero_lookahead_cannot_place_a_second_window() {
    let plan = StreamingChunkPlan::new(&EncoderConfig::nemotron_3_5(), 0).unwrap();
    let mut scheduler: AudioChunkScheduler<f32> = AudioChunkScheduler::new(plan);
    // The first window needs 200 samples; the next start would lie before the audio.
    assert!(scheduler.push(&[0.0; 200]).is_err());
}

#[test]
fn irregular_blocks_cut_the_same_windows_as_one_block() {
    let audio: Vec<f32> = (0..20_000).map(|index| index as f32).collect();
    let mut whole = scheduler();
    let mut expected = whole.push(&audio).unwrap();
    expected.extend(whole.finish().unwrap());

    let mut streamed = scheduler();
    let mut actual = Vec::new();
    let mut start = 0;
    for length in [1, 999, 3_040, 7, 7_000, 3_336, 5_617] {
        actual.extend(streamed.push(&audio[start..start + length]).unwrap());
        start += length;
    }
    assert_eq!(start, audio.len());
    actual.extend(streamed.finish().unwrap());
    assert_eq!(actual, expected);
    assert!(expected.len() >= 3);
}

#[test]
fn windows_after_reset_start_where_the_plan_places_them() {
    let mut scheduler = scheduler();
    scheduler.push(&vec![9.0; 7_000]).unwrap();
    scheduler.reset();

    let audio: Vec<f32> = (0..20_000).map(|i| i as f32).collect();
    let windows = scheduler.push(&audio).unwrap();
    assert_eq!(windows.len(), 4);
    assert!(windows[0].center);
    assert_eq!(windows[0].samples, audio[..4_040].to_vec());
    for k in 1..4usize {
        let start = (25 + (k - 1) * 32) * 160 - 256;
        assert!(!windows[k].center);
        assert_eq!(windows[k].mel_frames, 32);
        assert_eq!(windows[k].samples, audio[start..start + 5_520].to_vec());
    }

    let tail = scheduler.finish().unwrap().expect("a window starts inside the audio");
    let start = (25 + 3 * 32) * 160 - 256;
    assert_eq!(tail.samples[..20_000 - start], audio[start..]);
    assert!(tail.samples[20_000 - start..].iter().all(|sample| *sample == 0.0));
}
