use nemotron_mlx::model::CausalConv1dCache;

#[test]
fn causal_cache_prepends_previous_frames_and_updates_itself() {
    let mut cache = CausalConv1dCache::new(2, 2);

    let first = cache.prepend_and_update(&[1.0, 10.0], 1).unwrap();
    assert_eq!(first, vec![0.0, 0.0, 0.0, 0.0, 1.0, 10.0]);
    assert_eq!(cache.values(), &[0.0, 0.0, 1.0, 10.0]);

    let second = cache
        .prepend_and_update(&[2.0, 20.0, 3.0, 30.0], 2)
        .unwrap();
    assert_eq!(second, vec![0.0, 0.0, 1.0, 10.0, 2.0, 20.0, 3.0, 30.0]);
    assert_eq!(cache.values(), &[2.0, 20.0, 3.0, 30.0]);
}

#[test]
fn causal_cache_rejects_a_chunk_of_the_wrong_width() {
    let mut cache = CausalConv1dCache::new(2, 1);
    assert!(cache.prepend_and_update(&[1.0, 2.0, 3.0], 1).is_err());
    assert_eq!(cache.values(), &[0.0, 0.0]);
}

#[test]
fn two_cache_updates_keep_what_one_update_of_both_chunks_keeps() {
    let chunks: [&[f32]; 2] = [&[1.0, 10.0, 2.0, 20.0, 3.0, 30.0], &[4.0, 40.0]];
    let mut streamed = CausalConv1dCache::new(2, 2);
    streamed.prepend_and_update(chunks[0], 3).unwrap();
    let second = streamed.prepend_and_update(chunks[1], 1).unwrap();

    let mut whole = CausalConv1dCache::new(2, 2);
    let all: Vec<f32> = chunks.concat();
    let one_shot = whole.prepend_and_update(&all, 4).unwrap();

    assert_eq!(streamed.values(), whole.values());
    assert_eq!(streamed.values(), &[3.0, 30.0, 4.0, 40.0]);
    // The second update sees the newest two frames before its chunk.
    assert_eq!(second, one_shot[one_shot.len() - second.len()..].to_vec());
}
