use nemotron_mlx::model::{
    AttentionKvCache, CausalConv2dCache, EncoderConfig, LanguagePrompt, ModelError,
    StreamingChunkPlan, SubsamplingCache, Tensor4, channel_frequency_flatten,
    chunked_attention_mask, mask_invalid_time, relative_shift, streaming_output_length,
    token_major_to_head_major,
};

#[test]
fn checkpoint_prompt_dictionary_maps_locales_exactly() {
    assert_eq!(LanguagePrompt::from_code("auto").unwrap().id(), 101);
    assert_eq!(LanguagePrompt::from_code("zh-CN").unwrap().id(), 4);
    assert_eq!(LanguagePrompt::from_code("zh-TW").unwrap().id(), 5);
    assert_eq!(LanguagePrompt::from_code("en").unwrap().id(), 0);
    assert_eq!(LanguagePrompt::from_code("en-GB").unwrap().id(), 1);
    assert_eq!(LanguagePrompt::from_code("nb-NO").unwrap().id(), 103);
    assert_eq!(LanguagePrompt::from_code("nn").unwrap().id(), 104);
    assert_eq!(LanguagePrompt::supported_codes().len(), 121);
    assert!(LanguagePrompt::from_code("zh-HK").is_err());
}

#[test]
fn checkpoint_streaming_chunk_shapes_are_exact() {
    let config = EncoderConfig::nemotron_3_5();
    assert_eq!(config.hidden_size, 1024);
    assert_eq!(config.num_layers, 24);
    assert_eq!(config.sliding_window, 57);
    assert_eq!(config.supported_lookahead, [3, 0, 6, 13]);

    let default = StreamingChunkPlan::new(&config, 3).unwrap();
    assert_eq!(default.first_mel_frames(), 25);
    assert_eq!(default.subsequent_mel_frames(), 32);
    assert_eq!(default.first_audio_samples(), 4040);
    assert_eq!(default.subsequent_audio_samples(), 5520);
    assert_eq!(default.encoder_frames_per_chunk(), 4);
    assert_eq!(default.emitted_frames_per_chunk(), 1);
    assert_eq!(default.latency_ms(), 320);

    let zero = StreamingChunkPlan::new(&config, 0).unwrap();
    assert_eq!(zero.first_mel_frames(), 1);
    assert_eq!(zero.subsequent_mel_frames(), 8);
    assert_eq!(zero.encoder_frames_per_chunk(), 1);
    assert_eq!(zero.latency_ms(), 80);
    assert!(StreamingChunkPlan::new(&config, 1).is_err());
}

#[test]
fn attention_cache_returns_old_plus_current_and_retains_sliding_window() {
    let mut cache = AttentionKvCache::new(2, 2, 3);
    let first_keys: Vec<f32> = (0..8).map(|value| value as f32).collect();
    let first_values: Vec<f32> = (100..108).map(|value| value as f32).collect();
    let first = cache.update(&first_keys, &first_values, 2).unwrap();
    assert_eq!(first.frames, 2);
    assert_eq!(first.keys, first_keys);
    assert_eq!(cache.frames(), 2);

    let second_keys: Vec<f32> = (8..16).map(|value| value as f32).collect();
    let second_values: Vec<f32> = (108..116).map(|value| value as f32).collect();
    let second = cache.update(&second_keys, &second_values, 2).unwrap();
    assert_eq!(second.frames, 4);
    assert_eq!(second.keys.len(), 16);
    assert_eq!(cache.frames(), 3);
    // Per-head cache keeps global frames 1, 2, 3 rather than slicing flat storage.
    assert_eq!(
        cache.keys(),
        &[
            2.0, 3.0, 8.0, 9.0, 10.0, 11.0, 6.0, 7.0, 12.0, 13.0, 14.0, 15.0
        ]
    );
}

#[test]
fn chunk_mask_allows_current_lookahead_and_bounded_previous_chunks() {
    let mask = chunked_attention_mask(12, 4, 3);
    let allowed = |query: usize, key: usize| mask[query * 12 + key];

    assert!(allowed(0, 3));
    assert!(!allowed(0, 4));
    assert!(allowed(4, 0));
    assert!(allowed(4, 7));
    assert!(!allowed(4, 8));
    assert!(!allowed(8, 3));
    assert!(allowed(8, 4));
    assert!(allowed(8, 11));
}

#[test]
fn relative_shift_matches_transformers_pad_view_slice_sequence() {
    let scores = (0..10).map(|value| value as f32).collect::<Vec<_>>();
    let shifted = relative_shift(&scores, 2, 5).unwrap();
    assert_eq!(
        shifted,
        vec![1.0, 2.0, 3.0, 4.0, 0.0, 5.0, 6.0, 7.0, 8.0, 9.0]
    );
}

#[test]
fn subsampling_flattens_channels_before_frequency_for_pytorch_linear() {
    let input = Tensor4 {
        shape: [1, 1, 2, 3],
        values: vec![1.0, 2.0, 3.0, 4.0, 5.0, 6.0],
    };
    assert_eq!(
        channel_frequency_flatten(&input).unwrap(),
        vec![1.0, 4.0, 2.0, 5.0, 3.0, 6.0]
    );
}

#[test]
fn attention_cache_rejects_mismatched_keys_and_keeps_state() {
    let mut cache = AttentionKvCache::new(2, 2, 3);
    let keys: Vec<f32> = (0..8).map(|value| value as f32).collect();
    cache.update(&keys, &keys, 2).unwrap();
    let short = vec![0.0f32; 7];
    assert!(matches!(
        cache.update(&short, &keys, 2),
        Err(ModelError::InvalidShape(_))
    ));
    assert_eq!(cache.frames(), 2);
    assert_eq!(cache.keys(), keys);
    assert_eq!(cache.values(), keys);
}

#[test]
fn attention_cache_window_of_zero_frames_keeps_nothing() {
    let mut cache = AttentionKvCache::new(1, 1, 0);
    let window = cache.update(&[5.0f32, 6.0], &[7.0, 8.0], 2).unwrap();
    assert_eq!(window.frames, 2);
    assert_eq!(window.values, vec![7.0, 8.0]);
    assert_eq!(cache.frames(), 0);
    assert!(cache.keys().is_empty());
}

#[test]
fn causal_conv2d_cache_starts_with_the_full_causal_padding() {
    let mut cache = CausalConv2dCache::new(4, 1, 1, 1);
    assert_eq!(cache.values(), &[0.0f32; 8]);
    let first: Vec<f32> = (1..=12).map(|value| value as f32).collect();
    let (combined, frames) = cache.prepend_and_update(&first, 3).unwrap();
    assert_eq!(frames, 5);
    assert_eq!(combined.len(), 20);
    assert_eq!(&combined[..8], &[0.0; 8]);
    assert_eq!(cache.values(), &[9.0, 10.0, 11.0, 12.0]);

    let second: Vec<f32> = (13..=20).map(|value| value as f32).collect();
    let (combined, frames) = cache.prepend_and_update(&second, 2).unwrap();
    assert_eq!(frames, 3);
    assert_eq!(&combined[..4], &[9.0, 10.0, 11.0, 12.0]);
    assert_eq!(cache.values(), &[17.0, 18.0, 19.0, 20.0]);
    assert!(cache.prepend_and_update(&second, 3).is_err());
}

#[test]
fn subsampling_cache_tracks_the_frequency_of_each_stage() {
    let cache: SubsamplingCache<f32> = SubsamplingCache::new(128, 256, 3, 2, 3);
    assert_eq!(cache.layers.len(), 3);
    // Causally padded stride-2 stages map 128 -> 65 -> 33 bins; one channel
    // in, 256 afterwards; two zero frames each.
    assert_eq!(cache.layers[0].values().len(), 2 * 128);
    assert_eq!(cache.layers[1].values().len(), 2 * 65 * 256);
    assert_eq!(cache.layers[2].values().len(), 2 * 33 * 256);
}

#[test]
fn streaming_output_length_counts_full_strides() {
    assert_eq!(streaming_output_length(0, 3, 2), 0);
    assert_eq!(streaming_output_length(1, 3, 2), 0);
    assert_eq!(streaming_output_length(25, 3, 2), 12);
    assert_eq!(streaming_output_length(32, 3, 2), 16);
}

#[test]
fn head_major_layout_groups_frames_by_head() {
    // Two frames, two heads of two dims, token-major.
    let values = [1, 2, 3, 4, 5, 6, 7, 8, 99];
    assert_eq!(
        token_major_to_head_major(&values, 2, 2, 2),
        vec![1, 2, 5, 6, 3, 4, 7, 8, 0]
    );
}

#[test]
fn mask_zeroes_frames_past_the_valid_count() {
    let mut tensor = Tensor4 {
        shape: [1, 3, 2, 1],
        values: vec![1, 2, 3, 4, 5, 6],
    };
    mask_invalid_time(&mut tensor, 2);
    assert_eq!(tensor.values, vec![1, 2, 3, 4, 0, 0]);
    mask_invalid_time(&mut tensor, 9);
    assert_eq!(tensor.values, vec![1, 2, 3, 4, 0, 0]);
}

#[test]
fn relative_shift_and_flatten_reject_bad_shapes() {
    assert!(relative_shift(&[1.0f32; 9], 2, 5).is_err());
    assert!(relative_shift::<f32>(&[], 0, 5).is_err());
    let input = Tensor4 {
        shape: [1, 1, 2, 3],
        values: vec![1.0f32; 5],
    };
    assert!(channel_frequency_flatten(&input).is_err());
}

#[test]
fn unsupported_lookahead_reports_the_supported_set() {
    let config = EncoderConfig::nemotron_3_5();
    assert!(matches!(
        StreamingChunkPlan::new(&config, 5),
        Err(ModelError::UnsupportedLookahead { requested: 5, supported: [3, 0, 6, 13] })
    ));
    assert!(matches!(
        StreamingChunkPlan::new(&config, usize::MAX),
        Err(ModelError::UnsupportedLookahead { requested: usize::MAX, .. })
    ));
    assert!(StreamingChunkPlan::new(&config, 1).is_err());
    let thirteen = StreamingChunkPlan::new(&config, 13).unwrap();
    assert_eq!(thirteen.first_audio_samples(), 8 * 13 * 160 + 200);
    assert_eq!(thirteen.latency_ms(), 14 * 80);
}

#[test]
fn prompt_codes_round_trip() {
    let prompt = LanguagePrompt::from_code("zh-TW").unwrap();
    assert_eq!(prompt.code(), "zh-TW");
    for (code, id) in LanguagePrompt::supported_codes() {
        let prompt = LanguagePrompt::from_code(code).unwrap();
        assert_eq!((prompt.code(), prompt.id()), (code, id));
    }
    assert!(matches!(
        LanguagePrompt::from_code("xx"),
        Err(ModelError::UnsupportedLanguage(code)) if code == "xx"
    ));
}
