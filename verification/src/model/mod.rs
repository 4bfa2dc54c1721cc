//! Model-side control logic: streaming window arithmetic, caches, prompts,
//! greedy RNNT control and the audio chunk scheduler.
mod cache;
mod encoder;
mod prompt;
mod rnnt;
mod stream;
mod tensor;

pub use cache::{
    AttentionKvCache, AttentionWindow, CausalConv1dCache, CausalConv2dCache, head_window, head_windows,
    is_default, lemma_cache_updates_compose, newest_frames,
};
pub use encoder::{
    EncoderConfig, ModelError, StreamingChunkPlan, SubsamplingCache, chunk_allowed,
    chunked_attention_mask, plan_fits, supported_plans_fit, stage_channels, stage_frequency, subsampling_fits,
};
pub use prompt::{LanguagePrompt, alias_before, lemma_prompt_aliases_distinct, prompt_table};
pub use rnnt::{
    GreedyProgress, GreedyRnnt, TimedToken, greedy_answers_complete, greedy_run, greedy_step,
    lemma_greedy_symbols_per_frame, lemma_greedy_tokens_in_frame_order, offset_frames,
    prediction_reuses_output,
    tokens_on_frame,
};
pub use stream::{
    AudioChunk, AudioChunkScheduler, WindowView, lemma_push_blocks_compose, next_base, padded_slice, pushed_windows, window_views, padded_window, window_fits, window_mel, window_samples, window_start};
pub use tensor::{
    Tensor3, Tensor4, channel_frequency_flatten, frequency_padded_entry, oihw_to_ohwi, pad_frequency,
    transpose_blocks, mask_invalid_time, relative_padded_entry, relative_shift,
    streaming_output_length, token_major_to_head_major,
};
