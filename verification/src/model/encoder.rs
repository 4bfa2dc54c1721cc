//! Encoder configuration, the exact framing of cache-aware streaming
//! windows, and the offline chunked attention mask.
use vstd::prelude::*;

use super::cache::{CausalConv2dCache, is_default};

verus! {

/// Errors produced by model layers, cache management and configuration.
#[derive(Debug, Clone, PartialEq, Eq)]
pub enum ModelError {
    /// Input, weight, or cache dimensions are inconsistent.
    InvalidShape(String),
    /// A right-context size the checkpoint was not trained for.
    UnsupportedLookahead { requested: usize, supported: [usize; 4] },
    /// A language code absent from the checkpoint's prompt dictionary.
    UnsupportedLanguage(String),
}

/// Encoder dimensions and streaming constants from the published checkpoint.
#[derive(Debug, Clone, Copy, PartialEq, Eq)]
pub struct EncoderConfig {
    pub hidden_size: usize,
    pub intermediate_size: usize,
    pub num_layers: usize,
    pub num_heads: usize,
    pub conv_kernel_size: usize,
    pub subsampling_factor: usize,
    pub sliding_window: usize,
    pub supported_lookahead: [usize; 4],
    pub default_lookahead: usize,
}

impl EncoderConfig {
    /// Exact architecture settings of the published checkpoint.
    pub fn nemotron_3_5() -> (c: Self)
        ensures
            c.hidden_size == 1024,
            c.intermediate_size == 4096,
            c.num_layers == 24,
            c.num_heads == 8,
            c.conv_kernel_size == 9,
            c.subsampling_factor == 8,
            c.sliding_window == 57,
            c.supported_lookahead@ == seq![3usize, 0, 6, 13],
            c.default_lookahead == 3,
            supported_plans_fit(c),
    {
        let c = EncoderConfig {
            hidden_size: 1024,
            intermediate_size: 4096,
            num_layers: 24,
            num_heads: 8,
            conv_kernel_size: 9,
            subsampling_factor: 8,
            sliding_window: 57,
            supported_lookahead: [3, 0, 6, 13],
            default_lookahead: 3,
        };
        assert(c.supported_lookahead@ =~= seq![3usize, 0, 6, 13]);
        c
    }
}

/// Every window size of a plan with this factor and lookahead fits in `usize`.
pub open spec fn plan_fits(subsampling_factor: usize, lookahead: usize) -> bool {
    &&& subsampling_factor * (lookahead + 1) * 160 + 400 <= usize::MAX
    &&& (lookahead + 1) * 80 <= usize::MAX
}

/// Every lookahead that `config` supports gives a plan whose window sizes
/// fit in `usize`.
pub open spec fn supported_plans_fit(config: EncoderConfig) -> bool {
    forall|i: int| 0 <= i < 4 ==> plan_fits(config.subsampling_factor, #[trigger] config.supported_lookahead@[i])
}

/// Exact audio/feature framing for one cache-aware streaming session.
#[derive(Debug, Clone, Copy, PartialEq, Eq)]
pub struct StreamingChunkPlan {
    lookahead: usize,
    subsampling_factor: usize,
}

impl StreamingChunkPlan {
    #[verifier::type_invariant]
    spec fn wf(self) -> bool {
        plan_fits(self.subsampling_factor, self.lookahead)
    }

    /// Right-context frames of this plan.
    pub closed spec fn lookahead_view(self) -> usize {
        self.lookahead
    }

    /// Mel frames per subsampled encoder frame.
    pub closed spec fn factor_view(self) -> usize {
        self.subsampling_factor
    }

    /// Plans windows for `lookahead` if the checkpoint supports it.
    pub fn new(config: &EncoderConfig, lookahead: usize) -> (r: Result<Self, ModelError>)
        requires
            supported_plans_fit(*config),
        ensures
            match r {
                Ok(plan) => {
                    &&& config.supported_lookahead@.contains(lookahead)
                    &&& plan.lookahead_view() == lookahead
                    &&& plan.factor_view() == config.subsampling_factor
                },
                Err(e) => {
                    &&& !config.supported_lookahead@.contains(lookahead)
                    &&& e == ModelError::UnsupportedLookahead {
                        requested: lookahead,
                        supported: config.supported_lookahead,
                    }
                },
            },
    {
        let mut i: usize = 0;
        while i < 4
            invariant
                i <= 4,
                supported_plans_fit(*config),
                forall|j: int| 0 <= j < i ==> config.supported_lookahead@[j] != lookahead,
            decreases 4 - i,
        {
            if config.supported_lookahead[i] == lookahead {
                assert(config.supported_lookahead@[i as int] == lookahead);
                return Ok(StreamingChunkPlan { lookahead, subsampling_factor: config.subsampling_factor });
            }
            i += 1;
        }
        Err(ModelError::UnsupportedLookahead { requested: lookahead, supported: config.supported_lookahead })
    }

    /// Mel frames required for the centered first chunk.
    pub fn first_mel_frames(&self) -> (r: usize)
        ensures
            r == 1 + self.factor_view() * self.lookahead_view(),
    {
        proof {
            use_type_invariant(self);
            assert(self.subsampling_factor * self.lookahead <= self.subsampling_factor * (self.lookahead + 1))
                by (nonlinear_arith);
        }
        1 + self.subsampling_factor * self.lookahead
    }

    /// Mel frames required for each subsequent uncentered chunk.
    pub fn subsequent_mel_frames(&self) -> (r: usize)
        ensures
            r == self.factor_view() * (self.lookahead_view() + 1),
    {
        proof {
            use_type_invariant(self);
            assert(self.subsampling_factor * (self.lookahead + 1) <= self.subsampling_factor * (self.lookahead + 1) * 160)
                by (nonlinear_arith);
        }
        self.subsampling_factor * (self.lookahead + 1)
    }

    /// PCM samples at 16 kHz required for the centered first chunk.
    pub fn first_audio_samples(&self) -> (r: usize)
        ensures
            r == self.factor_view() * self.lookahead_view() * 160 + 200,
    {
        proof {
            use_type_invariant(self);
            assert(self.subsampling_factor * self.lookahead * 160 <= self.subsampling_factor * (self.lookahead + 1) * 160)
                by (nonlinear_arith);
        }
        (self.first_mel_frames() - 1) * 160 + 200
    }

    /// PCM samples at 16 kHz required for each uncentered chunk.
    pub fn subsequent_audio_samples(&self) -> (r: usize)
        ensures
            r == self.factor_view() * (self.lookahead_view() + 1) * 160 + 400,
    {
        proof { use_type_invariant(self); }
        self.subsequent_mel_frames() * 160 + 400
    }

    /// Frames passed through every FastConformer block per call.
    pub fn encoder_frames_per_chunk(&self) -> (r: usize)
        ensures
            r == self.lookahead_view() + 1,
    {
        proof { use_type_invariant(self); }
        self.lookahead + 1
    }

    /// New frames that become safe to emit after the lookahead is supplied.
    pub fn emitted_frames_per_chunk(&self) -> (r: usize)
        ensures
            r == 1,
    {
        1
    }

    /// Algorithmic streaming latency at 80 ms per subsampled frame.
    pub fn latency_ms(&self) -> (r: usize)
        ensures
            r == (self.lookahead_view() + 1) * 80,
    {
        proof { use_type_invariant(self); }
        (self.lookahead + 1) * 80
    }
}

/// Whether `query` may attend to `key` under the chunk-limited mask: the
/// key's chunk is the query's chunk or one of the `left_context /
/// (right_context + 1)` chunks before it.
pub open spec fn chunk_allowed(query: int, key: int, left_context: int, right_context: int) -> bool {
    let chunk_size = right_context + 1;
    let query_chunk = query / chunk_size;
    let key_chunk = key / chunk_size;
    query_chunk >= key_chunk && query_chunk - key_chunk <= left_context / chunk_size
}

/// Offline form of the checkpoint's chunk-limited bidirectional attention mask,
/// in row-major `[query, key]` order.
pub fn chunked_attention_mask(sequence_length: usize, left_context: usize, right_context: usize) -> (mask: Vec<bool>)
    requires
        sequence_length * sequence_length <= usize::MAX,
        right_context < usize::MAX,
    ensures
        mask@.len() == sequence_length * sequence_length,
        forall|query: int, key: int|
            0 <= query < sequence_length && 0 <= key < sequence_length ==> #[trigger] mask@[query * sequence_length + key]
                == chunk_allowed(query, key, left_context as int, right_context as int),
{
    let n = sequence_length;
    let chunk_size = right_context + 1;
    let left_context_chunks = left_context / chunk_size;
    let mut mask: Vec<bool> = Vec::new();
    let mut query: usize = 0;
    while query < n
        invariant
            n == sequence_length,
            n * n <= usize::MAX,
            chunk_size == right_context + 1,
            left_context_chunks == left_context / chunk_size,
            query <= n,
            mask@.len() == query * n,
            forall|q: int, k: int|
                0 <= q < query && 0 <= k < n ==> #[trigger] mask@[q * n + k]
                    == chunk_allowed(q, k, left_context as int, right_context as int),
        decreases n - query,
    {
        let query_chunk = query / chunk_size;
        let mut key: usize = 0;
        let ghost row_start = mask@.len();
        while key < n
            invariant
                n == sequence_length,
                chunk_size == right_context + 1,
                left_context_chunks == left_context / chunk_size,
                query < n,
                query_chunk == query / chunk_size,
                key <= n,
                row_start == query * n,
                mask@.len() == row_start + key,
                forall|q: int, k: int|
                    0 <= q < query && 0 <= k < n ==> #[trigger] mask@[q * n + k]
                        == chunk_allowed(q, k, left_context as int, right_context as int),
                forall|k: int|
                    0 <= k < key ==> #[trigger] mask@[row_start + k]
                        == chunk_allowed(query as int, k, left_context as int, right_context as int),
            decreases n - key,
        {
            let key_chunk = key / chunk_size;
            let allowed = query_chunk >= key_chunk && query_chunk - key_chunk <= left_context_chunks;
            let ghost before = mask@;
            mask.push(allowed);
            assert forall|q: int, k: int|
                0 <= q < query && 0 <= k < n implies #[trigger] mask@[q * n + k]
                    == chunk_allowed(q, k, left_context as int, right_context as int) by {
                assert(q * n + k < query * n) by (nonlinear_arith)
                    requires 0 <= q < query, 0 <= k < n;
                assert(mask@[q * n + k] == before[q * n + k]);
            }
            key += 1;
        }
        assert forall|q: int, k: int|
            0 <= q < query + 1 && 0 <= k < n implies #[trigger] mask@[q * n + k]
                == chunk_allowed(q, k, left_context as int, right_context as int) by {
            if q == query {
                assert(mask@[row_start + k] == chunk_allowed(query as int, k, left_context as int, right_context as int));
            }
        }
        assert((query + 1) * n == query * n + n) by (nonlinear_arith);
        query += 1;
    }
    mask
}

/// Per-layer time caches for factor-N causal Conv2D subsampling.
#[derive(Debug, Clone)]
pub struct SubsamplingCache<T: Copy> {
    pub layers: Vec<CausalConv2dCache<T>>,
}

/// Frequency bins entering subsampling stage `stage`: each stride-`stride`
/// causal stage maps `f` bins to `(f + stride - 2) / stride + 1`.
pub open spec fn stage_frequency(input: nat, stride: nat, stage: nat) -> nat
    decreases stage,
{
    if stage == 0 {
        input
    } else {
        let f = stage_frequency(input, stride, (stage - 1) as nat);
        ((f + stride - 2) / (stride as int) + 1) as nat
    }
}

/// Channels entering subsampling stage `stage`: one for the mel input, then
/// `channels`.
pub open spec fn stage_channels(channels: nat, stage: nat) -> nat {
    if stage == 0 { 1 } else { channels }
}

/// Every stage's cache size and frequency update fits in `usize`.
pub open spec fn subsampling_fits(input: nat, channels: nat, kernel_size: nat, stride: nat, stages: nat) -> bool {
    forall|i: nat| i < stages ==> {
        let f = #[trigger] stage_frequency(input, stride, i);
        &&& f * stage_channels(channels, i) <= usize::MAX
        &&& (kernel_size - 1) * (f * stage_channels(channels, i)) <= usize::MAX
        &&& f + kernel_size + stride - 2 <= usize::MAX
    }
}

impl<T: Copy + Default> SubsamplingCache<T> {
    /// Zeroed caches for `stages` causal stages of a `kernel_size` x
    /// `kernel_size` convolution with time stride `stride`: each keeps
    /// `kernel_size - stride` frames and starts with `kernel_size - 1` zero
    /// frames, the causal padding of the first chunk.
    pub fn new(input_frequency_bins: usize, channels: usize, kernel_size: usize, stride: usize, stages: usize) -> (c: Self)
        requires
            1 <= stride <= kernel_size,
            stages > 0 ==> input_frequency_bins + stride >= 2,
            subsampling_fits(input_frequency_bins as nat, channels as nat, kernel_size as nat, stride as nat, stages as nat),
        ensures
            c.layers@.len() == stages,
            forall|i: int| 0 <= i < stages ==> {
                let layer = #[trigger] c.layers@[i];
                let f = stage_frequency(input_frequency_bins as nat, stride as nat, i as nat);
                &&& layer.frequency_view() == f
                &&& layer.channels_view() == stage_channels(channels as nat, i as nat)
                &&& layer.left_frames_view() == kernel_size - stride
                &&& layer.values_view().len() == (kernel_size - 1) * (f * stage_channels(channels as nat, i as nat))
                &&& forall|j: int| 0 <= j < layer.values_view().len() ==> is_default(#[trigger] layer.values_view()[j])
            },
    {
        let left_frames = kernel_size - stride;
        let initial_extra_frames = kernel_size - 1 - left_frames;
        let mut frequency = input_frequency_bins;
        let mut layers: Vec<CausalConv2dCache<T>> = Vec::new();
        let mut stage: usize = 0;
        while stage < stages
            invariant
                1 <= stride <= kernel_size,
                left_frames == kernel_size - stride,
                initial_extra_frames == stride - 1,
                stage <= stages,
                stages > 0 ==> input_frequency_bins + stride >= 2,
                subsampling_fits(input_frequency_bins as nat, channels as nat, kernel_size as nat, stride as nat, stages as nat),
                frequency == stage_frequency(input_frequency_bins as nat, stride as nat, stage as nat),
                stage > 0 ==> frequency >= 1,
                layers@.len() == stage,
                forall|i: int| 0 <= i < stage ==> {
                    let layer = #[trigger] layers@[i];
                    let f = stage_frequency(input_frequency_bins as nat, stride as nat, i as nat);
                    &&& layer.frequency_view() == f
                    &&& layer.channels_view() == stage_channels(channels as nat, i as nat)
                    &&& layer.left_frames_view() == kernel_size - stride
                    &&& layer.values_view().len() == (kernel_size - 1) * (f * stage_channels(channels as nat, i as nat))
                    &&& forall|j: int| 0 <= j < layer.values_view().len() ==> is_default(#[trigger] layer.values_view()[j])
                },
            decreases stages - stage,
        {
            let ghost f = stage_frequency(input_frequency_bins as nat, stride as nat, stage as nat);
            assert(f * stage_channels(channels as nat, stage as nat) <= usize::MAX);
            let stage_channel_count = if stage == 0 { 1 } else { channels };
            let layer = CausalConv2dCache::new(frequency, stage_channel_count, left_frames, initial_extra_frames);
            layers.push(layer);
            frequency = (frequency + (kernel_size - 1) + (stride - 1) - kernel_size) / stride + 1;
            proof {
                assert(frequency == stage_frequency(input_frequency_bins as nat, stride as nat, (stage + 1) as nat));
            }
            stage += 1;
        }
        SubsamplingCache { layers }
    }
}

} // verus!
