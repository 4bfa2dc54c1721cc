//! Buffering of arbitrary microphone blocks into the exact audio windows of
//! cache-aware streaming.
use vstd::prelude::*;

use super::cache::is_default;
use crate::seqs::{copy_range, extend_copied};
use super::encoder::{ModelError, StreamingChunkPlan};

verus! {

/// One exact audio window ready for the log-mel frontend.
#[derive(Debug, Clone, PartialEq)]
pub struct AudioChunk<T> {
    pub samples: Vec<T>,
    pub center: bool,
    pub mel_frames: usize,
}

/// First sample of the uncentered window whose first mel frame is `mel`: the
/// frame hop is 160 samples and the analysis window reaches 256 samples back.
pub open spec fn window_start(mel: int) -> int {
    mel * 160 - 256
}

/// First mel frame of the `j`-th uncentered window after `base`.
pub open spec fn window_mel(base: int, j: int, step: int) -> int {
    base + j * step
}

/// Whether the `j`-th uncentered window after `base` lies inside `len` samples.
pub open spec fn window_fits(len: int, base: int, j: int, step: int, length: int) -> bool {
    window_start(window_mel(base, j, step)) + length <= len
}

/// The samples of the `j`-th uncentered window after `base`.
pub open spec fn window_samples<T>(audio: Seq<T>, base: int, j: int, step: int, length: int) -> Seq<T> {
    audio.subrange(window_start(window_mel(base, j, step)), window_start(window_mel(base, j, step)) + length)
}

/// `length` samples of `audio` from `start` on, default (zero) past its end.
pub open spec fn padded_window<T: Default>(audio: Seq<T>, start: int, length: int, out: Seq<T>) -> bool {
    &&& out.len() == length
    &&& forall|i: int| 0 <= i < length ==> if start + i < audio.len() {
        #[trigger] out[i] == audio[start + i]
    } else {
        is_default(out[i])
    }
}

/// Returns `length` samples starting at `start`, zero-padded past the end.
pub fn padded_slice<T: Copy + Default>(audio: &[T], start: usize, length: usize) -> (r: Vec<T>)
    ensures
        padded_window(audio@, start as int, length as int, r@),
{
    let mut output: Vec<T> = Vec::new();
    let mut i: usize = 0;
    while i < length
        invariant
            i <= length,
            output@.len() == i,
            forall|k: int| 0 <= k < i ==> if start + k < audio@.len() {
                #[trigger] output@[k] == audio@[start + k]
            } else {
                is_default(output@[k])
            },
        decreases length - i,
    {
        if start < audio.len() && i < audio.len() - start {
            output.push(audio[start + i]);
        } else {
            output.push(T::default());
        }
        i += 1;
    }
    output
}

/// What one emitted window holds.
pub struct WindowView<T> {
    pub samples: Seq<T>,
    pub center: bool,
    pub mel_frames: nat,
}

/// The views of emitted chunks.
pub open spec fn window_views<T>(chunks: Seq<AudioChunk<T>>) -> Seq<WindowView<T>> {
    chunks.map_values(|c: AudioChunk<T>| WindowView { samples: c.samples@, center: c.center, mel_frames: c.mel_frames as nat })
}

/// First mel frame of the next uncentered window: `mel` once the centered
/// window was emitted, else the frame right after that window.
pub open spec fn next_base(plan: StreamingChunkPlan, first: bool, mel: nat) -> int {
    if first { mel as int } else { 1 + plan.factor_view() * plan.lookahead_view() }
}

/// A successful push that leaves `audio` buffered, with the centered first
/// window emitted before it or not (`first0`) and the next uncentered
/// window at mel frame `base`, emits `windows` and leaves `audio1`,
/// `first1`, `mel1`: the centered first window once the audio covers it,
/// then every uncentered window that lies inside the audio, in order.
pub open spec fn pushed_windows<T>(
    plan: StreamingChunkPlan,
    audio: Seq<T>,
    first0: bool,
    base: int,
    windows: Seq<WindowView<T>>,
    audio1: Seq<T>,
    first1: bool,
    mel1: nat,
) -> bool {
    let first_length = plan.factor_view() * plan.lookahead_view() * 160 + 200;
    let first_mel = 1 + plan.factor_view() * plan.lookahead_view();
    let step = plan.factor_view() * (plan.lookahead_view() + 1);
    let length = step * 160 + 400;
    let starts_first = !first0 && audio.len() >= first_length;
    let first_after = first0 || audio.len() >= first_length;
    let offset: int = if starts_first { 1 } else { 0 };
    let n = windows.len() - offset;
    &&& first_after ==> window_start(base) >= 0
    &&& audio1 == audio
    &&& first1 == first_after
    &&& n >= 0
    &&& !first_after ==> windows.len() == 0 && mel1 == 0
    &&& first_after ==> {
        &&& forall|j: int| 0 <= j < n ==> #[trigger] window_fits(audio.len() as int, base, j, step, length)
        &&& !window_fits(audio.len() as int, base, n, step, length)
        &&& mel1 == window_mel(base, n, step)
    }
    &&& starts_first ==> windows[0] == WindowView { samples: audio.take(first_length), center: true, mel_frames: first_mel as nat }
    &&& forall|j: int| offset <= j < windows.len() ==> #[trigger] windows[j] == WindowView {
        samples: window_samples(audio, base, j - offset, step, length),
        center: false,
        mel_frames: step as nat,
    }
}

/// Where the `k`-th window after the `n`-th one starts is where the
/// `(n + k)`-th one starts.
proof fn lemma_window_mel_shift(base: int, n: int, k: int, step: int)
    ensures
        window_mel(window_mel(base, n, step), k, step) == window_mel(base, n + k, step),
{
    assert(base + n * step + k * step == base + (n + k) * step) by (nonlinear_arith);
}

/// Block boundaries never matter: pushing `a` and then `b` emits exactly
/// the windows of pushing `a + b` at once, in the same order, and leaves
/// the same state.
pub proof fn lemma_push_blocks_compose<T>(
    plan: StreamingChunkPlan,
    audio0: Seq<T>,
    first0: bool,
    mel0: nat,
    a: Seq<T>,
    b: Seq<T>,
    windows1: Seq<WindowView<T>>,
    audio1: Seq<T>,
    first1: bool,
    mel1: nat,
    windows2: Seq<WindowView<T>>,
    audio2: Seq<T>,
    first2: bool,
    mel2: nat,
)
    requires
        pushed_windows(plan, audio0 + a, first0, next_base(plan, first0, mel0), windows1, audio1, first1, mel1),
        pushed_windows(plan, audio1 + b, first1, next_base(plan, first1, mel1), windows2, audio2, first2, mel2),
    ensures
        pushed_windows(plan, audio0 + (a + b), first0, next_base(plan, first0, mel0), windows1 + windows2, audio2, first2,
            mel2),
{
    let first_length = plan.factor_view() * plan.lookahead_view() * 160 + 200;
    let first_mel = 1 + plan.factor_view() * plan.lookahead_view();
    let step = plan.factor_view() * (plan.lookahead_view() + 1);
    let length = step * 160 + 400;
    let whole = audio0 + (a + b);
    let second = audio1 + b;
    assert(whole =~= second);
    let windows = windows1 + windows2;
    if !first0 && audio1.len() < first_length {
        assert(windows1.len() == 0);
        assert(windows =~= windows2);
        assert(!first1);
        assert(next_base(plan, first0, mel0) == next_base(plan, first1, mel1));
        return;
    }
    let base = next_base(plan, first0, mel0);
    let offset: int = if first0 { 0 } else { 1 };
    let n1 = windows1.len() - offset;
    let n2 = windows2.len() as int;
    let first_audio = audio0 + a;
    assert(first1);
    assert(audio1 == first_audio);
    assert(mel1 == window_mel(base, n1, step));
    let base2 = next_base(plan, first1, mel1);
    assert(base2 == mel1);
    let starts2 = !first1 && second.len() >= first_length;
    assert(!starts2);
    assert(whole.len() >= audio1.len());
    assert forall|j: int| 0 <= j < n1 + n2 implies #[trigger] window_fits(whole.len() as int, base, j, step, length) by {
        if j >= n1 {
            lemma_window_mel_shift(base, n1, j - n1, step);
            assert(window_fits(second.len() as int, base2, j - n1, step, length));
        } else {
            assert(window_fits(first_audio.len() as int, base, j, step, length));
        }
    }
    assert(!window_fits(second.len() as int, base2, n2, step, length));
    lemma_window_mel_shift(base, n1, n2, step);
    assert(!window_fits(whole.len() as int, base, n1 + n2, step, length));
    assert(mel2 == window_mel(base2, n2, step));
    assert(mel2 == window_mel(base, n1 + n2, step));
    if !first0 {
        assert(windows[0] == windows1[0]);
        assert(windows1[0] == (WindowView { samples: first_audio.take(first_length), center: true, mel_frames: first_mel as nat }));
        assert(first_audio.take(first_length) =~= whole.take(first_length));
    }
    assert forall|i: int| offset <= i < windows.len() implies #[trigger] windows[i] == (WindowView {
        samples: window_samples(whole, base, i - offset, step, length),
        center: false,
        mel_frames: step as nat,
    }) by {
        let j = i - offset;
        if j < n1 {
            assert(windows[i] == windows1[i]);
            assert(windows1[i] == (WindowView {
                samples: window_samples(first_audio, base, j, step, length),
                center: false,
                mel_frames: step as nat,
            }));
            assert(window_fits(first_audio.len() as int, base, j, step, length));
            assert(window_samples(first_audio, base, j, step, length) =~= window_samples(whole, base, j, step, length));
        } else {
            assert(windows[i] == windows2[j - n1]);
            assert(windows2[j - n1] == (WindowView {
                samples: window_samples(second, base2, j - n1 - 0, step, length),
                center: false,
                mel_frames: step as nat,
            }));
            lemma_window_mel_shift(base, n1, j - n1, step);
            assert(window_samples(second, base2, j - n1, step, length) == window_samples(whole, base, j, step, length));
        }
    }
}

/// From a fresh scheduler (after `new` or `reset`), the windows emitted
/// over all the audio pushed since are: none while less than the first
/// window is buffered; else the centered first window `audio[..first]`,
/// then for every `k >= 1` whose window lies inside the audio the
/// uncentered window starting at sample `(first_mel + (k - 1) * step) * 160 - 256`.
/// The scheduler is left with the first window emitted exactly when there
/// was one, and the next uncentered window right after the last one.
/// With `lemma_push_blocks_compose`, this holds of any sequence of pushes.
pub proof fn lemma_windows_since_reset<T>(
    plan: StreamingChunkPlan,
    audio: Seq<T>,
    windows: Seq<WindowView<T>>,
    audio1: Seq<T>,
    first1: bool,
    mel1: nat,
)
    requires
        pushed_windows(plan, Seq::<T>::empty() + audio, false, next_base(plan, false, 0), windows, audio1, first1, mel1),
    ensures
        ({
            let first_length = plan.factor_view() * plan.lookahead_view() * 160 + 200;
            let first_mel = 1 + plan.factor_view() * plan.lookahead_view();
            let step = plan.factor_view() * (plan.lookahead_view() + 1);
            let length = step * 160 + 400;
            let n = windows.len() as int;
            &&& audio1 == audio
            &&& (windows.len() == 0 <==> audio.len() < first_length)
            &&& first1 == (audio.len() >= first_length)
            &&& n > 0 ==> windows[0] == (WindowView { samples: audio.take(first_length), center: true, mel_frames: first_mel as nat })
            &&& forall|k: int| 1 <= k < n ==> {
                &&& (first_mel + (k - 1) * step) * 160 - 256 >= 0
                &&& #[trigger] windows[k] == (WindowView {
                    samples: audio.subrange(
                        (first_mel + (k - 1) * step) * 160 - 256,
                        (first_mel + (k - 1) * step) * 160 - 256 + length,
                    ),
                    center: false,
                    mel_frames: step as nat,
                })
            }
            &&& n > 0 ==> (first_mel + (n - 1) * step) * 160 - 256 + length > audio.len()
            &&& n > 0 ==> mel1 == first_mel + (n - 1) * step
            &&& n == 0 ==> mel1 == 0
        }),
{
    let first_mel = 1 + plan.factor_view() * plan.lookahead_view();
    let step = plan.factor_view() * (plan.lookahead_view() + 1);
    let length = step * 160 + 400;
    let whole = Seq::<T>::empty() + audio;
    assert(whole =~= audio);
    let n = windows.len() as int;
    if n > 0 {
        let base = next_base(plan, false, 0);
        assert(base == first_mel);
        assert forall|k: int| 1 <= k < n implies {
            &&& (first_mel + (k - 1) * step) * 160 - 256 >= 0
            &&& #[trigger] windows[k] == (WindowView {
                samples: audio.subrange(
                    (first_mel + (k - 1) * step) * 160 - 256,
                    (first_mel + (k - 1) * step) * 160 - 256 + length,
                ),
                center: false,
                mel_frames: step as nat,
            })
        } by {
            assert(window_fits(whole.len() as int, base, k - 1, step, length));
            assert(windows[k] == (WindowView {
                samples: window_samples(whole, base, k - 1, step, length),
                center: false,
                mel_frames: step as nat,
            }));
        }
        assert(!window_fits(whole.len() as int, base, n - 1, step, length));
    }
}

/// Buffers arbitrary microphone blocks into exact cache-aware model windows.
#[derive(Debug)]
pub struct AudioChunkScheduler<T> {
    plan: StreamingChunkPlan,
    audio: Vec<T>,
    first_processed: bool,
    mel_frame_index: usize,
    finished: bool,
}

impl<T> AudioChunkScheduler<T> {
    #[verifier::type_invariant]
    spec fn wf(self) -> bool {
        &&& !self.first_processed ==> self.mel_frame_index == 0
        &&& self.first_processed && !self.finished ==> self.mel_frame_index * 160 <= self.audio@.len()
        &&& self.mel_frame_index >= 2 ==> self.plan.factor_view() >= 1
    }

    /// The framing this scheduler cuts windows for.
    pub closed spec fn plan_view(self) -> StreamingChunkPlan {
        self.plan
    }

    /// Buffered samples of the current utterance.
    pub closed spec fn audio_view(self) -> Seq<T> {
        self.audio@
    }

    /// Whether the centered first window has been emitted.
    pub closed spec fn first_processed_view(self) -> bool {
        self.first_processed
    }

    /// First mel frame of the next uncentered window.
    pub closed spec fn mel_frame_index_view(self) -> nat {
        self.mel_frame_index as nat
    }

    /// Whether `finish` has ended the utterance.
    pub closed spec fn finished_view(self) -> bool {
        self.finished
    }
}

impl<T: Copy + Default> AudioChunkScheduler<T> {
    /// An empty scheduler for `plan`.
    pub fn new(plan: StreamingChunkPlan) -> (s: Self)
        ensures
            s.plan_view() == plan,
            s.audio_view() == Seq::<T>::empty(),
            !s.first_processed_view(),
            s.mel_frame_index_view() == 0,
            !s.finished_view(),
    {
        AudioChunkScheduler { plan, audio: Vec::new(), first_processed: false, mel_frame_index: 0, finished: false }
    }

    /// Appends arbitrary 16 kHz samples and returns every newly complete
    /// window: the centered first window once `first_audio_samples` are
    /// buffered, then each uncentered window whose samples are all buffered.
    pub fn push(&mut self, samples: &[T]) -> (r: Result<Vec<AudioChunk<T>>, ModelError>)
        ensures
            final(self).plan_view() == old(self).plan_view(),
            match r {
                Ok(chunks) => {
                    &&& !old(self).finished_view()
                    &&& !final(self).finished_view()
                    &&& pushed_windows(
                        old(self).plan_view(),
                        old(self).audio_view() + samples@,
                        old(self).first_processed_view(),
                        next_base(old(self).plan_view(), old(self).first_processed_view(), old(self).mel_frame_index_view()),
                        window_views(chunks@),
                        final(self).audio_view(),
                        final(self).first_processed_view(),
                        final(self).mel_frame_index_view(),
                    )
                },
                Err(e) => {
                    let plan = old(self).plan_view();
                    let first_length = plan.factor_view() * plan.lookahead_view() * 160 + 200;
                    let first_mel = 1 + plan.factor_view() * plan.lookahead_view();
                    let audio = old(self).audio_view() + samples@;
                    let first_after = old(self).first_processed_view() || audio.len() >= first_length;
                    let base = if old(self).first_processed_view() { old(self).mel_frame_index_view() as int } else { first_mel };
                    &&& e is InvalidShape
                    &&& old(self).finished_view() ==> {
                        &&& final(self).audio_view() == old(self).audio_view()
                        &&& final(self).first_processed_view() == old(self).first_processed_view()
                        &&& final(self).mel_frame_index_view() == old(self).mel_frame_index_view()
                        &&& final(self).finished_view()
                    }
                    &&& !old(self).finished_view() ==> {
                        &&& first_after
                        &&& window_start(base) < 0
                        &&& final(self).audio_view() == audio
                        &&& final(self).first_processed_view()
                        &&& final(self).mel_frame_index_view() == base
                        &&& !final(self).finished_view()
                    }
                },
            },
    {
        proof { use_type_invariant(&*self); }
        if self.finished {
            return Err(ModelError::InvalidShape("streaming audio session is already finished".to_owned()));
        }
        let plan = self.plan;
        let first_length = plan.first_audio_samples();
        let first_mel = plan.first_mel_frames();
        let length = plan.subsequent_audio_samples();
        let step = plan.subsequent_mel_frames();
        let old_first = self.first_processed;
        let mut mel = self.mel_frame_index;
        self.finished = true;
        let mut audio: Vec<T> = Vec::new();
        std::mem::swap(&mut audio, &mut self.audio);
        extend_copied(&mut audio, samples);
        let ghost full = audio@;
        let mut chunks: Vec<AudioChunk<T>> = Vec::new();
        if !old_first {
            if audio.len() < first_length {
                *self = AudioChunkScheduler { plan, audio, first_processed: false, mel_frame_index: 0, finished: false };
                return Ok(chunks);
            }
            let first = copy_range(audio.as_slice(), 0, first_length);
            chunks.push(AudioChunk { samples: first, center: true, mel_frames: first_mel });
            mel = first_mel;
            proof {
                assert(mel * 160 <= full.len()) by (nonlinear_arith)
                    requires
                        mel == 1 + plan.factor_view() * plan.lookahead_view(),
                        first_length == plan.factor_view() * plan.lookahead_view() * 160 + 200,
                        full.len() >= first_length;
                if mel >= 2 {
                    assert(plan.factor_view() >= 1) by (nonlinear_arith)
                        requires mel == 1 + plan.factor_view() * plan.lookahead_view(), mel >= 2;
                }
            }
        }
        let ghost base: int = mel as int;
        let ghost offset: int = chunks@.len() as int;
        if mel < 2 {
            *self = AudioChunkScheduler { plan, audio, first_processed: true, mel_frame_index: mel, finished: false };
            return Err(ModelError::InvalidShape("streaming audio offset underflow".to_owned()));
        }
        proof {
            assert(step >= 1) by (nonlinear_arith)
                requires
                    plan.factor_view() >= 1,
                    step == plan.factor_view() * (plan.lookahead_view() + 1);
        }
        let total = audio.len();
        let ghost mut n: int = 0;
        loop
            invariant_except_break
                window_mel(base, n, step as int) == mel,
            invariant
                full == audio@,
                full.len() == total,
                full == old(self).audio_view() + samples@,
                plan == old(self).plan_view(),
                plan.factor_view() >= 1,
                mel >= 2,
                base >= 2,
                step >= 1,
                length == step * 160 + 400,
                0 <= n,
                mel >= base,
                mel * 160 <= full.len(),
                chunks@.len() == offset + n,
                offset == 0 || offset == 1,
                offset == 1 ==> {
                    &&& chunks@[0].samples@ == full.take(first_length as int)
                    &&& chunks@[0].center
                    &&& chunks@[0].mel_frames == first_mel
                },
                forall|j: int| 0 <= j < n ==> #[trigger] window_fits(full.len() as int, base, j, step as int, length as int),
                forall|j: int| 0 <= j < n ==> {
                    &&& (#[trigger] chunks@[offset + j]).samples@ == window_samples(full, base, j, step as int, length as int)
                    &&& !chunks@[offset + j].center
                    &&& chunks@[offset + j].mel_frames == step
                },
            ensures
                window_mel(base, n, step as int) == mel,
                !window_fits(full.len() as int, base, n, step as int, length as int),
            decreases full.len() - mel * 160,
        {
            let start = mel * 160 - 256;
            if audio.len() - start < length {
                break;
            }
            let window = copy_range(audio.as_slice(), start, start + length);
            let ghost before = chunks@;
            chunks.push(AudioChunk { samples: window, center: false, mel_frames: step });
            proof {
                assert(window_fits(full.len() as int, base, n, step as int, length as int));
                assert(chunks@[offset + n].samples@ == window_samples(full, base, n, step as int, length as int));
                assert forall|j: int| 0 <= j < n + 1 implies {
                    &&& (#[trigger] chunks@[offset + j]).samples@ == window_samples(full, base, j, step as int, length as int)
                    &&& !chunks@[offset + j].center
                    &&& chunks@[offset + j].mel_frames == step
                } by {
                    if j < n {
                        assert(chunks@[offset + j] == before[offset + j]);
                    }
                }
                if offset == 1 {
                    assert(chunks@[0] == before[0]);
                }
                assert(window_mel(base, n + 1, step as int) == window_mel(base, n, step as int) + step) by (nonlinear_arith);
                n = n + 1;
                assert((mel + step) * 160 <= full.len()) by (nonlinear_arith)
                    requires
                        start == mel * 160 - 256,
                        start + length <= full.len(),
                        length == step * 160 + 400;
            }
            mel = mel + step;
        }
        proof {
            let views = window_views(chunks@);
            assert forall|i: int| offset <= i < views.len() implies #[trigger] views[i] == (WindowView {
                samples: window_samples(full, base, i - offset, step as int, length as int),
                center: false,
                mel_frames: step as nat,
            }) by {
                assert(chunks@[offset + (i - offset)] == chunks@[i]);
            }
        }
        *self = AudioChunkScheduler { plan, audio, first_processed: true, mel_frame_index: mel, finished: false };
        Ok(chunks)
    }

    /// Ends the utterance: pads and returns the final incomplete window, if
    /// the utterance is non-empty and the window starts inside the audio.
    pub fn finish(&mut self) -> (r: Result<Option<AudioChunk<T>>, ModelError>)
        ensures
            final(self).plan_view() == old(self).plan_view(),
            final(self).audio_view() == old(self).audio_view(),
            final(self).finished_view(),
            ({
                let plan = old(self).plan_view();
                let first_length = plan.factor_view() * plan.lookahead_view() * 160 + 200;
                let first_mel = 1 + plan.factor_view() * plan.lookahead_view();
                let step = plan.factor_view() * (plan.lookahead_view() + 1);
                let length = step * 160 + 400;
                let audio = old(self).audio_view();
                let mel = old(self).mel_frame_index_view() as int;
                match r {
                    Err(e) => {
                        &&& e is InvalidShape
                        &&& final(self).first_processed_view() == old(self).first_processed_view()
                        &&& final(self).mel_frame_index_view() == old(self).mel_frame_index_view()
                        &&& (old(self).finished_view() || (audio.len() > 0 && old(self).first_processed_view()
                            && window_start(mel) < 0))
                    },
                    Ok(out) => {
                        &&& !old(self).finished_view()
                        &&& audio.len() == 0 ==> out is None && final(self).first_processed_view()
                            == old(self).first_processed_view() && final(self).mel_frame_index_view()
                            == old(self).mel_frame_index_view()
                        &&& audio.len() > 0 && !old(self).first_processed_view() ==> {
                            &&& out matches Some(c) && padded_window(audio, 0, first_length, c.samples@) && c.center
                                && c.mel_frames == first_mel
                            &&& final(self).first_processed_view()
                            &&& final(self).mel_frame_index_view() == first_mel
                        }
                        &&& audio.len() > 0 && old(self).first_processed_view() ==> {
                            &&& window_start(mel) >= 0
                            &&& final(self).first_processed_view()
                            &&& window_start(mel) >= audio.len() ==> out is None
                                && final(self).mel_frame_index_view() == mel
                            &&& window_start(mel) < audio.len() ==> {
                                &&& out matches Some(c) && padded_window(audio, window_start(mel), length, c.samples@)
                                    && !c.center && c.mel_frames == step
                                &&& final(self).mel_frame_index_view() == mel + step
                            }
                        }
                    },
                }
            }),
    {
        proof { use_type_invariant(&*self); }
        if self.finished {
            return Err(ModelError::InvalidShape("streaming audio session is already finished".to_owned()));
        }
        let plan = self.plan;
        let ghost mel0 = self.mel_frame_index;
        assert(self.first_processed ==> mel0 * 160 <= self.audio@.len());
        self.finished = true;
        if self.audio.len() == 0 {
            return Ok(None);
        }
        if !self.first_processed {
            let first_mel = plan.first_mel_frames();
            let first_length = plan.first_audio_samples();
            proof {
                if first_mel >= 2 {
                    assert(plan.factor_view() >= 1) by (nonlinear_arith)
                        requires first_mel == 1 + plan.factor_view() * plan.lookahead_view(), first_mel >= 2;
                }
            }
            self.first_processed = true;
            self.mel_frame_index = first_mel;
            let samples = padded_slice(self.audio.as_slice(), 0, first_length);
            return Ok(Some(AudioChunk { samples, center: true, mel_frames: first_mel }));
        }
        if self.mel_frame_index < 2 {
            return Err(ModelError::InvalidShape("streaming audio offset underflow".to_owned()));
        }
        let step = plan.subsequent_mel_frames();
        let length = plan.subsequent_audio_samples();
        let start = self.mel_frame_index * 160 - 256;
        if start >= self.audio.len() {
            return Ok(None);
        }
        proof {
            let len = self.audio@.len();
            assert(mel0 + step <= usize::MAX) by (nonlinear_arith)
                requires
                    mel0 * 160 <= len,
                    len <= usize::MAX,
                    step * 160 + 400 <= usize::MAX;
        }
        let samples = padded_slice(self.audio.as_slice(), start, length);
        self.mel_frame_index = self.mel_frame_index + step;
        Ok(Some(AudioChunk { samples, center: false, mel_frames: step }))
    }

    /// Clears buffered audio and begins a new utterance.
    pub fn reset(&mut self)
        ensures
            final(self).plan_view() == old(self).plan_view(),
            final(self).audio_view() == Seq::<T>::empty(),
            !final(self).first_processed_view(),
            final(self).mel_frame_index_view() == 0,
            !final(self).finished_view(),
    {
        *self = AudioChunkScheduler {
            plan: self.plan,
            audio: Vec::new(),
            first_processed: false,
            mel_frame_index: 0,
            finished: false,
        };
    }
}

impl<T: Copy> Clone for AudioChunkScheduler<T> {
    fn clone(&self) -> (r: Self)
        ensures
            r.plan_view() == self.plan_view(),
            r.audio_view() == self.audio_view(),
            r.first_processed_view() == self.first_processed_view(),
            r.mel_frame_index_view() == self.mel_frame_index_view(),
            r.finished_view() == self.finished_view(),
    {
        proof { use_type_invariant(self); }
        let audio = copy_range(self.audio.as_slice(), 0, self.audio.len());
        proof { assert(self.audio@.subrange(0, self.audio@.len() as int) =~= self.audio@); }
        AudioChunkScheduler {
            plan: self.plan,
            audio,
            first_processed: self.first_processed,
            mel_frame_index: self.mel_frame_index,
            finished: self.finished,
        }
    }
}

} // verus!
