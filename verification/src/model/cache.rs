//! Streaming caches: the causal convolution left contexts and the sliding
//! per-head attention key/value window.
use vstd::prelude::*;

use super::encoder::ModelError;
use crate::seqs::{copy_range, default_filled, extend_copied};

verus! {

/// Whether `v` is a value that `T::default()` returns (zero for numbers).
pub open spec fn is_default<T: Default>(v: T) -> bool {
    call_ensures(T::default, (), v)
}

/// Left-context state for one causal depthwise-convolution stream.
#[derive(Debug)]
pub struct CausalConv1dCache<T> {
    channels: usize,
    left_frames: usize,
    values: Vec<T>,
}

impl<T> CausalConv1dCache<T> {
    #[verifier::type_invariant]
    spec fn wf(self) -> bool {
        self.values@.len() == self.channels * self.left_frames
    }

    /// Channels per cached frame.
    pub closed spec fn channels_view(self) -> nat {
        self.channels as nat
    }

    /// Frames of left context the cache keeps.
    pub closed spec fn left_frames_view(self) -> nat {
        self.left_frames as nat
    }

    /// Cached frames in `[time, channels]` order.
    pub closed spec fn values_view(self) -> Seq<T> {
        self.values@
    }
}

impl<T: Copy + Default> CausalConv1dCache<T> {
    /// Creates a zero-initialized cache with `left_frames * channels` values.
    pub fn new(channels: usize, left_frames: usize) -> (c: Self)
        requires
            channels * left_frames <= usize::MAX,
        ensures
            c.channels_view() == channels,
            c.left_frames_view() == left_frames,
            c.values_view().len() == channels * left_frames,
            forall|i: int| 0 <= i < channels * left_frames ==> is_default(#[trigger] c.values_view()[i]),
    {
        CausalConv1dCache { channels, left_frames, values: default_filled(channels * left_frames) }
    }

    /// Current cached frames in `[time, channels]` order.
    pub fn values(&self) -> (r: &[T])
        ensures
            r@ == self.values_view(),
    {
        self.values.as_slice()
    }

    /// Returns old cache plus chunk and updates the cache to the newest frames.
    pub fn prepend_and_update(&mut self, chunk: &[T], frames: usize) -> (r: Result<Vec<T>, ModelError>)
        ensures
            final(self).channels_view() == old(self).channels_view(),
            final(self).left_frames_view() == old(self).left_frames_view(),
            match r {
                Ok(combined) => {
                    let keep = old(self).channels_view() * old(self).left_frames_view();
                    &&& frames * old(self).channels_view() == chunk@.len()
                    &&& combined@ == old(self).values_view() + chunk@
                    &&& final(self).values_view() == combined@.subrange(combined@.len() - keep, combined@.len() as int)
                },
                Err(e) => {
                    &&& frames * old(self).channels_view() != chunk@.len()
                    &&& e is InvalidShape
                    &&& final(self).values_view() == old(self).values_view()
                },
            },
    {
        proof { use_type_invariant(&*self); }
        if !product_is(frames, self.channels, 1, chunk.len()) {
            return Err(ModelError::InvalidShape("cache chunk does not match frames x channels".to_owned()));
        }
        let mut combined: Vec<T> = Vec::new();
        extend_copied(&mut combined, self.values.as_slice());
        extend_copied(&mut combined, chunk);
        let keep = self.values.len();
        assert(keep == self.channels * self.left_frames);
        let start = combined.len() - keep;
        let newest = copy_range(combined.as_slice(), start, combined.len());
        self.values = newest;
        Ok(combined)
    }
}

/// Time-padding state for one causal Conv2D stage in `[time, frequency,
/// channels]` order.
#[derive(Debug)]
pub struct CausalConv2dCache<T> {
    frequency: usize,
    channels: usize,
    left_frames: usize,
    values: Vec<T>,
}

impl<T> CausalConv2dCache<T> {
    #[verifier::type_invariant]
    spec fn wf(self) -> bool {
        &&& self.frequency * self.channels <= usize::MAX
        &&& self.values@.len() % ((self.frequency * self.channels) as nat) == 0 || self.frequency * self.channels == 0
        &&& self.values@.len() >= self.left_frames * (self.frequency * self.channels)
    }

    /// Frequency bins per cached frame.
    pub closed spec fn frequency_view(self) -> nat {
        self.frequency as nat
    }

    /// Channels per frequency bin.
    pub closed spec fn channels_view(self) -> nat {
        self.channels as nat
    }

    /// Frames kept after each chunk.
    pub closed spec fn left_frames_view(self) -> nat {
        self.left_frames as nat
    }

    /// Cached values in `[time, frequency, channels]` order.
    pub closed spec fn values_view(self) -> Seq<T> {
        self.values@
    }

    /// Values per frame.
    pub open spec fn frame_width(self) -> nat {
        self.frequency_view() * self.channels_view()
    }
}

impl<T: Copy + Default> CausalConv2dCache<T> {
    /// A zeroed cache holding `left_frames + initial_extra_frames` frames, the
    /// causal time padding of the first chunk.
    pub fn new(frequency: usize, channels: usize, left_frames: usize, initial_extra_frames: usize) -> (c: Self)
        requires
            frequency * channels <= usize::MAX,
            (left_frames + initial_extra_frames) * (frequency * channels) <= usize::MAX,
        ensures
            c.frequency_view() == frequency,
            c.channels_view() == channels,
            c.left_frames_view() == left_frames,
            c.values_view().len() == (left_frames + initial_extra_frames) * (frequency * channels),
            forall|i: int| 0 <= i < c.values_view().len() ==> is_default(#[trigger] c.values_view()[i]),
    {
        let width = frequency * channels;
        if width == 0 {
            assert((left_frames + initial_extra_frames) * width == 0) by (nonlinear_arith)
                requires width == 0;
            return CausalConv2dCache { frequency, channels, left_frames, values: Vec::new() };
        }
        assert(left_frames + initial_extra_frames <= usize::MAX) by (nonlinear_arith)
            requires
                (left_frames + initial_extra_frames) * width <= usize::MAX,
                width >= 1;
        let total = (left_frames + initial_extra_frames) * width;
        let values = default_filled(total);
        proof {
            assert(total % width == 0) by (nonlinear_arith)
                requires total == (left_frames + initial_extra_frames) * width, width >= 1;
            assert(total >= left_frames * width) by (nonlinear_arith)
                requires total == (left_frames + initial_extra_frames) * width, width >= 1;
        }
        CausalConv2dCache { frequency, channels, left_frames, values }
    }

    /// Current cached values in `[time, frequency, channels]` order.
    pub fn values(&self) -> (r: &[T])
        ensures
            r@ == self.values_view(),
    {
        self.values.as_slice()
    }

    /// Returns the cached frames followed by `chunk` and the combined frame
    /// count, then keeps the newest `left_frames` frames.
    pub fn prepend_and_update(&mut self, chunk: &[T], time: usize) -> (r: Result<(Vec<T>, usize), ModelError>)
        ensures
            final(self).frequency_view() == old(self).frequency_view(),
            final(self).channels_view() == old(self).channels_view(),
            final(self).left_frames_view() == old(self).left_frames_view(),
            match r {
                Ok((combined, frames)) => {
                    let keep = old(self).left_frames_view() * old(self).frame_width();
                    &&& time * old(self).frame_width() == chunk@.len()
                    &&& combined@ == old(self).values_view() + chunk@
                    &&& frames * old(self).frame_width() == combined@.len()
                    &&& (old(self).frame_width() > 0 ==> frames
                        == old(self).values_view().len() / old(self).frame_width() + time)
                    &&& final(self).values_view() == combined@.subrange(combined@.len() - keep, combined@.len() as int)
                },
                Err(e) => {
                    &&& e is InvalidShape
                    &&& final(self).values_view() == old(self).values_view()
                    &&& (time * old(self).frame_width() != chunk@.len() || old(self).frame_width() == 0)
                },
            },
    {
        proof { use_type_invariant(&*self); }
        let width = self.frequency * self.channels;
        if width == 0 {
            return Err(ModelError::InvalidShape("causal conv2d cache has an empty frame".to_owned()));
        }
        if !product_is(time, width, 1, chunk.len()) {
            return Err(ModelError::InvalidShape("causal conv2d chunk does not match its shape".to_owned()));
        }
        let cached_frames = self.values.len() / width;
        proof {
            assert(cached_frames * width == self.values@.len()) by (nonlinear_arith)
                requires
                    cached_frames == self.values@.len() / (width as nat),
                    self.values@.len() % (width as nat) == 0,
                    width >= 1;
        }
        let mut combined: Vec<T> = Vec::new();
        extend_copied(&mut combined, self.values.as_slice());
        extend_copied(&mut combined, chunk);
        let combined_len = combined.len();
        proof {
            assert((cached_frames + time) * width == combined@.len()) by (nonlinear_arith)
                requires
                    cached_frames * width == self.values@.len(),
                    time * width == chunk@.len(),
                    combined@.len() == self.values@.len() + chunk@.len();
            assert(cached_frames + time <= combined@.len()) by (nonlinear_arith)
                requires (cached_frames + time) * width == combined@.len(), width >= 1;
        }
        let frames = cached_frames + time;
        let keep = self.left_frames * width;
        let start = combined.len() - keep;
        let newest = copy_range(combined.as_slice(), start, combined.len());
        proof {
            assert(newest@.len() == keep);
            assert(keep % width == 0) by (nonlinear_arith)
                requires keep == self.left_frames * width, width >= 1;
        }
        self.values = newest;
        Ok((combined, frames))
    }
}

/// Streaming law of the sliding caches: an update keeps the newest values of
/// the cache followed by the chunk. If one update with chunk `a` keeps
/// `first_keep` values and the next, with chunk `b`, keeps `second_keep`,
/// then the second update sees the newest `first_keep + b.len()` values of
/// everything seen (`cached`, `a`, `b`) and keeps the newest `second_keep`
/// of them, as one update with `a` and `b` together would. The convolution
/// caches keep the same count every time; the attention cache keeps up to
/// its window of frames per head.
pub proof fn lemma_cache_updates_compose<T>(cached: Seq<T>, a: Seq<T>, b: Seq<T>, first_keep: int, second_keep: int)
    requires
        0 <= first_keep <= cached.len() + a.len(),
        0 <= second_keep <= first_keep + b.len(),
    ensures
        ({
            let first = cached + a;
            let second = first.subrange(first.len() - first_keep, first.len() as int) + b;
            let whole = cached + a + b;
            &&& second == whole.subrange(whole.len() - (first_keep + b.len()), whole.len() as int)
            &&& second.subrange(second.len() - second_keep, second.len() as int)
                == whole.subrange(whole.len() - second_keep, whole.len() as int)
        }),
{
    let first = cached + a;
    let second = first.subrange(first.len() - first_keep, first.len() as int) + b;
    let whole = cached + a + b;
    assert(second =~= whole.subrange(whole.len() - (first_keep + b.len()), whole.len() as int));
    assert(second.subrange(second.len() - second_keep, second.len() as int)
        =~= whole.subrange(whole.len() - second_keep, whole.len() as int));
}

/// The keys and values visible to one attention call: the cached frames of
/// each head followed by the current chunk's frames, head-major.
#[derive(Debug, Clone)]
pub struct AttentionWindow<T> {
    pub frames: usize,
    pub keys: Vec<T>,
    pub values: Vec<T>,
}

/// One head's window: its cached frames followed by its current frames.
pub open spec fn head_window<T>(cached: Seq<T>, current: Seq<T>, head: int, frames: int, head_dim: int) -> Seq<T> {
    cached + current.subrange(head * frames * head_dim, (head + 1) * frames * head_dim)
}

/// Every head's window, in head order.
pub open spec fn head_windows<T>(cached: Seq<Seq<T>>, current: Seq<T>, frames: int, head_dim: int) -> Seq<Seq<T>> {
    Seq::new(cached.len(), |h: int| head_window(cached[h], current, h, frames, head_dim))
}

/// The newest `keep` frames of every head.
pub open spec fn newest_frames<T>(windows: Seq<Seq<T>>, keep: int, head_dim: int) -> Seq<Seq<T>> {
    Seq::new(windows.len(), |h: int| windows[h].subrange(windows[h].len() - keep * head_dim, windows[h].len() as int))
}

/// Sliding per-head key/value cache of at most `max_frames` frames.
#[derive(Debug)]
pub struct AttentionKvCache<T> {
    heads: usize,
    head_dim: usize,
    max_frames: usize,
    frames: usize,
    keys: Vec<Vec<T>>,
    values: Vec<Vec<T>>,
}

impl<T> AttentionKvCache<T> {
    #[verifier::type_invariant]
    spec fn wf(self) -> bool {
        &&& self.keys@.len() == self.heads
        &&& self.values@.len() == self.heads
        &&& self.frames <= self.max_frames
        &&& forall|h: int| 0 <= h < self.heads ==> (#[trigger] self.keys@[h])@.len() == self.frames * self.head_dim
        &&& forall|h: int| 0 <= h < self.heads ==> (#[trigger] self.values@[h])@.len() == self.frames * self.head_dim
    }

    /// Number of heads.
    pub closed spec fn heads_view(self) -> nat {
        self.heads as nat
    }

    /// Dimensions per head.
    pub closed spec fn head_dim_view(self) -> nat {
        self.head_dim as nat
    }

    /// Most frames the cache keeps.
    pub closed spec fn max_frames_view(self) -> nat {
        self.max_frames as nat
    }

    /// Frames currently cached.
    pub closed spec fn frames_view(self) -> nat {
        self.frames as nat
    }

    /// Cached keys of each head, `[frame, dim]` order.
    pub closed spec fn keys_view(self) -> Seq<Seq<T>> {
        Seq::new(self.keys@.len(), |h: int| self.keys@[h]@)
    }

    /// Cached values of each head, `[frame, dim]` order.
    pub closed spec fn values_view(self) -> Seq<Seq<T>> {
        Seq::new(self.values@.len(), |h: int| self.values@[h]@)
    }
}

impl<T: Copy> AttentionKvCache<T> {
    /// An empty cache.
    pub fn new(heads: usize, head_dim: usize, max_frames: usize) -> (c: Self)
        ensures
            c.heads_view() == heads,
            c.head_dim_view() == head_dim,
            c.max_frames_view() == max_frames,
            c.frames_view() == 0,
            c.keys_view() == Seq::new(heads as nat, |h: int| Seq::<T>::empty()),
            c.values_view() == Seq::new(heads as nat, |h: int| Seq::<T>::empty()),
    {
        let mut keys: Vec<Vec<T>> = Vec::new();
        let mut values: Vec<Vec<T>> = Vec::new();
        let mut h: usize = 0;
        while h < heads
            invariant
                h <= heads,
                keys@.len() == h,
                values@.len() == h,
                forall|j: int| 0 <= j < h ==> (#[trigger] keys@[j])@.len() == 0,
                forall|j: int| 0 <= j < h ==> (#[trigger] values@[j])@.len() == 0,
            decreases heads - h,
        {
            keys.push(Vec::new());
            values.push(Vec::new());
            h += 1;
        }
        let c = AttentionKvCache { heads, head_dim, max_frames, frames: 0, keys, values };
        assert forall|j: int| 0 <= j < heads implies #[trigger] c.keys_view()[j] =~= Seq::<T>::empty() by {}
        assert forall|j: int| 0 <= j < heads implies #[trigger] c.values_view()[j] =~= Seq::<T>::empty() by {}
        assert(c.keys_view() =~= Seq::new(heads as nat, |h: int| Seq::<T>::empty()));
        assert(c.values_view() =~= Seq::new(heads as nat, |h: int| Seq::<T>::empty()));
        c
    }

    /// Frames currently cached.
    pub fn frames(&self) -> (r: usize)
        ensures
            r == self.frames_view(),
    {
        self.frames
    }

    /// Cached keys, head-major `[head, frame, dim]`.
    pub fn keys(&self) -> (r: Vec<T>)
        ensures
            r@ == self.keys_view().flatten(),
    {
        flatten_heads(&self.keys)
    }

    /// Cached values, head-major `[head, frame, dim]`.
    pub fn values(&self) -> (r: Vec<T>)
        ensures
            r@ == self.values_view().flatten(),
    {
        flatten_heads(&self.values)
    }

    /// Returns old cache plus the current head-major keys and values, then
    /// keeps the newest `max_frames` frames of every head.
    pub fn update(&mut self, keys: &[T], values: &[T], frames: usize) -> (r: Result<AttentionWindow<T>, ModelError>)
        ensures
            final(self).heads_view() == old(self).heads_view(),
            final(self).head_dim_view() == old(self).head_dim_view(),
            final(self).max_frames_view() == old(self).max_frames_view(),
            match r {
                Ok(window) => {
                    let d = old(self).head_dim_view() as int;
                    let total = old(self).frames_view() + frames;
                    let kept = if total <= old(self).max_frames_view() { total } else { old(self).max_frames_view() as int };
                    let key_windows = head_windows(old(self).keys_view(), keys@, frames as int, d);
                    let value_windows = head_windows(old(self).values_view(), values@, frames as int, d);
                    &&& keys@.len() == old(self).heads_view() * frames * d
                    &&& values@.len() == old(self).heads_view() * frames * d
                    &&& window.frames == total
                    &&& window.keys@ == key_windows.flatten()
                    &&& window.values@ == value_windows.flatten()
                    &&& final(self).frames_view() == kept
                    &&& final(self).keys_view() == newest_frames(key_windows, kept, d)
                    &&& final(self).values_view() == newest_frames(value_windows, kept, d)
                },
                Err(e) => {
                    &&& e is InvalidShape
                    &&& *final(self) == *old(self)
                    &&& (keys@.len() != old(self).heads_view() * frames * old(self).head_dim_view()
                        || values@.len() != old(self).heads_view() * frames * old(self).head_dim_view()
                        || old(self).frames_view() + frames > usize::MAX)
                },
            },
    {
        proof { use_type_invariant(&*self); }
        let ok_len = product_is(self.heads, frames, self.head_dim, keys.len())
            && product_is(self.heads, frames, self.head_dim, values.len());
        if !ok_len {
            return Err(ModelError::InvalidShape("attention keys or values do not match heads x frames x dim".to_owned()));
        }
        let total = match self.frames.checked_add(frames) {
            Some(t) => t,
            None => {
                return Err(ModelError::InvalidShape("attention window is too long".to_owned()));
            },
        };
        let kept = if total <= self.max_frames { total } else { self.max_frames };
        let ghost old_keys = self.keys_view();
        let ghost old_values = self.values_view();
        let d = self.head_dim;
        let heads = self.heads;
        let mut key_windows: Vec<Vec<T>> = Vec::new();
        let mut value_windows: Vec<Vec<T>> = Vec::new();
        let mut new_keys: Vec<Vec<T>> = Vec::new();
        let mut new_values: Vec<Vec<T>> = Vec::new();
        let key_len = keys.len();
        let ghost kw = head_windows(old_keys, keys@, frames as int, d as int);
        let ghost vw = head_windows(old_values, values@, frames as int, d as int);
        let mut h: usize = 0;
        while h < heads
            invariant
                h <= heads,
                heads == self.heads,
                d == self.head_dim,
                self.keys@.len() == heads,
                self.values@.len() == heads,
                old_keys == self.keys_view(),
                old_values == self.values_view(),
                forall|j: int| 0 <= j < heads ==> (#[trigger] self.keys@[j])@.len() == self.frames * d,
                forall|j: int| 0 <= j < heads ==> (#[trigger] self.values@[j])@.len() == self.frames * d,
                keys@.len() == heads * frames * d,
                values@.len() == heads * frames * d,
                key_len == keys@.len(),
                total == self.frames + frames,
                kept <= total,
                kw == head_windows(old_keys, keys@, frames as int, d as int),
                vw == head_windows(old_values, values@, frames as int, d as int),
                key_windows@.len() == h,
                value_windows@.len() == h,
                new_keys@.len() == h,
                new_values@.len() == h,
                forall|j: int| 0 <= j < h ==> (#[trigger] key_windows@[j])@ == kw[j],
                forall|j: int| 0 <= j < h ==> (#[trigger] value_windows@[j])@ == vw[j],
                forall|j: int| 0 <= j < h ==> (#[trigger] new_keys@[j])@
                    == kw[j].subrange(kw[j].len() - kept * d, kw[j].len() as int),
                forall|j: int| 0 <= j < h ==> (#[trigger] new_values@[j])@
                    == vw[j].subrange(vw[j].len() - kept * d, vw[j].len() as int),
                forall|j: int| 0 <= j < h ==> (#[trigger] new_keys@[j])@.len() == kept * d,
                forall|j: int| 0 <= j < h ==> (#[trigger] new_values@[j])@.len() == kept * d,
            decreases heads - h,
        {
            proof {
                assert((h + 1) * frames * d <= heads * frames * d) by (nonlinear_arith)
                    requires h + 1 <= heads;
                assert(h * frames * d + frames * d == (h + 1) * frames * d) by (nonlinear_arith);
                assert(frames * d <= (h + 1) * frames * d) by (nonlinear_arith);
                assert(h * (frames * d) == h * frames * d) by (nonlinear_arith);
            }
            let width = frames * d;
            let from = h * width;
            let to = from + width;
            let kpart = copy_range(keys, from, to);
            let vpart = copy_range(values, from, to);
            let mut kwin = copy_range(self.keys[h].as_slice(), 0, self.keys[h].len());
            extend_copied(&mut kwin, kpart.as_slice());
            let mut vwin = copy_range(self.values[h].as_slice(), 0, self.values[h].len());
            extend_copied(&mut vwin, vpart.as_slice());
            proof {
                assert(self.keys@[h as int]@.subrange(0, self.keys@[h as int]@.len() as int) =~= self.keys@[h as int]@);
                assert(self.values@[h as int]@.subrange(0, self.values@[h as int]@.len() as int) =~= self.values@[h as int]@);
                assert(old_keys[h as int] == self.keys@[h as int]@);
                assert(old_values[h as int] == self.values@[h as int]@);
                assert(kwin@ == kw[h as int]);
                assert(vwin@ == vw[h as int]);
                assert(kwin@.len() == total * d) by (nonlinear_arith)
                    requires kwin@.len() == self.frames * d + (to - from), to - from == frames * d, total == self.frames + frames;
                assert(vwin@.len() == total * d) by (nonlinear_arith)
                    requires vwin@.len() == self.frames * d + (to - from), to - from == frames * d, total == self.frames + frames;
                assert(kept * d <= total * d) by (nonlinear_arith)
                    requires kept <= total;
            }
            let keep_from = kwin.len() - kept * d;
            let kkeep = copy_range(kwin.as_slice(), keep_from, kwin.len());
            let vkeep = copy_range(vwin.as_slice(), keep_from, vwin.len());
            key_windows.push(kwin);
            value_windows.push(vwin);
            new_keys.push(kkeep);
            new_values.push(vkeep);
            h += 1;
        }
        let window_keys = flatten_heads(&key_windows);
        let window_values = flatten_heads(&value_windows);
        proof {
            assert(Seq::new(key_windows@.len(), |j: int| key_windows@[j]@) =~= kw);
            assert(Seq::new(value_windows@.len(), |j: int| value_windows@[j]@) =~= vw);
        }
        *self = AttentionKvCache {
            heads: self.heads,
            head_dim: self.head_dim,
            max_frames: self.max_frames,
            frames: kept,
            keys: new_keys,
            values: new_values,
        };
        proof {
            assert(self.keys_view() =~= newest_frames(kw, kept as int, d as int));
            assert(self.values_view() =~= newest_frames(vw, kept as int, d as int));
        }
        Ok(AttentionWindow { frames: total, keys: window_keys, values: window_values })
    }
}

impl<T: Copy> Clone for CausalConv1dCache<T> {
    fn clone(&self) -> (r: Self)
        ensures
            r.channels_view() == self.channels_view(),
            r.left_frames_view() == self.left_frames_view(),
            r.values_view() == self.values_view(),
    {
        proof { use_type_invariant(self); }
        let values = copy_range(self.values.as_slice(), 0, self.values.len());
        proof { assert(self.values@.subrange(0, self.values@.len() as int) =~= self.values@); }
        let r = CausalConv1dCache { channels: self.channels, left_frames: self.left_frames, values };
        proof { assert(r.values@ =~= self.values@); }
        r
    }
}

impl<T: Copy> Clone for CausalConv2dCache<T> {
    fn clone(&self) -> (r: Self)
        ensures
            r.frequency_view() == self.frequency_view(),
            r.channels_view() == self.channels_view(),
            r.left_frames_view() == self.left_frames_view(),
            r.values_view() == self.values_view(),
    {
        proof { use_type_invariant(self); }
        let values = copy_range(self.values.as_slice(), 0, self.values.len());
        proof { assert(self.values@.subrange(0, self.values@.len() as int) =~= self.values@); }
        CausalConv2dCache { frequency: self.frequency, channels: self.channels, left_frames: self.left_frames, values }
    }
}

impl<T: Copy> Clone for AttentionKvCache<T> {
    fn clone(&self) -> (r: Self)
        ensures
            r.heads_view() == self.heads_view(),
            r.head_dim_view() == self.head_dim_view(),
            r.max_frames_view() == self.max_frames_view(),
            r.frames_view() == self.frames_view(),
            r.keys_view() == self.keys_view(),
            r.values_view() == self.values_view(),
    {
        proof { use_type_invariant(self); }
        let keys = copy_rows(&self.keys);
        let values = copy_rows(&self.values);
        let r = AttentionKvCache {
            heads: self.heads,
            head_dim: self.head_dim,
            max_frames: self.max_frames,
            frames: self.frames,
            keys,
            values,
        };
        proof {
            assert(r.keys_view() =~= self.keys_view());
            assert(r.values_view() =~= self.values_view());
        }
        r
    }
}

/// Whether `a * b * c` equals `n`, without overflow.
fn product_is(a: usize, b: usize, c: usize, n: usize) -> (r: bool)
    ensures
        r == (a * b * c == n),
{
    if a == 0 || b == 0 || c == 0 {
        assert(a * b * c == 0) by (nonlinear_arith)
            requires a == 0 || b == 0 || c == 0;
        return n == 0;
    }
    match a.checked_mul(b) {
        None => {
            assert(a * b * c >= a * b) by (nonlinear_arith)
                requires c >= 1, a >= 0, b >= 0;
            false
        },
        Some(ab) => match ab.checked_mul(c) {
            None => false,
            Some(abc) => abc == n,
        },
    }
}

/// A fresh copy of every row.
fn copy_rows<T: Copy>(rows: &Vec<Vec<T>>) -> (r: Vec<Vec<T>>)
    ensures
        r@.len() == rows@.len(),
        forall|h: int| 0 <= h < rows@.len() ==> (#[trigger] r@[h])@ == rows@[h]@,
{
    let mut out: Vec<Vec<T>> = Vec::new();
    let mut h: usize = 0;
    while h < rows.len()
        invariant
            h <= rows@.len(),
            out@.len() == h,
            forall|j: int| 0 <= j < h ==> (#[trigger] out@[j])@ == rows@[j]@,
        decreases rows.len() - h,
    {
        let row = copy_range(rows[h].as_slice(), 0, rows[h].len());
        proof { assert(rows@[h as int]@.subrange(0, rows@[h as int]@.len() as int) =~= rows@[h as int]@); }
        out.push(row);
        h += 1;
    }
    out
}

/// Concatenates per-head rows in head order.
fn flatten_heads<T: Copy>(rows: &Vec<Vec<T>>) -> (r: Vec<T>)
    ensures
        r@ == Seq::new(rows@.len(), |h: int| rows@[h]@).flatten(),
{
    let mut out: Vec<T> = Vec::new();
    let mut h: usize = 0;
    while h < rows.len()
        invariant
            h <= rows@.len(),
            out@ == Seq::new(h as nat, |j: int| rows@[j]@).flatten(),
        decreases rows.len() - h,
    {
        let ghost before = Seq::new(h as nat, |j: int| rows@[j]@);
        extend_copied(&mut out, rows[h].as_slice());
        proof {
            before.lemma_flatten_push(rows@[h as int]@);
            assert(before.push(rows@[h as int]@) =~= Seq::new((h + 1) as nat, |j: int| rows@[j]@));
        }
        h += 1;
    }
    out
}

} // verus!
