//! Framing of the log-mel frontend.
use vstd::prelude::*;

verus! {

/// Log-mel frames extracted from `samples` samples: one per hop when
/// centered, else one per full FFT window at each hop.
pub fn log_mel_frame_count(samples: usize, hop_length: usize, n_fft: usize, center: bool) -> (r: usize)
    requires
        hop_length > 0,
        center || samples < n_fft || (samples - n_fft) / (hop_length as int) < usize::MAX,
    ensures
        r == if center {
            samples / hop_length
        } else if samples < n_fft {
            0
        } else {
            ((samples - n_fft) / (hop_length as int) + 1) as usize
        },
{
    if center {
        samples / hop_length
    } else if samples < n_fft {
        0
    } else {
        (samples - n_fft) / hop_length + 1
    }
}

} // verus!
