//! Dense row-major tensors and the index shuffles of the streaming encoder.
use vstd::arithmetic::div_mod::lemma_fundamental_div_mod_converse;
use vstd::prelude::*;

use super::cache::is_default;
use super::encoder::ModelError;

verus! {

/// Owned `[batch, time, channels]` tensor.
#[derive(Debug, Clone, PartialEq)]
pub struct Tensor3<T> {
    /// `[batch, time, channels]` dimensions.
    pub shape: [usize; 3],
    /// Row-major values.
    pub values: Vec<T>,
}

/// Owned NHWC tensor whose second dimension is streaming time.
#[derive(Debug, Clone, PartialEq)]
pub struct Tensor4<T> {
    /// `[batch, time, frequency, channels]` dimensions.
    pub shape: [usize; 4],
    /// Row-major values.
    pub values: Vec<T>,
}

/// Output frames of a causal stride-`stride` convolution that pads
/// `kernel_size - stride` frames on the left: one per full stride of input.
pub fn streaming_output_length(input_frames: usize, kernel_size: usize, stride: usize) -> (r: usize)
    requires
        1 <= stride <= kernel_size,
        input_frames + (kernel_size - stride) <= usize::MAX,
    ensures
        r == input_frames / stride,
{
    let left_pad = kernel_size - stride;
    if input_frames + left_pad < kernel_size {
        proof {
            assert(input_frames / stride == 0) by (nonlinear_arith)
                requires input_frames < stride, stride >= 1;
        }
        0
    } else {
        proof {
            assert((input_frames - stride) / (stride as int) + 1 == (input_frames as int) / (stride as int)) by (nonlinear_arith)
                requires input_frames >= stride, stride >= 1;
        }
        (input_frames + left_pad - kernel_size) / stride + 1
    }
}

/// Zeroes every frame at or after `valid_frames`.
pub fn mask_invalid_time<T: Copy + Default>(tensor: &mut Tensor4<T>, valid_frames: usize)
    requires
        old(tensor).shape[2] * old(tensor).shape[3] <= usize::MAX,
        (if valid_frames <= old(tensor).shape[1] { valid_frames } else { old(tensor).shape[1] })
            * (old(tensor).shape[2] * old(tensor).shape[3]) <= old(tensor).values@.len(),
    ensures
        final(tensor).shape == old(tensor).shape,
        final(tensor).values@.len() == old(tensor).values@.len(),
        ({
            let kept = if valid_frames <= old(tensor).shape[1] { valid_frames as int } else { old(tensor).shape[1] as int };
            let start = kept * (old(tensor).shape[2] * old(tensor).shape[3]);
            &&& forall|i: int| 0 <= i < start ==> #[trigger] final(tensor).values@[i] == old(tensor).values@[i]
            &&& forall|i: int| start <= i < old(tensor).values@.len() ==> is_default(#[trigger] final(tensor).values@[i])
        }),
{
    let len = tensor.values.len();
    let frame_width = tensor.shape[2] * tensor.shape[3];
    let kept = if valid_frames <= tensor.shape[1] { valid_frames } else { tensor.shape[1] };
    let start = kept * frame_width;
    let mut i: usize = start;
    while i < tensor.values.len()
        invariant
            start <= i <= tensor.values@.len(),
            tensor.shape == old(tensor).shape,
            tensor.values@.len() == old(tensor).values@.len(),
            forall|k: int| 0 <= k < start ==> #[trigger] tensor.values@[k] == old(tensor).values@[k],
            forall|k: int| start <= k < i ==> is_default(#[trigger] tensor.values@[k]),
        decreases tensor.values@.len() - i,
    {
        tensor.values[i] = T::default();
        i += 1;
    }
}

/// Transposes the two inner dimensions of every row: `[rows, a, b]`
/// becomes `[rows, b, a]`.
pub fn transpose_blocks<T: Copy>(values: &[T], rows: usize, a: usize, b: usize) -> (out: Vec<T>)
    requires
        values@.len() == rows * (a * b),
    ensures
        out@.len() == values@.len(),
        forall|row: int, j: int, i: int|
            0 <= row < rows && 0 <= j < b && 0 <= i < a
                ==> #[trigger] out@[(row * b + j) * a + i] == values@[(row * a + i) * b + j],
{
    let total = values.len();
    let ghost width = a * b;
    let mut out: Vec<T> = Vec::new();
    let mut row: usize = 0;
    while row < rows
        invariant
            rows * width == total,
            total == values@.len(),
            width == a * b,
            row <= rows,
            out@.len() == row * width,
            forall|r: int, cc: int, bb: int|
                0 <= r < row && 0 <= cc < b && 0 <= bb < a
                    ==> #[trigger] out@[(r * b + cc) * a + bb]
                    == values@[(r * a + bb) * b + cc],
        decreases rows - row,
    {
        let mut j: usize = 0;
        while j < b
            invariant
                rows * width == total,
                total == values@.len(),
                width == a * b,
                row < rows,
                j <= b,
                out@.len() == row * width + j * a,
                forall|r: int, cc: int, bb: int|
                    0 <= r < row && 0 <= cc < b && 0 <= bb < a
                        ==> #[trigger] out@[(r * b + cc) * a + bb]
                        == values@[(r * a + bb) * b + cc],
                forall|cc: int, bb: int|
                    0 <= cc < j && 0 <= bb < a
                        ==> #[trigger] out@[(row * b + cc) * a + bb]
                        == values@[(row * a + bb) * b + cc],
            decreases b - j,
        {
            let mut i: usize = 0;
            while i < a
                invariant
                    rows * width == total,
                    total == values@.len(),
                    width == a * b,
                    row < rows,
                    j < b,
                    i <= a,
                    out@.len() == row * width + j * a + i,
                    forall|r: int, cc: int, bb: int|
                        0 <= r < row && 0 <= cc < b && 0 <= bb < a
                            ==> #[trigger] out@[(r * b + cc) * a + bb]
                            == values@[(r * a + bb) * b + cc],
                    forall|cc: int, bb: int|
                        0 <= cc < j && 0 <= bb < a
                            ==> #[trigger] out@[(row * b + cc) * a + bb]
                            == values@[(row * a + bb) * b + cc],
                    forall|bb: int|
                        0 <= bb < i ==> #[trigger] out@[(row * b + j) * a + bb]
                            == values@[(row * a + bb) * b + j],
                decreases a - i,
            {
                proof {
                    assert((row * a + i) * b + j < rows * width) by (nonlinear_arith)
                        requires
                            row < rows,
                            i < a,
                            j < b,
                            width == a * b;
                    assert(row * a + i <= (row * a + i) * b) by (nonlinear_arith)
                        requires j < b;
                    assert(row * width + j * a + i == (row * b + j) * a + i)
                        by (nonlinear_arith)
                        requires width == a * b;
                }
                let source = (row * a + i) * b + j;
                let ghost before = out@;
                out.push(values[source]);
                proof {
                    assert forall|r: int, cc: int, bb: int|
                        0 <= r < row && 0 <= cc < b && 0 <= bb < a implies #[trigger] out@[(r * b + cc) * a + bb]
                            == values@[(r * a + bb) * b + cc] by {
                        assert((r * b + cc) * a + bb < row * width) by (nonlinear_arith)
                            requires r < row, cc < b, bb < a, width == a * b, 0 <= r, 0 <= cc, 0 <= bb;
                        assert(out@[(r * b + cc) * a + bb] == before[(r * b + cc) * a + bb]);
                    }
                    assert forall|cc: int, bb: int|
                        0 <= cc < j && 0 <= bb < a implies #[trigger] out@[(row * b + cc) * a + bb]
                            == values@[(row * a + bb) * b + cc] by {
                        assert((row * b + cc) * a + bb < row * width + j * a) by (nonlinear_arith)
                            requires cc < j, bb < a, width == a * b, 0 <= cc, 0 <= bb;
                        assert(out@[(row * b + cc) * a + bb] == before[(row * b + cc) * a + bb]);
                    }
                    assert forall|bb: int|
                        0 <= bb < i + 1 implies #[trigger] out@[(row * b + j) * a + bb]
                            == values@[(row * a + bb) * b + j] by {
                        if bb < i {
                            assert(out@[(row * b + j) * a + bb] == before[(row * b + j) * a + bb]);
                        }
                    }
                }
                i += 1;
            }
            proof {
                assert forall|cc: int, bb: int|
                    0 <= cc < j + 1 && 0 <= bb < a implies #[trigger] out@[(row * b + cc) * a + bb]
                        == values@[(row * a + bb) * b + cc] by {}
                assert(row * width + j * a + a == row * width + (j + 1) * a)
                    by (nonlinear_arith);
            }
            j += 1;
        }
        proof {
            assert(row * width + b * a == (row + 1) * width) by (nonlinear_arith)
                requires width == a * b;
            assert forall|r: int, cc: int, bb: int|
                0 <= r < row + 1 && 0 <= cc < b && 0 <= bb < a implies #[trigger] out@[(r * b + cc) * a + bb]
                    == values@[(r * a + bb) * b + cc] by {}
        }
        row += 1;
    }
    out
}

/// Reorders MLX NHWC pixels into PyTorch's channel-major `(C,F)`
/// flattening: within each `[batch, time]` row, `(frequency, channel)`
/// becomes `(channel, frequency)`.
pub fn channel_frequency_flatten<T: Copy>(input: &Tensor4<T>) -> (r: Result<Vec<T>, ModelError>)
    requires
        input.shape[0] * input.shape[1] <= usize::MAX,
        input.shape[0] * input.shape[1] * input.shape[2] <= usize::MAX,
        input.shape[0] * input.shape[1] * input.shape[2] * input.shape[3] <= usize::MAX,
    ensures
        match r {
            Err(e) => e is InvalidShape && input.values@.len()
                != input.shape[0] * input.shape[1] * input.shape[2] * input.shape[3],
            Ok(out) => {
                let rows = input.shape[0] * input.shape[1];
                let frequency = input.shape[2] as int;
                let channels = input.shape[3] as int;
                &&& input.values@.len() == input.shape[0] * input.shape[1] * input.shape[2] * input.shape[3]
                &&& out@.len() == input.values@.len()
                &&& forall|row: int, channel: int, bin: int|
                    0 <= row < rows && 0 <= channel < channels && 0 <= bin < frequency
                        ==> #[trigger] out@[(row * channels + channel) * frequency + bin]
                        == input.values@[(row * frequency + bin) * channels + channel]
            },
        },
{
    let batch = input.shape[0];
    let time = input.shape[1];
    let frequency = input.shape[2];
    let channels = input.shape[3];
    let total = input.values.len();
    if total != batch * time * frequency * channels {
        return Err(ModelError::InvalidShape("NHWC tensor length does not match its shape".to_owned()));
    }
    let rows = batch * time;
    let ghost width = frequency * channels;
    proof {
        assert(rows * width == total) by (nonlinear_arith)
            requires rows == batch * time, width == frequency * channels, total == batch * time * frequency * channels;
    }
    let out = transpose_blocks(input.values.as_slice(), rows, frequency, channels);
    Ok(out)
}

/// Entry `index` of the left-zero-padded score matrix: each row of
/// `position_length` scores is preceded by one zero.
pub open spec fn relative_padded_entry<T: Default>(scores: Seq<T>, position_length: int, index: int, value: T) -> bool {
    let row = index / (position_length + 1);
    let column = index % (position_length + 1);
    if column == 0 {
        is_default(value)
    } else {
        value == scores[row * position_length + column - 1]
    }
}

/// Shaw/Transformer-XL relative shift: pad each score row with a leading
/// zero, view the padded rows as one sequence and drop its first
/// `query_length` entries.
pub fn relative_shift<T: Copy + Default>(attention_scores: &[T], query_length: usize, position_length: usize) -> (r: Result<Vec<T>, ModelError>)
    requires
        query_length * position_length <= usize::MAX,
    ensures
        match r {
            Err(e) => e is InvalidShape && (query_length == 0 || position_length == 0
                || attention_scores@.len() != query_length * position_length),
            Ok(out) => {
                &&& query_length > 0 && position_length > 0
                &&& attention_scores@.len() == query_length * position_length
                &&& out@.len() == query_length * position_length
                &&& forall|j: int| 0 <= j < out@.len() ==> relative_padded_entry(
                    attention_scores@, position_length as int, j + query_length, #[trigger] out@[j])
            },
        },
{
    let q = query_length;
    let p = position_length;
    if q == 0 || p == 0 {
        return Err(ModelError::InvalidShape("relative shift score dimensions are inconsistent".to_owned()));
    }
    if attention_scores.len() != q * p {
        return Err(ModelError::InvalidShape("relative shift score dimensions are inconsistent".to_owned()));
    }
    let mut padded: Vec<T> = Vec::new();
    let mut row: usize = 0;
    while row < q
        invariant
            q * p == attention_scores@.len(),
            q * p <= usize::MAX,
            p > 0,
            row <= q,
            padded@.len() == row * (p + 1),
            forall|i: int| 0 <= i < padded@.len() ==> relative_padded_entry(attention_scores@, p as int, i, #[trigger] padded@[i]),
        decreases q - row,
    {
        let zero = T::default();
        proof {
            lemma_fundamental_div_mod_converse(padded@.len() as int, (p + 1) as int, row as int, 0);
        }
        padded.push(zero);
        let mut column: usize = 0;
        while column < p
            invariant
                q * p == attention_scores@.len(),
                q * p <= usize::MAX,
                p > 0,
                row < q,
                column <= p,
                padded@.len() == row * (p + 1) + 1 + column,
                forall|i: int| 0 <= i < padded@.len() ==> relative_padded_entry(attention_scores@, p as int, i, #[trigger] padded@[i]),
            decreases p - column,
        {
            proof {
                assert(row * p + column < q * p) by (nonlinear_arith)
                    requires row < q, column < p;
                assert(row * p <= row * p + column);
                lemma_fundamental_div_mod_converse(padded@.len() as int, (p + 1) as int, row as int, column + 1);
            }
            padded.push(attention_scores[row * p + column]);
            column += 1;
        }
        proof {
            assert(row * (p + 1) + 1 + p == (row + 1) * (p + 1)) by (nonlinear_arith);
        }
        row += 1;
    }
    proof {
        assert(q * (p + 1) == q * p + q) by (nonlinear_arith);
    }
    let mut out: Vec<T> = Vec::new();
    let mut i: usize = q;
    while i < padded.len()
        invariant
            q <= i <= padded@.len(),
            padded@.len() == q * p + q,
            out@.len() == i - q,
            forall|j: int| 0 <= j < out@.len() ==> #[trigger] out@[j] == padded@[j + q],
        decreases padded@.len() - i,
    {
        out.push(padded[i]);
        i += 1;
    }
    Ok(out)
}

/// Reorders token-major `[frame, head, dim]` projections into head-major
/// `[head, frame, dim]` order; entries past `heads * frames * head_dim` are
/// zero.
pub fn token_major_to_head_major<T: Copy + Default>(values: &[T], frames: usize, heads: usize, head_dim: usize) -> (r: Vec<T>)
    requires
        heads * frames * head_dim <= values@.len(),
    ensures
        r@.len() == values@.len(),
        forall|head: int, frame: int, dim: int|
            0 <= head < heads && 0 <= frame < frames && 0 <= dim < head_dim
                ==> #[trigger] r@[(head * frames + frame) * head_dim + dim]
                == values@[frame * (heads * head_dim) + head * head_dim + dim],
        forall|i: int| heads * frames * head_dim <= i < values@.len() ==> is_default(#[trigger] r@[i]),
{
    let value_count = values.len();
    let mut out: Vec<T> = Vec::new();
    let ghost hidden = heads * head_dim;
    let mut head: usize = 0;
    while head < heads
        invariant
            heads * frames * head_dim <= values@.len(),
            value_count == values@.len(),
            hidden == heads * head_dim,
            head <= heads,
            out@.len() == head * frames * head_dim,
            forall|h: int, f: int, d: int|
                0 <= h < head && 0 <= f < frames && 0 <= d < head_dim
                    ==> #[trigger] out@[(h * frames + f) * head_dim + d] == values@[f * hidden + h * head_dim + d],
        decreases heads - head,
    {
        let mut frame: usize = 0;
        while frame < frames
            invariant
                heads * frames * head_dim <= values@.len(),
                value_count == values@.len(),
                hidden == heads * head_dim,
                head < heads,
                frame <= frames,
                out@.len() == head * frames * head_dim + frame * head_dim,
                forall|h: int, f: int, d: int|
                    0 <= h < head && 0 <= f < frames && 0 <= d < head_dim
                        ==> #[trigger] out@[(h * frames + f) * head_dim + d] == values@[f * hidden + h * head_dim + d],
                forall|f: int, d: int|
                    0 <= f < frame && 0 <= d < head_dim
                        ==> #[trigger] out@[(head * frames + f) * head_dim + d] == values@[f * hidden + head * head_dim + d],
            decreases frames - frame,
        {
            let mut dim: usize = 0;
            while dim < head_dim
                invariant
                    heads * frames * head_dim <= values@.len(),
                    value_count == values@.len(),
                    hidden == heads * head_dim,
                    head < heads,
                    frame < frames,
                    dim <= head_dim,
                    out@.len() == head * frames * head_dim + frame * head_dim + dim,
                    forall|h: int, f: int, d: int|
                        0 <= h < head && 0 <= f < frames && 0 <= d < head_dim
                            ==> #[trigger] out@[(h * frames + f) * head_dim + d] == values@[f * hidden + h * head_dim + d],
                    forall|f: int, d: int|
                        0 <= f < frame && 0 <= d < head_dim
                            ==> #[trigger] out@[(head * frames + f) * head_dim + d] == values@[f * hidden + head * head_dim + d],
                    forall|d: int|
                        0 <= d < dim ==> #[trigger] out@[(head * frames + frame) * head_dim + d]
                            == values@[frame * hidden + head * head_dim + d],
                decreases head_dim - dim,
            {
                proof {
                    assert(frame * hidden + head * head_dim + dim < heads * frames * head_dim) by (nonlinear_arith)
                        requires head < heads, frame < frames, dim < head_dim, hidden == heads * head_dim;
                    assert(heads * head_dim <= heads * frames * head_dim) by (nonlinear_arith)
                        requires frame < frames;
                    assert(head * head_dim <= heads * frames * head_dim) by (nonlinear_arith)
                        requires frame < frames, head < heads;
                    assert(frame * hidden <= frame * hidden + head * head_dim + dim);
                    assert(head * frames * head_dim + frame * head_dim + dim == (head * frames + frame) * head_dim + dim)
                        by (nonlinear_arith);
                }
                let source = frame * (heads * head_dim) + head * head_dim + dim;
                let ghost before = out@;
                out.push(values[source]);
                proof {
                    assert forall|h: int, f: int, d: int|
                        0 <= h < head && 0 <= f < frames && 0 <= d < head_dim implies #[trigger] out@[(h * frames + f) * head_dim + d]
                            == values@[f * hidden + h * head_dim + d] by {
                        assert((h * frames + f) * head_dim + d < head * frames * head_dim) by (nonlinear_arith)
                            requires h < head, f < frames, d < head_dim, 0 <= h, 0 <= f, 0 <= d;
                        assert(out@[(h * frames + f) * head_dim + d] == before[(h * frames + f) * head_dim + d]);
                    }
                    assert forall|f: int, d: int|
                        0 <= f < frame && 0 <= d < head_dim implies #[trigger] out@[(head * frames + f) * head_dim + d]
                            == values@[f * hidden + head * head_dim + d] by {
                        assert((head * frames + f) * head_dim + d < head * frames * head_dim + frame * head_dim) by (nonlinear_arith)
                            requires f < frame, d < head_dim, 0 <= f, 0 <= d;
                        assert(out@[(head * frames + f) * head_dim + d] == before[(head * frames + f) * head_dim + d]);
                    }
                    assert forall|d: int| 0 <= d < dim + 1 implies #[trigger] out@[(head * frames + frame) * head_dim + d]
                        == values@[frame * hidden + head * head_dim + d] by {
                        if d < dim {
                            assert(out@[(head * frames + frame) * head_dim + d] == before[(head * frames + frame) * head_dim + d]);
                        }
                    }
                }
                dim += 1;
            }
            proof {
                assert forall|f: int, d: int|
                    0 <= f < frame + 1 && 0 <= d < head_dim implies #[trigger] out@[(head * frames + f) * head_dim + d]
                        == values@[f * hidden + head * head_dim + d] by {}
                assert(head * frames * head_dim + frame * head_dim + head_dim == head * frames * head_dim + (frame + 1) * head_dim)
                    by (nonlinear_arith);
            }
            frame += 1;
        }
        proof {
            assert(head * frames * head_dim + frames * head_dim == (head + 1) * frames * head_dim) by (nonlinear_arith);
            assert forall|h: int, f: int, d: int|
                0 <= h < head + 1 && 0 <= f < frames && 0 <= d < head_dim implies #[trigger] out@[(h * frames + f) * head_dim + d]
                    == values@[f * hidden + h * head_dim + d] by {}
        }
        head += 1;
    }
    let ghost body = out@.len();
    while out.len() < values.len()
        invariant
            body == heads * frames * head_dim,
            body <= out@.len() <= values@.len(),
            forall|h: int, f: int, d: int|
                0 <= h < heads && 0 <= f < frames && 0 <= d < head_dim
                    ==> #[trigger] out@[(h * frames + f) * head_dim + d] == values@[f * hidden + h * head_dim + d],
            forall|i: int| body <= i < out@.len() ==> is_default(#[trigger] out@[i]),
        decreases values@.len() - out@.len(),
    {
        let ghost before = out@;
        out.push(T::default());
        proof {
            assert forall|h: int, f: int, d: int|
                0 <= h < heads && 0 <= f < frames && 0 <= d < head_dim implies #[trigger] out@[(h * frames + f) * head_dim + d]
                    == values@[f * hidden + h * head_dim + d] by {
                assert((h * frames + f) * head_dim + d < heads * frames * head_dim) by (nonlinear_arith)
                    requires h < heads, f < frames, d < head_dim, 0 <= h, 0 <= f, 0 <= d;
                assert(out@[(h * frames + f) * head_dim + d] == before[(h * frames + f) * head_dim + d]);
            }
        }
    }
    out
}

/// Reorders a PyTorch `OIHW` convolution kernel of square `kernel_size`
/// windows into MLX `OHWI` order.
pub fn oihw_to_ohwi<T: Copy>(weight: &[T], output_channels: usize, input_channels: usize, kernel_size: usize) -> (r: Vec<T>)
    requires
        weight@.len() == output_channels * (input_channels * (kernel_size * kernel_size)),
    ensures
        r@.len() == weight@.len(),
        forall|output: int, input: int, kernel_t: int, kernel_f: int|
            0 <= output < output_channels && 0 <= input < input_channels && 0 <= kernel_t < kernel_size
                && 0 <= kernel_f < kernel_size ==> #[trigger] r@[((output * kernel_size + kernel_t) * kernel_size
                + kernel_f) * input_channels + input] == weight@[((output * input_channels + input) * kernel_size
                + kernel_t) * kernel_size + kernel_f],
{
    let count = weight.len();
    if output_channels == 0 || input_channels == 0 {
        proof {
            assert(weight@.len() == 0) by (nonlinear_arith)
                requires weight@.len() == output_channels * (input_channels * (kernel_size * kernel_size)),
                    output_channels == 0 || input_channels == 0;
        }
        return Vec::new();
    }
    proof {
        assert(kernel_size * kernel_size <= count) by (nonlinear_arith)
            requires count == output_channels * (input_channels * (kernel_size * kernel_size)),
                output_channels >= 1, input_channels >= 1;
    }
    let spatial = kernel_size * kernel_size;
    let r = transpose_blocks(weight, output_channels, input_channels, spatial);
    proof {
        assert forall|output: int, input: int, kernel_t: int, kernel_f: int|
            0 <= output < output_channels && 0 <= input < input_channels && 0 <= kernel_t < kernel_size
                && 0 <= kernel_f < kernel_size implies #[trigger] r@[((output * kernel_size + kernel_t) * kernel_size
                + kernel_f) * input_channels + input] == weight@[((output * input_channels + input) * kernel_size
                + kernel_t) * kernel_size + kernel_f] by {
            let place = kernel_t * kernel_size + kernel_f;
            assert(place < spatial) by (nonlinear_arith)
                requires place == kernel_t * kernel_size + kernel_f, kernel_t < kernel_size, kernel_f < kernel_size,
                    spatial == kernel_size * kernel_size;
            assert(((output * kernel_size + kernel_t) * kernel_size + kernel_f) * input_channels + input
                == (output * spatial + place) * input_channels + input) by (nonlinear_arith)
                requires place == kernel_t * kernel_size + kernel_f, spatial == kernel_size * kernel_size;
            assert(((output * input_channels + input) * kernel_size + kernel_t) * kernel_size + kernel_f
                == (output * input_channels + input) * spatial + place) by (nonlinear_arith)
                requires place == kernel_t * kernel_size + kernel_f, spatial == kernel_size * kernel_size;
        }
    }
    r
}

/// One padded `[time, frequency + left + right, channels]` entry: a copy of
/// `values` inside the frequency band, default (zero) in the padding.
pub open spec fn frequency_padded_entry<T: Default>(
    values: Seq<T>,
    frequency: int,
    channels: int,
    left: int,
    frame: int,
    bin: int,
    channel: int,
    entry: T,
) -> bool {
    if left <= bin < left + frequency {
        entry == values[(frame * frequency + bin - left) * channels + channel]
    } else {
        is_default(entry)
    }
}

/// Pads the frequency axis of `[time, frequency, channels]` values with
/// `left` bins before and `right` bins after.
pub fn pad_frequency<T: Copy + Default>(
    values: &[T],
    time: usize,
    frequency: usize,
    channels: usize,
    left: usize,
    right: usize,
) -> (r: Vec<T>)
    requires
        values@.len() == time * (frequency * channels),
        time * ((frequency + left + right) * channels) <= usize::MAX,
    ensures
        r@.len() == time * ((frequency + left + right) * channels),
        forall|frame: int, bin: int, channel: int|
            0 <= frame < time && 0 <= bin < frequency + left + right && 0 <= channel < channels
                ==> frequency_padded_entry(values@, frequency as int, channels as int, left as int, frame, bin, channel,
                #[trigger] r@[(frame * (frequency + left + right) + bin) * channels + channel]),
{
    let ghost padded = frequency + left + right;
    proof {
        if time > 0 && channels > 0 {
            assert(frequency + left + right <= usize::MAX) by (nonlinear_arith)
                requires time * ((frequency + left + right) * channels) <= usize::MAX, time >= 1, channels >= 1;
        }
    }
    if time == 0 || channels == 0 {
        proof {
            assert(time * ((frequency + left + right) * channels) == 0) by (nonlinear_arith)
                requires time == 0 || channels == 0;
        }
        return Vec::new();
    }
    let value_count = values.len();
    let width = frequency + left + right;
    let ghost row = width * channels;
    let mut out: Vec<T> = Vec::new();
    let mut frame: usize = 0;
    while frame < time
        invariant
            values@.len() == time * (frequency * channels),
            value_count == values@.len(),
            width == frequency + left + right,
            row == width * channels,
            time * row <= usize::MAX,
            frame <= time,
            out@.len() == frame * row,
            forall|f: int, b: int, c: int|
                0 <= f < frame && 0 <= b < width && 0 <= c < channels
                    ==> frequency_padded_entry(values@, frequency as int, channels as int, left as int, f, b, c,
                    #[trigger] out@[(f * width + b) * channels + c]),
        decreases time - frame,
    {
        let mut bin: usize = 0;
        while bin < width
            invariant
                values@.len() == time * (frequency * channels),
                value_count == values@.len(),
                width == frequency + left + right,
                row == width * channels,
                time * row <= usize::MAX,
                frame < time,
                bin <= width,
                out@.len() == frame * row + bin * channels,
                forall|f: int, b: int, c: int|
                    0 <= f < frame && 0 <= b < width && 0 <= c < channels
                        ==> frequency_padded_entry(values@, frequency as int, channels as int, left as int, f, b, c,
                        #[trigger] out@[(f * width + b) * channels + c]),
                forall|b: int, c: int|
                    0 <= b < bin && 0 <= c < channels
                        ==> frequency_padded_entry(values@, frequency as int, channels as int, left as int, frame as int,
                        b, c, #[trigger] out@[(frame * width + b) * channels + c]),
            decreases width - bin,
        {
            let mut channel: usize = 0;
            while channel < channels
                invariant
                    values@.len() == time * (frequency * channels),
                    value_count == values@.len(),
                    width == frequency + left + right,
                    row == width * channels,
                    time * row <= usize::MAX,
                    frame < time,
                    bin < width,
                    channel <= channels,
                    out@.len() == frame * row + bin * channels + channel,
                    forall|f: int, b: int, c: int|
                        0 <= f < frame && 0 <= b < width && 0 <= c < channels
                            ==> frequency_padded_entry(values@, frequency as int, channels as int, left as int, f, b, c,
                            #[trigger] out@[(f * width + b) * channels + c]),
                    forall|b: int, c: int|
                        0 <= b < bin && 0 <= c < channels
                            ==> frequency_padded_entry(values@, frequency as int, channels as int, left as int,
                            frame as int, b, c, #[trigger] out@[(frame * width + b) * channels + c]),
                    forall|c: int|
                        0 <= c < channel ==> frequency_padded_entry(values@, frequency as int, channels as int,
                        left as int, frame as int, bin as int, c, #[trigger] out@[(frame * width + bin) * channels + c]),
                decreases channels - channel,
            {
                proof {
                    assert(frame * row + bin * channels + channel == (frame * width + bin) * channels + channel)
                        by (nonlinear_arith)
                        requires row == width * channels;
                    assert(frame * row + bin * channels + channel < time * row) by (nonlinear_arith)
                        requires frame < time, bin < width, channel < channels, row == width * channels;
                }
                let ghost before = out@;
                if left <= bin && bin < left + frequency {
                    proof {
                        assert((frame * frequency + (bin - left)) * channels + channel < time * (frequency * channels))
                            by (nonlinear_arith)
                            requires frame < time, bin - left < frequency, channel < channels, 0 <= bin - left;
                        assert(frame * frequency + (bin - left) <= (frame * frequency + (bin - left)) * channels)
                            by (nonlinear_arith)
                            requires channel < channels, frame * frequency + (bin - left) >= 0;
                        assert(frame * frequency <= frame * frequency + (bin - left));
                    }
                    let source = (frame * frequency + (bin - left)) * channels + channel;
                    out.push(values[source]);
                } else {
                    out.push(T::default());
                }
                proof {
                    assert forall|f: int, b: int, c: int|
                        0 <= f < frame && 0 <= b < width && 0 <= c < channels implies frequency_padded_entry(
                            values@, frequency as int, channels as int, left as int, f, b, c,
                            #[trigger] out@[(f * width + b) * channels + c]) by {
                        assert((f * width + b) * channels + c < frame * row) by (nonlinear_arith)
                            requires f < frame, b < width, c < channels, row == width * channels, 0 <= f, 0 <= b, 0 <= c;
                        assert(out@[(f * width + b) * channels + c] == before[(f * width + b) * channels + c]);
                    }
                    assert forall|b: int, c: int|
                        0 <= b < bin && 0 <= c < channels implies frequency_padded_entry(values@, frequency as int,
                            channels as int, left as int, frame as int, b, c,
                            #[trigger] out@[(frame * width + b) * channels + c]) by {
                        assert((frame * width + b) * channels + c < frame * row + bin * channels) by (nonlinear_arith)
                            requires b < bin, c < channels, row == width * channels, 0 <= b, 0 <= c;
                        assert(out@[(frame * width + b) * channels + c] == before[(frame * width + b) * channels + c]);
                    }
                    assert forall|c: int| 0 <= c < channel + 1 implies frequency_padded_entry(values@,
                        frequency as int, channels as int, left as int, frame as int, bin as int, c,
                        #[trigger] out@[(frame * width + bin) * channels + c]) by {
                        if c < channel {
                            assert(out@[(frame * width + bin) * channels + c] == before[(frame * width + bin) * channels + c]);
                        }
                    }
                }
                channel += 1;
            }
            proof {
                assert forall|b: int, c: int|
                    0 <= b < bin + 1 && 0 <= c < channels implies frequency_padded_entry(values@, frequency as int,
                        channels as int, left as int, frame as int, b, c,
                        #[trigger] out@[(frame * width + b) * channels + c]) by {}
                assert(frame * row + bin * channels + channels == frame * row + (bin + 1) * channels)
                    by (nonlinear_arith);
            }
            bin += 1;
        }
        proof {
            assert(frame * row + width * channels == (frame + 1) * row) by (nonlinear_arith)
                requires row == width * channels;
            assert forall|f: int, b: int, c: int|
                0 <= f < frame + 1 && 0 <= b < width && 0 <= c < channels implies frequency_padded_entry(values@,
                    frequency as int, channels as int, left as int, f, b, c,
                    #[trigger] out@[(f * width + b) * channels + c]) by {}
        }
        frame += 1;
    }
    out
}

} // verus!
