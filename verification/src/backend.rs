//! Shape checks guarding the quantized matrix products of the backend.
use vstd::prelude::*;

use crate::text::{decimal, push_decimal, push_str};

verus! {

/// Message for an input buffer of `actual` values that should hold
/// `rows x input_dims`.
pub open spec fn input_length_message(actual: nat, rows: nat, input_dims: nat) -> Seq<char> {
    "input has "@ + decimal(actual) + " values, expected "@ + decimal(rows) + "x"@ + decimal(input_dims)
}

/// Message for a weight buffer of `actual` values that should hold
/// `output_dims x input_dims`.
pub open spec fn weight_length_message(actual: nat, output_dims: nat, input_dims: nat) -> Seq<char> {
    "weight has "@ + decimal(actual) + " values, expected "@ + decimal(output_dims) + "x"@ + decimal(input_dims)
}

/// Message for an input dimension that the quantization group does not
/// divide.
pub open spec fn group_message(input_dims: nat, group_size: nat) -> Seq<char> {
    "input dimension "@ + decimal(input_dims) + " is not divisible by group size "@ + decimal(group_size)
}

/// `"<a> ... <b>x<c>"` built from three numbers and three fixed parts.
fn shape_text(head: &str, a: usize, middle: &str, b: usize, c: usize) -> (r: String)
    ensures
        r@ == head@ + decimal(a as nat) + middle@ + decimal(b as nat) + "x"@ + decimal(c as nat),
{
    let mut text = head.to_owned();
    push_decimal(&mut text, a as u64);
    push_str(&mut text, middle);
    push_decimal(&mut text, b as u64);
    push_str(&mut text, "x");
    push_decimal(&mut text, c as u64);
    text
}

/// Checks the buffers of `input @ weight.T` for a `rows x input_dims`
/// input, an `output_dims x input_dims` weight and affine quantization in
/// groups of `group_size`; reports the first problem in that order.
pub fn check_quantized_matmul(
    input_len: usize,
    rows: usize,
    input_dims: usize,
    weight_len: usize,
    output_dims: usize,
    group_size: usize,
) -> (r: Result<(), String>)
    ensures
        if rows * input_dims != input_len {
            r matches Err(m) && m@ == input_length_message(input_len as nat, rows as nat, input_dims as nat)
        } else if output_dims * input_dims != weight_len {
            r matches Err(m) && m@ == weight_length_message(weight_len as nat, output_dims as nat, input_dims as nat)
        } else if group_size == 0 {
            r matches Err(m) && m@ == "group size must be positive"@
        } else if input_dims % group_size != 0 {
            r matches Err(m) && m@ == group_message(input_dims as nat, group_size as nat)
        } else {
            r is Ok
        },
{
    let input_ok = match rows.checked_mul(input_dims) {
        Some(n) => n == input_len,
        None => false,
    };
    if !input_ok {
        return Err(shape_text("input has ", input_len, " values, expected ", rows, input_dims));
    }
    let weight_ok = match output_dims.checked_mul(input_dims) {
        Some(n) => n == weight_len,
        None => false,
    };
    if !weight_ok {
        return Err(shape_text("weight has ", weight_len, " values, expected ", output_dims, input_dims));
    }
    if group_size == 0 {
        return Err("group size must be positive".to_owned());
    }
    if input_dims % group_size != 0 {
        let mut text = "input dimension ".to_owned();
        push_decimal(&mut text, input_dims as u64);
        push_str(&mut text, " is not divisible by group size ");
        push_decimal(&mut text, group_size as u64);
        return Err(text);
    }
    Ok(())
}

/// Checks a linear layer's buffers: an `output_dims x input_dims` weight,
/// one bias per output and a quantization group dividing the input.
pub fn check_linear_shapes(
    weight_len: usize,
    output_dims: usize,
    input_dims: usize,
    bias_len: usize,
    group_size: usize,
) -> (r: Result<(), String>)
    ensures
        if output_dims * input_dims != weight_len || bias_len != output_dims {
            r matches Err(m) && m@ == "linear weight/bias mismatch for "@ + decimal(output_dims as nat) + "x"@
                + decimal(input_dims as nat)
        } else if group_size == 0 || input_dims % group_size != 0 {
            r matches Err(m) && m@ == "linear input dimension "@ + decimal(input_dims as nat)
                + " is incompatible with group size "@ + decimal(group_size as nat)
        } else {
            r is Ok
        },
{
    let weight_ok = match output_dims.checked_mul(input_dims) {
        Some(n) => n == weight_len,
        None => false,
    };
    if !weight_ok || bias_len != output_dims {
        let mut text = "linear weight/bias mismatch for ".to_owned();
        push_decimal(&mut text, output_dims as u64);
        push_str(&mut text, "x");
        push_decimal(&mut text, input_dims as u64);
        return Err(text);
    }
    if group_size == 0 || input_dims % group_size != 0 {
        let mut text = "linear input dimension ".to_owned();
        push_decimal(&mut text, input_dims as u64);
        push_str(&mut text, " is incompatible with group size ");
        push_decimal(&mut text, group_size as u64);
        return Err(text);
    }
    Ok(())
}

/// Whether a grouped Conv2D layer is well formed: positive groups dividing
/// both channel counts, a positive stride, one bias per output channel and
/// an `output x input/groups x kernel x kernel` weight.
pub fn conv2d_shapes_valid(
    weight_len: usize,
    bias_len: usize,
    output_channels: usize,
    input_channels: usize,
    kernel_size: usize,
    stride: usize,
    groups: usize,
) -> (r: bool)
    ensures
        r == (groups != 0 && input_channels % groups == 0 && output_channels % groups == 0 && stride != 0
            && bias_len == output_channels && weight_len == output_channels * ((input_channels / groups)
            * (kernel_size * kernel_size))),
{
    if groups == 0 || input_channels % groups != 0 || output_channels % groups != 0 || stride == 0
        || bias_len != output_channels {
        return false;
    }
    let per_group = input_channels / groups;
    if output_channels == 0 || per_group == 0 || kernel_size == 0 {
        proof {
            assert(output_channels * (per_group * (kernel_size * kernel_size)) == 0) by (nonlinear_arith)
                requires output_channels == 0 || per_group == 0 || kernel_size == 0;
        }
        return weight_len == 0;
    }
    match kernel_size.checked_mul(kernel_size) {
        None => {
            proof {
                assert(output_channels * (per_group * (kernel_size * kernel_size)) >= kernel_size * kernel_size)
                    by (nonlinear_arith)
                    requires output_channels >= 1, per_group >= 1;
            }
            false
        },
        Some(window) => match per_group.checked_mul(window) {
            None => {
                proof {
                    assert(output_channels * (per_group * window) >= per_group * window) by (nonlinear_arith)
                        requires output_channels >= 1;
                }
                false
            },
            Some(per_output) => match output_channels.checked_mul(per_output) {
                None => false,
                Some(total) => total == weight_len,
            },
        },
    }
}

/// Whether a depthwise Conv1D layer holds a `channels x kernel` weight and
/// one bias per channel.
pub fn depthwise_shapes_valid(weight_len: usize, bias_len: usize, channels: usize, kernel_size: usize) -> (r: bool)
    ensures
        r == (channels * kernel_size == weight_len && bias_len == channels),
{
    let weight_ok = match channels.checked_mul(kernel_size) {
        Some(n) => n == weight_len,
        None => false,
    };
    weight_ok && bias_len == channels
}

/// Whether a relative-position attention of `hidden_size` splits into
/// `heads` whole heads and both position biases hold `hidden_size` values.
pub fn attention_dims_valid(hidden_size: usize, heads: usize, bias_u_len: usize, bias_v_len: usize) -> (r: bool)
    ensures
        r == (heads != 0 && hidden_size % heads == 0 && bias_u_len == hidden_size && bias_v_len == hidden_size),
{
    heads != 0 && hidden_size % heads == 0 && bias_u_len == hidden_size && bias_v_len == hidden_size
}

/// Whether a causal convolution of `kernel_size` with time stride `stride`
/// has a left padding, `kernel_size - stride` frames, to stream with.
pub fn causal_stride_fits(kernel_size: usize, stride: usize) -> (r: bool)
    ensures
        r == (1 <= stride <= kernel_size),
{
    1 <= stride && stride <= kernel_size
}

} // verus!
