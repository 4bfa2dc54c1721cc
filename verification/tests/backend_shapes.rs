use nemotron_mlx::backend::{check_linear_shapes, check_quantized_matmul};

#[test]
fn quantized_matmul_rejects_mismatched_input_shape() {
    let error = check_quantized_matmul(127, 1, 128, 128, 1, 128).expect_err("mismatched input must be rejected");
    assert!(error.contains("input has 127 values"));
}

#[test]
fn quantized_matmul_rejects_mismatched_weight_shape() {
    let error = check_quantized_matmul(128, 1, 128, 127, 1, 128).expect_err("mismatched weight must be rejected");
    assert!(error.contains("weight has 127 values"));
}

#[test]
fn quantized_matmul_rejects_non_divisible_group_size() {
    let error = check_quantized_matmul(128, 1, 128, 128, 1, 96).expect_err("non-divisible group size must be rejected");
    assert!(error.contains("not divisible by group size 96"));
}

#[test]
fn quantized_matmul_rejects_zero_group_size() {
    let error = check_quantized_matmul(128, 1, 128, 128, 1, 0).expect_err("zero group size must be rejected");
    assert!(error.contains("group size must be positive"));
}

#[test]
fn well_shaped_buffers_pass() {
    assert_eq!(check_quantized_matmul(17 * 128, 17, 128, 64 * 128, 64, 64), Ok(()));
    assert_eq!(check_linear_shapes(8, 2, 4, 2, 2), Ok(()));
    assert_eq!(
        check_linear_shapes(8, 2, 4, 3, 2),
        Err("linear weight/bias mismatch for 2x4".to_string())
    );
    assert_eq!(
        check_linear_shapes(8, 2, 4, 2, 3),
        Err("linear input dimension 4 is incompatible with group size 3".to_string())
    );
}
