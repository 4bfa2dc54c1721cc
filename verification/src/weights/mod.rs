//! Checkpoint layout, conversion policy and persisted artifact metadata.
mod info;
mod manifest;

pub use info::ArtifactTensorInfo;
pub use manifest::{
    DType, ManifestError, ManifestErrorView, ModelManifest, SpecTensor, Storage, TensorIndex,
    TensorMetadata, TensorMetadataView, TensorSpec, TensorTransform, decoder_tensors,
    dims_positive, encoder_layer_tensors, encoder_tensors, f16_tensor, first_named, group_size_message, groups_fit,
    first_problem, front_tensors, indexed_name, int8_pointwise_tensor, int8_tensor,
    layer_attention_tensors, layer_conv_tensors, layer_feed_forward_tensors, layer_norm_tensors,
    lemma_published_groups, lemma_published_layout, lstm_layer_tensors, nemotron_tensors, parameter_total,
    regroup, regrouped, shape_positive, shape_product, specs_view, subsampling_stage_tensors, tensor_problem,
    validate_specs,
};
