use nemotron_mlx::weights::{
    DType, ManifestError, ModelManifest, Storage, TensorIndex, TensorMetadata, TensorTransform,
};

fn valid_index(manifest: &ModelManifest) -> TensorIndex {
    let mut index = TensorIndex::new();
    for spec in manifest.tensors() {
        index.insert(
            spec.name.clone(),
            TensorMetadata {
                shape: spec.source_shape.clone(),
                dtype: DType::F32,
            },
        );
    }
    index
}

#[test]
fn manifest_matches_published_checkpoint_dimensions() {
    let manifest = ModelManifest::nemotron_3_5();

    assert_eq!(
        manifest.model_id(),
        "nvidia/nemotron-3.5-asr-streaming-0.6b"
    );
    assert_eq!(manifest.tensors().len(), 655);
    assert_eq!(manifest.parameter_count(), 637_997_088);
    assert_eq!(manifest.encoder_layers(), 24);
    assert_eq!(manifest.vocab_size(), 13_088);
}

#[test]
fn manifest_assigns_int8_only_to_matrix_compatible_weights() {
    let manifest = ModelManifest::nemotron_3_5();

    let feed_forward = manifest
        .tensor("encoder.layers.0.feed_forward1.linear1.weight")
        .unwrap();
    assert_eq!(
        feed_forward.storage,
        Storage::Int8Affine { group_size: 128 }
    );
    assert_eq!(feed_forward.transform, TensorTransform::Identity);
    assert_eq!(feed_forward.artifact_shape, vec![4096, 1024]);

    let pointwise = manifest
        .tensor("encoder.layers.0.conv.pointwise_conv1.weight")
        .unwrap();
    assert_eq!(pointwise.storage, Storage::Int8Affine { group_size: 128 });
    assert_eq!(
        pointwise.transform,
        TensorTransform::SqueezeTrailingUnitDimensions
    );
    assert_eq!(pointwise.artifact_shape, vec![2048, 1024]);

    let depthwise = manifest
        .tensor("encoder.layers.0.conv.depthwise_conv.weight")
        .unwrap();
    assert_eq!(depthwise.storage, Storage::F16);
    assert_eq!(depthwise.artifact_shape, vec![1024, 1, 9]);

    let norm = manifest.tensor("encoder.layers.0.norm_out.weight").unwrap();
    assert_eq!(norm.storage, Storage::F16);
}

#[test]
fn manifest_rejects_a_missing_tensor() {
    let manifest = ModelManifest::nemotron_3_5();
    let mut index = valid_index(&manifest);
    index.remove("joint.head.weight");

    let error = manifest.validate(&index).unwrap_err();
    assert_eq!(
        error,
        ManifestError::MissingTensor("joint.head.weight".to_string())
    );
}

#[test]
fn manifest_rejects_an_incorrect_shape() {
    let manifest = ModelManifest::nemotron_3_5();
    let mut index = valid_index(&manifest);
    let dtype = index.get("decoder.embedding.weight").unwrap().dtype;
    index.insert(
        "decoder.embedding.weight".to_string(),
        TensorMetadata { shape: vec![13_088, 639], dtype },
    );

    let error = manifest.validate(&index).unwrap_err();
    assert_eq!(
        error,
        ManifestError::ShapeMismatch {
            name: "decoder.embedding.weight".to_string(),
            expected: vec![13_088, 640],
            actual: vec![13_088, 639],
        }
    );
}

#[test]
fn manifest_rejects_a_non_f32_source_tensor() {
    let manifest = ModelManifest::nemotron_3_5();
    let mut index = valid_index(&manifest);
    let shape = index.get("joint.head.bias").unwrap().shape.clone();
    index.insert(
        "joint.head.bias".to_string(),
        TensorMetadata { shape, dtype: DType::F16 },
    );

    let error = manifest.validate(&index).unwrap_err();
    assert_eq!(
        error,
        ManifestError::DTypeMismatch {
            name: "joint.head.bias".to_string(),
            expected: DType::F32,
            actual: DType::F16,
        }
    );
}

#[test]
fn manifest_accepts_the_complete_published_index() {
    let manifest = ModelManifest::nemotron_3_5();
    let index = valid_index(&manifest);
    assert!(manifest.validate(&index).is_ok());
    assert!(manifest.tensor("encoder.layers.23.self_attn.v_proj.weight").is_some());
    assert!(manifest.tensor("encoder.layers.24.self_attn.v_proj.weight").is_none());
    let lstm = manifest.tensor("decoder.lstm.bias_hh_l1").unwrap();
    assert_eq!(lstm.source_shape, vec![2560]);
}

#[test]
fn tensor_index_insert_replaces_and_remove_reports_absence() {
    let mut index = TensorIndex::new();
    index.insert("a".to_string(), TensorMetadata { shape: vec![1], dtype: DType::F32 });
    index.insert("a".to_string(), TensorMetadata { shape: vec![2], dtype: DType::I32 });
    assert_eq!(index.get("a").unwrap().shape, vec![2]);
    assert!(index.remove("a").is_some());
    assert!(index.remove("a").is_none());
    assert!(index.get("a").is_none());
}

#[test]
fn a_group_size_dividing_every_quantized_row_regroups_only_int8_tensors() {
    let published = ModelManifest::nemotron_3_5();
    let manifest = ModelManifest::nemotron_3_5_with_group_size(64).unwrap();
    assert_eq!(manifest.group_size(), 64);
    assert_eq!(published.group_size(), 128);
    assert_eq!(manifest.tensors().len(), published.tensors().len());
    assert_eq!(manifest.parameter_count(), 637_997_088);
    for (regrouped, original) in manifest.tensors().iter().zip(published.tensors()) {
        assert_eq!(regrouped.name, original.name);
        assert_eq!(regrouped.source_shape, original.source_shape);
        assert_eq!(regrouped.artifact_shape, original.artifact_shape);
        assert_eq!(regrouped.transform, original.transform);
        match original.storage {
            Storage::Int8Affine { group_size } => {
                assert_eq!(group_size, 128);
                assert_eq!(regrouped.storage, Storage::Int8Affine { group_size: 64 });
            }
            other => assert_eq!(regrouped.storage, other),
        }
    }
}

#[test]
fn group_size_128_is_the_published_layout() {
    let manifest = ModelManifest::nemotron_3_5_with_group_size(128).unwrap();
    assert_eq!(manifest.tensors(), ModelManifest::nemotron_3_5().tensors());
}

#[test]
fn group_sizes_that_split_no_row_evenly_are_refused() {
    let message = "affine INT8 group size 100 must be positive and divide the input dimension of every quantized tensor";
    assert_eq!(ModelManifest::nemotron_3_5_with_group_size(100).unwrap_err(), message);
    assert!(ModelManifest::nemotron_3_5_with_group_size(0).is_err());
    // 640-wide decoder rows do not split into groups of 256.
    assert!(ModelManifest::nemotron_3_5_with_group_size(256).is_err());
}
