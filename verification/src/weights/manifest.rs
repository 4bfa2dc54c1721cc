//! The published checkpoint layout and its conversion policy, and the check
//! of a source tensor index against it.
use vstd::prelude::*;
use vstd::string::StringExecFns;

use crate::seqs::{copy_vec, usize_slices_equal};
use crate::text::{decimal, push_decimal, str_equal};

verus! {

broadcast use vstd::string::group_string_axioms;

/// Tensor element types accepted in source and release artifacts.
#[derive(Debug, Clone, Copy, PartialEq, Eq, Structural)]
pub enum DType {
    /// IEEE half precision.
    F16,
    /// IEEE single precision.
    F32,
    /// Signed 32-bit integer.
    I32,
    /// Unsigned 32-bit integer used for packed quantized weights.
    U32,
}

/// On-disk representation selected for a tensor in the artifact.
#[derive(Debug, Clone, Copy, PartialEq, Eq, Structural)]
pub enum Storage {
    /// Affine weight-only INT8 with per-group scale and bias.
    Int8Affine { group_size: usize },
    /// IEEE half precision.
    F16,
    /// IEEE single precision.
    F32,
    /// Signed 32-bit integer.
    I32,
}

/// Shape-only transform applied before quantization.
#[derive(Debug, Clone, Copy, PartialEq, Eq, Structural)]
pub enum TensorTransform {
    /// Preserve the source tensor shape.
    Identity,
    /// Remove trailing unit kernel dimensions so a pointwise convolution can use matmul.
    SqueezeTrailingUnitDimensions,
}

/// Metadata read from an input tensor index.
#[derive(Debug, Clone, PartialEq, Eq)]
pub struct TensorMetadata {
    /// Dimensions in row-major order.
    pub shape: Vec<usize>,
    /// Source element type.
    pub dtype: DType,
}

/// Mathematical value of a [`TensorMetadata`].
pub ghost struct TensorMetadataView {
    pub shape: Seq<usize>,
    pub dtype: DType,
}

impl View for TensorMetadata {
    type V = TensorMetadataView;

    open spec fn view(&self) -> TensorMetadataView {
        TensorMetadataView { shape: self.shape@, dtype: self.dtype }
    }
}

/// Required source tensor and its destination storage policy.
#[derive(Debug, Clone, PartialEq, Eq)]
pub struct TensorSpec {
    /// Checkpoint tensor name.
    pub name: String,
    /// Expected source dimensions.
    pub source_shape: Vec<usize>,
    /// Dimensions after applying `transform`.
    pub artifact_shape: Vec<usize>,
    /// Destination precision and quantization policy.
    pub storage: Storage,
    /// Shape transform applied before storage.
    pub transform: TensorTransform,
}

/// Mathematical value of a [`TensorSpec`].
pub ghost struct SpecTensor {
    pub name: Seq<char>,
    pub source_shape: Seq<usize>,
    pub artifact_shape: Seq<usize>,
    pub storage: Storage,
    pub transform: TensorTransform,
}

impl View for TensorSpec {
    type V = SpecTensor;

    open spec fn view(&self) -> SpecTensor {
        SpecTensor {
            name: self.name@,
            source_shape: self.source_shape@,
            artifact_shape: self.artifact_shape@,
            storage: self.storage,
            transform: self.transform,
        }
    }
}

/// The views of a sequence of tensor specifications.
pub open spec fn specs_view(v: Seq<TensorSpec>) -> Seq<SpecTensor> {
    v.map_values(|t: TensorSpec| t@)
}

/// Errors found while validating a source checkpoint.
#[derive(Debug, Clone, PartialEq, Eq)]
pub enum ManifestError {
    /// A required tensor is absent.
    MissingTensor(String),
    /// A tensor has dimensions different from the published checkpoint.
    ShapeMismatch { name: String, expected: Vec<usize>, actual: Vec<usize> },
    /// A tensor uses a source element type other than F32.
    DTypeMismatch { name: String, expected: DType, actual: DType },
}

/// Mathematical value of a [`ManifestError`].
#[allow(inconsistent_fields)]
pub ghost enum ManifestErrorView {
    MissingTensor(Seq<char>),
    ShapeMismatch { name: Seq<char>, expected: Seq<usize>, actual: Seq<usize> },
    DTypeMismatch { name: Seq<char>, expected: DType, actual: DType },
}

impl View for ManifestError {
    type V = ManifestErrorView;

    open spec fn view(&self) -> ManifestErrorView {
        match self {
            ManifestError::MissingTensor(n) => ManifestErrorView::MissingTensor(n@),
            ManifestError::ShapeMismatch { name, expected, actual } => ManifestErrorView::ShapeMismatch {
                name: name@,
                expected: expected@,
                actual: actual@,
            },
            ManifestError::DTypeMismatch { name, expected, actual } => ManifestErrorView::DTypeMismatch {
                name: name@,
                expected: *expected,
                actual: *actual,
            },
        }
    }
}

// ---------------------------------------------------------------------------
// Tensor index
// ---------------------------------------------------------------------------

/// Tensor metadata keyed by checkpoint tensor name. Each name occurs once.
pub struct TensorIndex {
    entries: Vec<(String, TensorMetadata)>,
    contents: Ghost<Map<Seq<char>, TensorMetadataView>>,
}

/// Each name occurs once and the entries spell out exactly the map.
spec fn index_wf(entries: Seq<(String, TensorMetadata)>, contents: Map<Seq<char>, TensorMetadataView>) -> bool {
    &&& forall|i: int, j: int|
        0 <= i < j < entries.len() ==> #[trigger] entries[i].0@ != #[trigger] entries[j].0@
    &&& forall|i: int|
        0 <= i < entries.len() ==> {
            &&& contents.contains_key(#[trigger] entries[i].0@)
            &&& contents[entries[i].0@] == entries[i].1@
        }
    &&& forall|k: Seq<char>|
        #[trigger] contents.contains_key(k) ==> exists|i: int|
            0 <= i < entries.len() && #[trigger] entries[i].0@ == k
}

impl TensorIndex {
    #[verifier::type_invariant]
    spec fn wf(self) -> bool {
        index_wf(self.entries@, self.contents@)
    }

    /// The metadata each name maps to.
    pub closed spec fn view(&self) -> Map<Seq<char>, TensorMetadataView> {
        self.contents@
    }

    /// An index with no tensors.
    pub fn new() -> (r: Self)
        ensures
            r.view() == Map::<Seq<char>, TensorMetadataView>::empty(),
    {
        TensorIndex { entries: Vec::new(), contents: Ghost(Map::empty()) }
    }

    /// Position of `name` in the entry list, if present.
    fn position(&self, name: &str) -> (r: Option<usize>)
        ensures
            match r {
                Some(i) => i < self.entries@.len() && self.entries@[i as int].0@ == name@,
                None => forall|j: int| 0 <= j < self.entries@.len() ==> #[trigger] self.entries@[j].0@ != name@,
            },
    {
        let mut i: usize = 0;
        while i < self.entries.len()
            invariant
                i <= self.entries@.len(),
                forall|j: int| 0 <= j < i ==> #[trigger] self.entries@[j].0@ != name@,
            decreases self.entries.len() - i,
        {
            if str_equal(self.entries[i].0.as_str(), name) {
                return Some(i);
            }
            i += 1;
        }
        None
    }

    /// Inserts or replaces the metadata of `name`.
    pub fn insert(&mut self, name: String, metadata: TensorMetadata)
        ensures
            final(self).view() == old(self).view().insert(name@, metadata@),
    {
        proof { use_type_invariant(&*self); }
        match self.position(name.as_str()) {
            Some(i) => {
                let ghost key = name@;
                let ghost new_contents = self.contents@.insert(name@, metadata@);
                let ghost old_entries = self.entries@;
                let mut taken = TensorIndex::new();
                std::mem::swap(&mut taken, self);
                let TensorIndex { mut entries, contents: _ } = taken;
                entries.set(i, (name, metadata));
                assert forall|a: int, b: int|
                    0 <= a < b < entries@.len() implies #[trigger] entries@[a].0@ != #[trigger] entries@[b].0@ by {
                    if a != i && b != i {
                        assert(old_entries[a].0@ != old_entries[b].0@);
                    } else if a == i {
                        assert(old_entries[i as int].0@ != old_entries[b].0@);
                    } else {
                        assert(old_entries[a].0@ != old_entries[i as int].0@);
                    }
                }
                assert forall|j: int| 0 <= j < entries@.len() implies {
                    &&& new_contents.contains_key(#[trigger] entries@[j].0@)
                    &&& new_contents[entries@[j].0@] == entries@[j].1@
                } by {
                    if j != i {
                        assert(old_entries[j].0@ != old_entries[i as int].0@);
                    }
                }
                assert forall|k: Seq<char>| #[trigger] new_contents.contains_key(k) implies exists|j: int|
                    0 <= j < entries@.len() && #[trigger] entries@[j].0@ == k by {
                    if k != key {
                        let j = choose|j: int| 0 <= j < old_entries.len() && #[trigger] old_entries[j].0@ == k;
                        assert(entries@[j].0@ == k);
                    } else {
                        assert(entries@[i as int].0@ == k);
                    }
                }
                assert(index_wf(entries@, new_contents));
                *self = TensorIndex { entries, contents: Ghost(new_contents) };
            },
            None => {
                let ghost key = name@;
                let ghost new_contents = self.contents@.insert(name@, metadata@);
                let ghost old_entries = self.entries@;
                let mut taken = TensorIndex::new();
                std::mem::swap(&mut taken, self);
                let TensorIndex { mut entries, contents: _ } = taken;
                entries.push((name, metadata));
                assert forall|a: int, b: int|
                    0 <= a < b < entries@.len() implies #[trigger] entries@[a].0@ != #[trigger] entries@[b].0@ by {
                    if b == old_entries.len() {
                        assert(old_entries[a].0@ != key);
                    } else {
                        assert(old_entries[a].0@ != old_entries[b].0@);
                    }
                }
                assert forall|j: int| 0 <= j < entries@.len() implies {
                    &&& new_contents.contains_key(#[trigger] entries@[j].0@)
                    &&& new_contents[entries@[j].0@] == entries@[j].1@
                } by {
                    if j < old_entries.len() {
                        assert(old_entries[j].0@ != key);
                        assert(entries@[j] == old_entries[j]);
                    }
                }
                assert forall|k: Seq<char>| #[trigger] new_contents.contains_key(k) implies exists|j: int|
                    0 <= j < entries@.len() && #[trigger] entries@[j].0@ == k by {
                    if k != key {
                        let j = choose|j: int| 0 <= j < old_entries.len() && #[trigger] old_entries[j].0@ == k;
                        assert(entries@[j].0@ == k);
                    } else {
                        assert(entries@[old_entries.len() as int].0@ == k);
                    }
                }
                assert(index_wf(entries@, new_contents));
                *self = TensorIndex { entries, contents: Ghost(new_contents) };
            },
        }
    }

    /// Removes `name`, returning its metadata if it was present.
    pub fn remove(&mut self, name: &str) -> (r: Option<TensorMetadata>)
        ensures
            final(self).view() == old(self).view().remove(name@),
            match r {
                Some(m) => old(self).view().contains_key(name@) && m@ == old(self).view()[name@],
                None => !old(self).view().contains_key(name@),
            },
    {
        proof { use_type_invariant(&*self); }
        match self.position(name) {
            Some(i) => {
                let ghost key = name@;
                let ghost new_contents = self.contents@.remove(name@);
                let ghost old_entries = self.entries@;
                let mut taken = TensorIndex::new();
                std::mem::swap(&mut taken, self);
                let TensorIndex { mut entries, contents: _ } = taken;
                let removed = entries.remove(i);
                assert(removed == old_entries[i as int]);
                assert forall|j: int| 0 <= j < entries@.len() implies entries@[j] == old_entries[if j < i { j } else { j + 1 }] by {}
                assert forall|a: int, b: int|
                    0 <= a < b < entries@.len() implies #[trigger] entries@[a].0@ != #[trigger] entries@[b].0@ by {
                    let a0 = if a < i { a } else { a + 1 };
                    let b0 = if b < i { b } else { b + 1 };
                    assert(old_entries[a0].0@ != old_entries[b0].0@);
                }
                assert forall|j: int| 0 <= j < entries@.len() implies {
                    &&& new_contents.contains_key(#[trigger] entries@[j].0@)
                    &&& new_contents[entries@[j].0@] == entries@[j].1@
                } by {
                    let j0 = if j < i { j } else { j + 1 };
                    assert(old_entries[j0].0@ != old_entries[i as int].0@);
                }
                assert forall|k: Seq<char>| #[trigger] new_contents.contains_key(k) implies exists|j: int|
                    0 <= j < entries@.len() && #[trigger] entries@[j].0@ == k by {
                    let j0 = choose|j: int| 0 <= j < old_entries.len() && #[trigger] old_entries[j].0@ == k;
                    assert(j0 != i);
                    let j = if j0 < i { j0 } else { j0 - 1 };
                    assert(entries@[j].0@ == k);
                }
                assert(index_wf(entries@, new_contents));
                *self = TensorIndex { entries, contents: Ghost(new_contents) };
                Some(removed.1)
            },
            None => {
                proof {
                    if self.contents@.contains_key(name@) {
                        let j = choose|j: int| 0 <= j < self.entries@.len() && #[trigger] self.entries@[j].0@ == name@;
                    }
                    assert(self.contents@.remove(name@) =~= self.contents@);
                }
                None
            },
        }
    }

    /// The metadata of `name`, if present.
    pub fn get(&self, name: &str) -> (r: Option<&TensorMetadata>)
        ensures
            match r {
                Some(m) => self.view().contains_key(name@) && m@ == self.view()[name@],
                None => !self.view().contains_key(name@),
            },
    {
        proof { use_type_invariant(self); }
        match self.position(name) {
            Some(i) => Some(&self.entries[i].1),
            None => {
                proof {
                    if self.contents@.contains_key(name@) {
                        let j = choose|j: int| 0 <= j < self.entries@.len() && #[trigger] self.entries@[j].0@ == name@;
                    }
                }
                None
            },
        }
    }
}

} // verus!

verus! {

// ---------------------------------------------------------------------------
// The published layout
// ---------------------------------------------------------------------------

/// A tensor stored in half precision, shape unchanged.
pub open spec fn f16_tensor(name: Seq<char>, shape: Seq<usize>) -> SpecTensor {
    SpecTensor {
        name,
        source_shape: shape,
        artifact_shape: shape,
        storage: Storage::F16,
        transform: TensorTransform::Identity,
    }
}

/// A matrix stored as affine INT8 in groups of 128, shape unchanged.
pub open spec fn int8_tensor(name: Seq<char>, shape: Seq<usize>) -> SpecTensor {
    SpecTensor {
        name,
        source_shape: shape,
        artifact_shape: shape,
        storage: Storage::Int8Affine { group_size: 128 },
        transform: TensorTransform::Identity,
    }
}

/// A pointwise kernel stored as affine INT8 in groups of 128, its trailing
/// unit dimensions squeezed away.
pub open spec fn int8_pointwise_tensor(name: Seq<char>, shape: Seq<usize>) -> SpecTensor {
    SpecTensor {
        name,
        source_shape: shape,
        artifact_shape: shape.take(2),
        storage: Storage::Int8Affine { group_size: 128 },
        transform: TensorTransform::SqueezeTrailingUnitDimensions,
    }
}

/// `prefix`, the decimal rendering of `index`, then `suffix`.
pub open spec fn indexed_name(prefix: Seq<char>, index: nat, suffix: Seq<char>) -> Seq<char> {
    prefix + decimal(index) + suffix
}

/// The convolution-module tensors of one FastConformer block.
pub open spec fn layer_conv_tensors(layer: nat) -> Seq<SpecTensor> {
    let p = "encoder.layers."@;
    seq![
        f16_tensor(indexed_name(p, layer, ".conv.depthwise_conv.weight"@), seq![1024, 1, 9]),
        f16_tensor(indexed_name(p, layer, ".conv.norm.weight"@), seq![1024]),
        f16_tensor(indexed_name(p, layer, ".conv.norm.bias"@), seq![1024]),
        int8_pointwise_tensor(indexed_name(p, layer, ".conv.pointwise_conv1.weight"@), seq![2048, 1024, 1]),
        int8_pointwise_tensor(indexed_name(p, layer, ".conv.pointwise_conv2.weight"@), seq![1024, 1024, 1]),
    ]
}

/// The feed-forward tensors of one FastConformer block.
pub open spec fn layer_feed_forward_tensors(layer: nat) -> Seq<SpecTensor> {
    let p = "encoder.layers."@;
    seq![
        int8_tensor(indexed_name(p, layer, ".feed_forward1.linear1.weight"@), seq![4096, 1024]),
        int8_tensor(indexed_name(p, layer, ".feed_forward1.linear2.weight"@), seq![1024, 4096]),
        int8_tensor(indexed_name(p, layer, ".feed_forward2.linear1.weight"@), seq![4096, 1024]),
        int8_tensor(indexed_name(p, layer, ".feed_forward2.linear2.weight"@), seq![1024, 4096]),
    ]
}

/// The layer-normalization tensors of one FastConformer block.
pub open spec fn layer_norm_tensors(layer: nat) -> Seq<SpecTensor> {
    let p = "encoder.layers."@;
    seq![
        f16_tensor(indexed_name(p, layer, ".norm_conv.weight"@), seq![1024]),
        f16_tensor(indexed_name(p, layer, ".norm_conv.bias"@), seq![1024]),
        f16_tensor(indexed_name(p, layer, ".norm_feed_forward1.weight"@), seq![1024]),
        f16_tensor(indexed_name(p, layer, ".norm_feed_forward1.bias"@), seq![1024]),
        f16_tensor(indexed_name(p, layer, ".norm_feed_forward2.weight"@), seq![1024]),
        f16_tensor(indexed_name(p, layer, ".norm_feed_forward2.bias"@), seq![1024]),
        f16_tensor(indexed_name(p, layer, ".norm_out.weight"@), seq![1024]),
        f16_tensor(indexed_name(p, layer, ".norm_out.bias"@), seq![1024]),
        f16_tensor(indexed_name(p, layer, ".norm_self_att.weight"@), seq![1024]),
        f16_tensor(indexed_name(p, layer, ".norm_self_att.bias"@), seq![1024]),
    ]
}

/// The self-attention tensors of one FastConformer block.
pub open spec fn layer_attention_tensors(layer: nat) -> Seq<SpecTensor> {
    let p = "encoder.layers."@;
    seq![
        f16_tensor(indexed_name(p, layer, ".self_attn.bias_u"@), seq![8, 128]),
        f16_tensor(indexed_name(p, layer, ".self_attn.bias_v"@), seq![8, 128]),
        int8_tensor(indexed_name(p, layer, ".self_attn.k_proj.weight"@), seq![1024, 1024]),
        int8_tensor(indexed_name(p, layer, ".self_attn.o_proj.weight"@), seq![1024, 1024]),
        int8_tensor(indexed_name(p, layer, ".self_attn.q_proj.weight"@), seq![1024, 1024]),
        int8_tensor(indexed_name(p, layer, ".self_attn.relative_k_proj.weight"@), seq![1024, 1024]),
        int8_tensor(indexed_name(p, layer, ".self_attn.v_proj.weight"@), seq![1024, 1024]),
    ]
}

/// The 26 tensors of one FastConformer block, in manifest order.
pub open spec fn encoder_layer_tensors(layer: nat) -> Seq<SpecTensor> {
    layer_conv_tensors(layer) + layer_feed_forward_tensors(layer) + layer_norm_tensors(layer)
        + layer_attention_tensors(layer)
}

/// The tensors of the first `count` FastConformer blocks.
pub open spec fn encoder_tensors(count: nat) -> Seq<SpecTensor>
    decreases count,
{
    if count == 0 {
        Seq::empty()
    } else {
        encoder_tensors((count - 1) as nat) + encoder_layer_tensors((count - 1) as nat)
    }
}

/// The four tensors of one depthwise-separable subsampling stage.
pub open spec fn subsampling_stage_tensors(stage: nat) -> Seq<SpecTensor> {
    let p = "encoder.subsampling.layers."@;
    seq![
        f16_tensor(indexed_name(p, stage, ".depthwise_conv.bias"@), seq![256]),
        f16_tensor(indexed_name(p, stage, ".depthwise_conv.weight"@), seq![256, 1, 3, 3]),
        f16_tensor(indexed_name(p, stage, ".pointwise_conv.bias"@), seq![256]),
        int8_pointwise_tensor(indexed_name(p, stage, ".pointwise_conv.weight"@), seq![256, 256, 1, 1]),
    ]
}

/// The subsampling stem, both stages, the subsampling projection, the
/// encoder and prompt projectors.
pub open spec fn front_tensors() -> Seq<SpecTensor> {
    seq![
        f16_tensor("encoder.subsampling.conv_in.bias"@, seq![256]),
        f16_tensor("encoder.subsampling.conv_in.weight"@, seq![256, 1, 3, 3]),
    ] + subsampling_stage_tensors(0) + subsampling_stage_tensors(1) + seq![
        f16_tensor("encoder.subsampling.linear.bias"@, seq![1024]),
        int8_tensor("encoder.subsampling.linear.weight"@, seq![1024, 4352]),
        int8_tensor("encoder_projector.weight"@, seq![640, 1024]),
        f16_tensor("encoder_projector.bias"@, seq![640]),
        int8_tensor("prompt_projector.linear_1.weight"@, seq![2048, 1152]),
        f16_tensor("prompt_projector.linear_1.bias"@, seq![2048]),
        int8_tensor("prompt_projector.linear_2.weight"@, seq![1024, 2048]),
        f16_tensor("prompt_projector.linear_2.bias"@, seq![1024]),
    ]
}

/// The four tensors of one prediction-network LSTM layer.
pub open spec fn lstm_layer_tensors(layer: nat) -> Seq<SpecTensor> {
    seq![
        int8_tensor(indexed_name("decoder.lstm.weight_ih_l"@, layer, ""@), seq![2560, 640]),
        int8_tensor(indexed_name("decoder.lstm.weight_hh_l"@, layer, ""@), seq![2560, 640]),
        f16_tensor(indexed_name("decoder.lstm.bias_ih_l"@, layer, ""@), seq![2560]),
        f16_tensor(indexed_name("decoder.lstm.bias_hh_l"@, layer, ""@), seq![2560]),
    ]
}

/// The prediction network and the joint head.
pub open spec fn decoder_tensors() -> Seq<SpecTensor> {
    seq![int8_tensor("decoder.embedding.weight"@, seq![13088, 640])] + lstm_layer_tensors(0)
        + lstm_layer_tensors(1) + seq![
        int8_tensor("decoder.decoder_projector.weight"@, seq![640, 640]),
        f16_tensor("decoder.decoder_projector.bias"@, seq![640]),
        int8_tensor("joint.head.weight"@, seq![13088, 640]),
        f16_tensor("joint.head.bias"@, seq![13088]),
    ]
}

/// The full published checkpoint layout, in manifest order.
pub open spec fn nemotron_tensors() -> Seq<SpecTensor> {
    encoder_tensors(24) + front_tensors() + decoder_tensors()
}

/// `tensor` with its affine INT8 storage, if it has one, in groups of
/// `group_size`.
pub open spec fn regroup(tensor: SpecTensor, group_size: usize) -> SpecTensor {
    match tensor.storage {
        Storage::Int8Affine { .. } => SpecTensor {
            name: tensor.name,
            source_shape: tensor.source_shape,
            artifact_shape: tensor.artifact_shape,
            storage: Storage::Int8Affine { group_size },
            transform: tensor.transform,
        },
        _ => tensor,
    }
}

/// `tensors` with every affine INT8 tensor in groups of `group_size`.
pub open spec fn regrouped(tensors: Seq<SpecTensor>, group_size: usize) -> Seq<SpecTensor> {
    tensors.map_values(|t: SpecTensor| regroup(t, group_size))
}

/// Whether groups of `group_size` split the rows of every affine INT8
/// tensor of `tensors`: the size is positive and divides each such
/// tensor's last (input) dimension.
pub open spec fn groups_fit(tensors: Seq<SpecTensor>, group_size: usize) -> bool {
    &&& group_size > 0
    &&& forall|i: int| 0 <= i < tensors.len() && (#[trigger] tensors[i]).storage is Int8Affine ==> {
        &&& tensors[i].artifact_shape.len() > 0
        &&& tensors[i].artifact_shape.last() % group_size == 0
    }
}

/// Regrouping distributes over concatenation.
proof fn lemma_regrouped_concat(a: Seq<SpecTensor>, b: Seq<SpecTensor>, group_size: usize)
    ensures
        regrouped(a + b, group_size) == regrouped(a, group_size) + regrouped(b, group_size),
{
    assert(regrouped(a + b, group_size) =~= regrouped(a, group_size) + regrouped(b, group_size));
}

/// The blocks of the published layout already use groups of 128.
proof fn lemma_blocks_in_groups_of_128(layer: nat)
    ensures
        regrouped(layer_conv_tensors(layer), 128) == layer_conv_tensors(layer),
        regrouped(layer_feed_forward_tensors(layer), 128) == layer_feed_forward_tensors(layer),
        regrouped(layer_norm_tensors(layer), 128) == layer_norm_tensors(layer),
        regrouped(layer_attention_tensors(layer), 128) == layer_attention_tensors(layer),
        regrouped(subsampling_stage_tensors(layer), 128) == subsampling_stage_tensors(layer),
        regrouped(lstm_layer_tensors(layer), 128) == lstm_layer_tensors(layer),
{
    assert(regrouped(layer_conv_tensors(layer), 128) =~= layer_conv_tensors(layer));
    assert(regrouped(layer_feed_forward_tensors(layer), 128) =~= layer_feed_forward_tensors(layer));
    assert(regrouped(layer_norm_tensors(layer), 128) =~= layer_norm_tensors(layer));
    assert(regrouped(layer_attention_tensors(layer), 128) =~= layer_attention_tensors(layer));
    assert(regrouped(subsampling_stage_tensors(layer), 128) =~= subsampling_stage_tensors(layer));
    assert(regrouped(lstm_layer_tensors(layer), 128) =~= lstm_layer_tensors(layer));
}

proof fn lemma_encoder_in_groups_of_128(count: nat)
    ensures
        regrouped(encoder_tensors(count), 128) == encoder_tensors(count),
    decreases count,
{
    if count > 0 {
        let layer = (count - 1) as nat;
        lemma_encoder_in_groups_of_128(layer);
        lemma_blocks_in_groups_of_128(layer);
        let c = layer_conv_tensors(layer);
        let f = layer_feed_forward_tensors(layer);
        let n = layer_norm_tensors(layer);
        let a = layer_attention_tensors(layer);
        lemma_regrouped_concat(c, f, 128);
        lemma_regrouped_concat(c + f, n, 128);
        lemma_regrouped_concat(c + f + n, a, 128);
        lemma_regrouped_concat(encoder_tensors(layer), encoder_layer_tensors(layer), 128);
    }
}

/// The published layout stores every affine INT8 tensor in groups of 128.
pub proof fn lemma_published_groups()
    ensures
        regrouped(nemotron_tensors(), 128) == nemotron_tensors(),
{
    lemma_encoder_in_groups_of_128(24);
    lemma_blocks_in_groups_of_128(0);
    lemma_blocks_in_groups_of_128(1);
    let stem = seq![
        f16_tensor("encoder.subsampling.conv_in.bias"@, seq![256]),
        f16_tensor("encoder.subsampling.conv_in.weight"@, seq![256, 1, 3, 3]),
    ];
    let projections = seq![
        f16_tensor("encoder.subsampling.linear.bias"@, seq![1024]),
        int8_tensor("encoder.subsampling.linear.weight"@, seq![1024, 4352]),
        int8_tensor("encoder_projector.weight"@, seq![640, 1024]),
        f16_tensor("encoder_projector.bias"@, seq![640]),
        int8_tensor("prompt_projector.linear_1.weight"@, seq![2048, 1152]),
        f16_tensor("prompt_projector.linear_1.bias"@, seq![2048]),
        int8_tensor("prompt_projector.linear_2.weight"@, seq![1024, 2048]),
        f16_tensor("prompt_projector.linear_2.bias"@, seq![1024]),
    ];
    assert(regrouped(stem, 128) =~= stem);
    assert(regrouped(projections, 128) =~= projections);
    let s0 = subsampling_stage_tensors(0);
    let s1 = subsampling_stage_tensors(1);
    lemma_regrouped_concat(stem, s0, 128);
    lemma_regrouped_concat(stem + s0, s1, 128);
    lemma_regrouped_concat(stem + s0 + s1, projections, 128);
    assert(front_tensors() == stem + s0 + s1 + projections);
    let embedding = seq![int8_tensor("decoder.embedding.weight"@, seq![13088, 640])];
    let heads = seq![
        int8_tensor("decoder.decoder_projector.weight"@, seq![640, 640]),
        f16_tensor("decoder.decoder_projector.bias"@, seq![640]),
        int8_tensor("joint.head.weight"@, seq![13088, 640]),
        f16_tensor("joint.head.bias"@, seq![13088]),
    ];
    assert(regrouped(embedding, 128) =~= embedding);
    assert(regrouped(heads, 128) =~= heads);
    let l0 = lstm_layer_tensors(0);
    let l1 = lstm_layer_tensors(1);
    lemma_regrouped_concat(embedding, l0, 128);
    lemma_regrouped_concat(embedding + l0, l1, 128);
    lemma_regrouped_concat(embedding + l0 + l1, heads, 128);
    assert(decoder_tensors() == embedding + l0 + l1 + heads);
    lemma_regrouped_concat(encoder_tensors(24), front_tensors(), 128);
    lemma_regrouped_concat(encoder_tensors(24) + front_tensors(), decoder_tensors(), 128);
}

/// Regrouping changes no tensor's name or shapes, so it keeps the parameter
/// count and the positivity of every dimension.
proof fn lemma_regrouped_parameters(tensors: Seq<SpecTensor>, group_size: usize)
    ensures
        parameter_total(regrouped(tensors, group_size)) == parameter_total(tensors),
        dims_positive(regrouped(tensors, group_size)) == dims_positive(tensors),
    decreases tensors.len(),
{
    if tensors.len() > 0 {
        lemma_regrouped_parameters(tensors.drop_last(), group_size);
        assert(regrouped(tensors, group_size).drop_last() =~= regrouped(tensors.drop_last(), group_size));
    }
}

} // verus!

verus! {

/// `prefix`, the decimal rendering of `index`, then `suffix`.
fn indexed(prefix: &str, index: usize, suffix: &str) -> (r: String)
    ensures
        r@ == indexed_name(prefix@, index as nat, suffix@),
{
    let mut s = String::from_str(prefix);
    push_decimal(&mut s, index as u64);
    s.append(suffix);
    s
}

fn push_spec(tensors: &mut Vec<TensorSpec>, spec: TensorSpec)
    ensures
        specs_view(final(tensors)@) == specs_view(old(tensors)@).push(spec@),
{
    tensors.push(spec);
    assert(specs_view(tensors@) =~= specs_view(old(tensors)@).push(spec@));
}

fn add_f16(tensors: &mut Vec<TensorSpec>, name: String, shape: Vec<usize>)
    ensures
        specs_view(final(tensors)@) == specs_view(old(tensors)@).push(f16_tensor(name@, shape@)),
{
    let artifact_shape = copy_vec(shape.as_slice());
    push_spec(
        tensors,
        TensorSpec {
            name,
            source_shape: shape,
            artifact_shape,
            storage: Storage::F16,
            transform: TensorTransform::Identity,
        },
    );
}

fn add_int8(tensors: &mut Vec<TensorSpec>, name: String, shape: Vec<usize>)
    requires
        shape@.len() == 2,
        shape@[1] % 128 == 0,
    ensures
        specs_view(final(tensors)@) == specs_view(old(tensors)@).push(int8_tensor(name@, shape@)),
{
    let artifact_shape = copy_vec(shape.as_slice());
    push_spec(
        tensors,
        TensorSpec {
            name,
            source_shape: shape,
            artifact_shape,
            storage: Storage::Int8Affine { group_size: 128 },
            transform: TensorTransform::Identity,
        },
    );
}

fn add_int8_pointwise(tensors: &mut Vec<TensorSpec>, name: String, shape: Vec<usize>)
    requires
        shape@.len() >= 3,
        forall|i: int| 2 <= i < shape@.len() ==> shape@[i] == 1,
        shape@[1] % 128 == 0,
    ensures
        specs_view(final(tensors)@) == specs_view(old(tensors)@).push(int8_pointwise_tensor(name@, shape@)),
{
    let artifact_shape = vec![shape[0], shape[1]];
    assert(artifact_shape@ =~= shape@.take(2));
    push_spec(
        tensors,
        TensorSpec {
            name,
            source_shape: shape,
            artifact_shape,
            storage: Storage::Int8Affine { group_size: 128 },
            transform: TensorTransform::SqueezeTrailingUnitDimensions,
        },
    );
}

fn shape1(a: usize) -> (v: Vec<usize>)
    ensures
        v@ == seq![a],
{
    let v = vec![a];
    assert(v@ =~= seq![a]);
    v
}

fn shape2(a: usize, b: usize) -> (v: Vec<usize>)
    ensures
        v@ == seq![a, b],
{
    let v = vec![a, b];
    assert(v@ =~= seq![a, b]);
    v
}

fn shape3(a: usize, b: usize, c: usize) -> (v: Vec<usize>)
    ensures
        v@ == seq![a, b, c],
{
    let v = vec![a, b, c];
    assert(v@ =~= seq![a, b, c]);
    v
}

fn shape4(a: usize, b: usize, c: usize, d: usize) -> (v: Vec<usize>)
    ensures
        v@ == seq![a, b, c, d],
{
    let v = vec![a, b, c, d];
    assert(v@ =~= seq![a, b, c, d]);
    v
}

/// Appends a half-precision tensor named `prefix`, `index`, `suffix`.
fn add_f16_at(tensors: &mut Vec<TensorSpec>, prefix: &str, index: usize, suffix: &str, shape: Vec<usize>)
    ensures
        specs_view(final(tensors)@) == specs_view(old(tensors)@).push(
            f16_tensor(indexed_name(prefix@, index as nat, suffix@), shape@),
        ),
{
    add_f16(tensors, indexed(prefix, index, suffix), shape);
}

/// Appends an INT8 matrix named `prefix`, `index`, `suffix`.
fn add_int8_at(tensors: &mut Vec<TensorSpec>, prefix: &str, index: usize, suffix: &str, shape: Vec<usize>)
    requires
        shape@.len() == 2,
        shape@[1] % 128 == 0,
    ensures
        specs_view(final(tensors)@) == specs_view(old(tensors)@).push(
            int8_tensor(indexed_name(prefix@, index as nat, suffix@), shape@),
        ),
{
    add_int8(tensors, indexed(prefix, index, suffix), shape);
}

/// Appends an INT8 pointwise kernel named `prefix`, `index`, `suffix`.
fn add_int8_pointwise_at(
    tensors: &mut Vec<TensorSpec>,
    prefix: &str,
    index: usize,
    suffix: &str,
    shape: Vec<usize>,
)
    requires
        shape@.len() >= 3,
        forall|i: int| 2 <= i < shape@.len() ==> shape@[i] == 1,
        shape@[1] % 128 == 0,
    ensures
        specs_view(final(tensors)@) == specs_view(old(tensors)@).push(
            int8_pointwise_tensor(indexed_name(prefix@, index as nat, suffix@), shape@),
        ),
{
    add_int8_pointwise(tensors, indexed(prefix, index, suffix), shape);
}

fn add_layer_conv(tensors: &mut Vec<TensorSpec>, layer: usize)
    ensures
        specs_view(final(tensors)@) == specs_view(old(tensors)@) + layer_conv_tensors(layer as nat),
{
    let ghost start = specs_view(tensors@);
    let p = "encoder.layers.";
    add_f16_at(tensors, p, layer, ".conv.depthwise_conv.weight", shape3(1024, 1, 9));
    add_f16_at(tensors, p, layer, ".conv.norm.weight", shape1(1024));
    add_f16_at(tensors, p, layer, ".conv.norm.bias", shape1(1024));
    add_int8_pointwise_at(tensors, p, layer, ".conv.pointwise_conv1.weight", shape3(2048, 1024, 1));
    add_int8_pointwise_at(tensors, p, layer, ".conv.pointwise_conv2.weight", shape3(1024, 1024, 1));
    assert(specs_view(tensors@) =~= start + layer_conv_tensors(layer as nat));
}

fn add_layer_feed_forward(tensors: &mut Vec<TensorSpec>, layer: usize)
    ensures
        specs_view(final(tensors)@) == specs_view(old(tensors)@) + layer_feed_forward_tensors(layer as nat),
{
    let ghost start = specs_view(tensors@);
    let p = "encoder.layers.";
    add_int8_at(tensors, p, layer, ".feed_forward1.linear1.weight", shape2(4096, 1024));
    add_int8_at(tensors, p, layer, ".feed_forward1.linear2.weight", shape2(1024, 4096));
    add_int8_at(tensors, p, layer, ".feed_forward2.linear1.weight", shape2(4096, 1024));
    add_int8_at(tensors, p, layer, ".feed_forward2.linear2.weight", shape2(1024, 4096));
    assert(specs_view(tensors@) =~= start + layer_feed_forward_tensors(layer as nat));
}

fn add_layer_norms(tensors: &mut Vec<TensorSpec>, layer: usize)
    ensures
        specs_view(final(tensors)@) == specs_view(old(tensors)@) + layer_norm_tensors(layer as nat),
{
    let ghost start = specs_view(tensors@);
    let p = "encoder.layers.";
    add_f16_at(tensors, p, layer, ".norm_conv.weight", shape1(1024));
    add_f16_at(tensors, p, layer, ".norm_conv.bias", shape1(1024));
    add_f16_at(tensors, p, layer, ".norm_feed_forward1.weight", shape1(1024));
    add_f16_at(tensors, p, layer, ".norm_feed_forward1.bias", shape1(1024));
    add_f16_at(tensors, p, layer, ".norm_feed_forward2.weight", shape1(1024));
    add_f16_at(tensors, p, layer, ".norm_feed_forward2.bias", shape1(1024));
    add_f16_at(tensors, p, layer, ".norm_out.weight", shape1(1024));
    add_f16_at(tensors, p, layer, ".norm_out.bias", shape1(1024));
    add_f16_at(tensors, p, layer, ".norm_self_att.weight", shape1(1024));
    add_f16_at(tensors, p, layer, ".norm_self_att.bias", shape1(1024));
    assert(specs_view(tensors@) =~= start + layer_norm_tensors(layer as nat));
}

fn add_layer_attention(tensors: &mut Vec<TensorSpec>, layer: usize)
    ensures
        specs_view(final(tensors)@) == specs_view(old(tensors)@) + layer_attention_tensors(layer as nat),
{
    let ghost start = specs_view(tensors@);
    let p = "encoder.layers.";
    add_f16_at(tensors, p, layer, ".self_attn.bias_u", shape2(8, 128));
    add_f16_at(tensors, p, layer, ".self_attn.bias_v", shape2(8, 128));
    add_int8_at(tensors, p, layer, ".self_attn.k_proj.weight", shape2(1024, 1024));
    add_int8_at(tensors, p, layer, ".self_attn.o_proj.weight", shape2(1024, 1024));
    add_int8_at(tensors, p, layer, ".self_attn.q_proj.weight", shape2(1024, 1024));
    add_int8_at(tensors, p, layer, ".self_attn.relative_k_proj.weight", shape2(1024, 1024));
    add_int8_at(tensors, p, layer, ".self_attn.v_proj.weight", shape2(1024, 1024));
    assert(specs_view(tensors@) =~= start + layer_attention_tensors(layer as nat));
}

/// Appends the 26 tensors of FastConformer block `layer`.
fn add_encoder_layer(tensors: &mut Vec<TensorSpec>, layer: usize)
    ensures
        specs_view(final(tensors)@) == specs_view(old(tensors)@) + encoder_layer_tensors(layer as nat),
{
    let ghost start = specs_view(tensors@);
    add_layer_conv(tensors, layer);
    add_layer_feed_forward(tensors, layer);
    add_layer_norms(tensors, layer);
    add_layer_attention(tensors, layer);
    assert(specs_view(tensors@) =~= start + encoder_layer_tensors(layer as nat));
}

} // verus!

verus! {

fn add_subsampling_stage(tensors: &mut Vec<TensorSpec>, stage: usize)
    ensures
        specs_view(final(tensors)@) == specs_view(old(tensors)@) + subsampling_stage_tensors(stage as nat),
{
    let ghost start = specs_view(tensors@);
    let p = "encoder.subsampling.layers.";
    add_f16_at(tensors, p, stage, ".depthwise_conv.bias", shape1(256));
    add_f16_at(tensors, p, stage, ".depthwise_conv.weight", shape4(256, 1, 3, 3));
    add_f16_at(tensors, p, stage, ".pointwise_conv.bias", shape1(256));
    add_int8_pointwise_at(tensors, p, stage, ".pointwise_conv.weight", shape4(256, 256, 1, 1));
    assert(specs_view(tensors@) =~= start + subsampling_stage_tensors(stage as nat));
}

fn add_front(tensors: &mut Vec<TensorSpec>)
    ensures
        specs_view(final(tensors)@) == specs_view(old(tensors)@) + front_tensors(),
{
    let ghost start = specs_view(tensors@);
    add_f16(tensors, String::from_str("encoder.subsampling.conv_in.bias"), shape1(256));
    add_f16(tensors, String::from_str("encoder.subsampling.conv_in.weight"), shape4(256, 1, 3, 3));
    let ghost stem = specs_view(tensors@);
    add_subsampling_stage(tensors, 0);
    add_subsampling_stage(tensors, 1);
    let ghost stages = specs_view(tensors@);
    add_f16(tensors, String::from_str("encoder.subsampling.linear.bias"), shape1(1024));
    add_int8(tensors, String::from_str("encoder.subsampling.linear.weight"), shape2(1024, 4352));
    add_int8(tensors, String::from_str("encoder_projector.weight"), shape2(640, 1024));
    add_f16(tensors, String::from_str("encoder_projector.bias"), shape1(640));
    add_int8(tensors, String::from_str("prompt_projector.linear_1.weight"), shape2(2048, 1152));
    add_f16(tensors, String::from_str("prompt_projector.linear_1.bias"), shape1(2048));
    add_int8(tensors, String::from_str("prompt_projector.linear_2.weight"), shape2(1024, 2048));
    add_f16(tensors, String::from_str("prompt_projector.linear_2.bias"), shape1(1024));
    assert(stem =~= start + seq![
        f16_tensor("encoder.subsampling.conv_in.bias"@, seq![256]),
        f16_tensor("encoder.subsampling.conv_in.weight"@, seq![256, 1, 3, 3]),
    ]);
    assert(specs_view(tensors@) =~= start + front_tensors());
}

fn add_lstm_layer(tensors: &mut Vec<TensorSpec>, layer: usize)
    ensures
        specs_view(final(tensors)@) == specs_view(old(tensors)@) + lstm_layer_tensors(layer as nat),
{
    let ghost start = specs_view(tensors@);
    add_int8_at(tensors, "decoder.lstm.weight_ih_l", layer, "", shape2(2560, 640));
    add_int8_at(tensors, "decoder.lstm.weight_hh_l", layer, "", shape2(2560, 640));
    add_f16_at(tensors, "decoder.lstm.bias_ih_l", layer, "", shape1(2560));
    add_f16_at(tensors, "decoder.lstm.bias_hh_l", layer, "", shape1(2560));
    assert(specs_view(tensors@) =~= start + lstm_layer_tensors(layer as nat));
}

fn add_decoder(tensors: &mut Vec<TensorSpec>)
    ensures
        specs_view(final(tensors)@) == specs_view(old(tensors)@) + decoder_tensors(),
{
    let ghost start = specs_view(tensors@);
    add_int8(tensors, String::from_str("decoder.embedding.weight"), shape2(13088, 640));
    add_lstm_layer(tensors, 0);
    add_lstm_layer(tensors, 1);
    add_int8(tensors, String::from_str("decoder.decoder_projector.weight"), shape2(640, 640));
    add_f16(tensors, String::from_str("decoder.decoder_projector.bias"), shape1(640));
    add_int8(tensors, String::from_str("joint.head.weight"), shape2(13088, 640));
    add_f16(tensors, String::from_str("joint.head.bias"), shape1(13088));
    assert(specs_view(tensors@) =~= start + decoder_tensors());
}

} // verus!

verus! {

// ---------------------------------------------------------------------------
// Parameter arithmetic
// ---------------------------------------------------------------------------

/// Number of scalars in a tensor of the given dimensions.
pub open spec fn shape_product(shape: Seq<usize>) -> nat
    decreases shape.len(),
{
    if shape.len() == 0 {
        1
    } else {
        (shape_product(shape.drop_last()) * shape.last()) as nat
    }
}

/// Number of scalars in all source tensors of `tensors`.
pub open spec fn parameter_total(tensors: Seq<SpecTensor>) -> nat
    decreases tensors.len(),
{
    if tensors.len() == 0 {
        0
    } else {
        parameter_total(tensors.drop_last()) + shape_product(tensors.last().source_shape)
    }
}

/// Every dimension of `shape` is at least one.
pub open spec fn shape_positive(shape: Seq<usize>) -> bool {
    forall|k: int| 0 <= k < shape.len() ==> #[trigger] shape[k] >= 1
}

/// Every dimension of every source tensor in `tensors` is at least one.
pub open spec fn dims_positive(tensors: Seq<SpecTensor>) -> bool
    decreases tensors.len(),
{
    if tensors.len() == 0 {
        true
    } else {
        dims_positive(tensors.drop_last()) && shape_positive(tensors.last().source_shape)
    }
}

proof fn lemma_parameter_total_concat(a: Seq<SpecTensor>, b: Seq<SpecTensor>)
    ensures
        parameter_total(a + b) == parameter_total(a) + parameter_total(b),
        dims_positive(a + b) == (dims_positive(a) && dims_positive(b)),
    decreases b.len(),
{
    if b.len() == 0 {
        assert(a + b =~= a);
    } else {
        lemma_parameter_total_concat(a, b.drop_last());
        assert((a + b).drop_last() =~= a + b.drop_last());
        assert((a + b).last() == b.last());
    }
}

proof fn lemma_dims_positive_index(tensors: Seq<SpecTensor>, i: int)
    requires
        dims_positive(tensors),
        0 <= i < tensors.len(),
    ensures
        shape_positive(tensors[i].source_shape),
    decreases tensors.len(),
{
    if i < tensors.len() - 1 {
        lemma_dims_positive_index(tensors.drop_last(), i);
        assert(tensors.drop_last()[i] == tensors[i]);
    }
}

proof fn lemma_parameter_total_prefix(tensors: Seq<SpecTensor>, i: int)
    requires
        0 <= i < tensors.len(),
    ensures
        parameter_total(tensors.take(i + 1)) == parameter_total(tensors.take(i)) + shape_product(tensors[i].source_shape),
        parameter_total(tensors.take(i + 1)) <= parameter_total(tensors),
    decreases tensors.len(),
{
    assert(tensors.take(i + 1).drop_last() =~= tensors.take(i));
    if i + 1 < tensors.len() {
        lemma_parameter_total_prefix(tensors.drop_last(), i);
        assert(tensors.drop_last().take(i + 1) =~= tensors.take(i + 1));
        assert(tensors.drop_last().take(i) =~= tensors.take(i));
    } else {
        assert(tensors.take(i + 1) =~= tensors);
    }
}

proof fn lemma_shape_product_prefix(shape: Seq<usize>, j: int)
    requires
        0 <= j < shape.len(),
        shape_positive(shape),
    ensures
        shape_product(shape.take(j + 1)) == shape_product(shape.take(j)) * shape[j],
        shape_product(shape.take(j + 1)) <= shape_product(shape),
        shape_product(shape.take(j)) <= shape_product(shape.take(j + 1)),
    decreases shape.len(),
{
    assert(shape.take(j + 1).drop_last() =~= shape.take(j));
    assert(shape[j] >= 1);
    assert(shape_product(shape.take(j)) * shape[j] >= shape_product(shape.take(j))) by (nonlinear_arith)
        requires shape[j] >= 1;
    if j + 1 < shape.len() {
        lemma_shape_product_prefix(shape.drop_last(), j);
        assert(shape.drop_last().take(j + 1) =~= shape.take(j + 1));
        assert(shape.drop_last().take(j) =~= shape.take(j));
        let rest = shape_product(shape.drop_last());
        assert(shape.last() >= 1);
        assert(rest * shape.last() >= rest) by (nonlinear_arith)
            requires shape.last() >= 1;
    } else {
        assert(shape.take(j + 1) =~= shape);
    }
}

proof fn lemma_product1(a: usize)
    ensures
        shape_product(seq![a]) == a,
        shape_positive(seq![a]) == (a >= 1),
{
    reveal_with_fuel(shape_product, 2);
    assert(seq![a].drop_last() =~= Seq::<usize>::empty());
    assert(shape_product(Seq::<usize>::empty()) == 1);
    assert(seq![a][0] == a);
    assert(seq![a].last() == a);
    assert(shape_product(seq![a]) == (shape_product(seq![a].drop_last()) * seq![a].last()) as nat);
}

proof fn lemma_product2(a: usize, b: usize)
    ensures
        shape_product(seq![a, b]) == a * b,
        shape_positive(seq![a, b]) == (a >= 1 && b >= 1),
{
    assert(seq![a, b].drop_last() =~= seq![a]);
    lemma_product1(a);
    assert(shape_positive(seq![a, b]) ==> seq![a, b][0] >= 1 && seq![a, b][1] >= 1);
}

proof fn lemma_product3(a: usize, b: usize, c: usize)
    ensures
        shape_product(seq![a, b, c]) == a * b * c,
        shape_positive(seq![a, b, c]) == (a >= 1 && b >= 1 && c >= 1),
{
    assert(seq![a, b, c].drop_last() =~= seq![a, b]);
    lemma_product2(a, b);
    assert(shape_positive(seq![a, b, c]) ==> seq![a, b, c][0] >= 1 && seq![a, b, c][1] >= 1 && seq![a, b, c][2] >= 1);
}

proof fn lemma_product4(a: usize, b: usize, c: usize, d: usize)
    ensures
        shape_product(seq![a, b, c, d]) == a * b * c * d,
        shape_positive(seq![a, b, c, d]) == (a >= 1 && b >= 1 && c >= 1 && d >= 1),
{
    assert(seq![a, b, c, d].drop_last() =~= seq![a, b, c]);
    lemma_product3(a, b, c);
    assert(shape_positive(seq![a, b, c, d]) ==> seq![a, b, c, d][0] >= 1 && seq![a, b, c, d][1] >= 1
        && seq![a, b, c, d][2] >= 1 && seq![a, b, c, d][3] >= 1);
}

proof fn lemma_layer_parameters(layer: nat)
    ensures
        parameter_total(encoder_layer_tensors(layer)) == 25_189_376,
        dims_positive(encoder_layer_tensors(layer)),
{
    lemma_product1(1024);
    lemma_product2(4096, 1024);
    lemma_product2(1024, 4096);
    lemma_product2(8, 128);
    lemma_product2(1024, 1024);
    reveal_with_fuel(parameter_total, 11);
    reveal_with_fuel(dims_positive, 11);
    let c = layer_conv_tensors(layer);
    let f = layer_feed_forward_tensors(layer);
    let n = layer_norm_tensors(layer);
    let a = layer_attention_tensors(layer);
    lemma_product3(1024, 1, 9);
    lemma_product3(2048, 1024, 1);
    lemma_product3(1024, 1024, 1);
    assert(parameter_total(c) == 3_156_992);
    assert(parameter_total(f) == 16_777_216);
    assert(parameter_total(n) == 10_240);
    assert(parameter_total(a) == 5_244_928);
    assert(dims_positive(c));
    assert(dims_positive(f));
    assert(dims_positive(n));
    assert(dims_positive(a));
    lemma_parameter_total_concat(c, f);
    lemma_parameter_total_concat(c + f, n);
    lemma_parameter_total_concat(c + f + n, a);
}

} // verus!

verus! {

proof fn lemma_encoder_parameters(count: nat)
    ensures
        parameter_total(encoder_tensors(count)) == 25_189_376 * count,
        dims_positive(encoder_tensors(count)),
        encoder_tensors(count).len() == 26 * count,
    decreases count,
{
    if count == 0 {
        assert(parameter_total(encoder_tensors(0)) == 0);
    } else {
        let prev = (count - 1) as nat;
        lemma_encoder_parameters(prev);
        lemma_layer_parameters(prev);
        lemma_parameter_total_concat(encoder_tensors(prev), encoder_layer_tensors(prev));
    }
}

proof fn lemma_front_parameters()
    ensures
        parameter_total(front_tensors()) == 9_712_256,
        dims_positive(front_tensors()),
        front_tensors().len() == 18,
{
    reveal_with_fuel(parameter_total, 9);
    reveal_with_fuel(dims_positive, 9);
    lemma_product1(256);
    lemma_product1(1024);
    lemma_product1(640);
    lemma_product1(2048);
    lemma_product4(256, 1, 3, 3);
    lemma_product4(256, 256, 1, 1);
    lemma_product2(1024, 4352);
    lemma_product2(640, 1024);
    lemma_product2(2048, 1152);
    lemma_product2(1024, 2048);
    let stem = seq![
        f16_tensor("encoder.subsampling.conv_in.bias"@, seq![256]),
        f16_tensor("encoder.subsampling.conv_in.weight"@, seq![256, 1, 3, 3]),
    ];
    let tail = seq![
        f16_tensor("encoder.subsampling.linear.bias"@, seq![1024]),
        int8_tensor("encoder.subsampling.linear.weight"@, seq![1024, 4352]),
        int8_tensor("encoder_projector.weight"@, seq![640, 1024]),
        f16_tensor("encoder_projector.bias"@, seq![640]),
        int8_tensor("prompt_projector.linear_1.weight"@, seq![2048, 1152]),
        f16_tensor("prompt_projector.linear_1.bias"@, seq![2048]),
        int8_tensor("prompt_projector.linear_2.weight"@, seq![1024, 2048]),
        f16_tensor("prompt_projector.linear_2.bias"@, seq![1024]),
    ];
    let s0 = subsampling_stage_tensors(0);
    let s1 = subsampling_stage_tensors(1);
    assert(parameter_total(stem) == 2560);
    assert(parameter_total(s0) == 68_352);
    assert(parameter_total(s1) == 68_352);
    assert(parameter_total(tail) == 9_572_992);
    assert(dims_positive(stem));
    assert(dims_positive(s0));
    assert(dims_positive(s1));
    assert(dims_positive(tail));
    lemma_parameter_total_concat(stem, s0);
    lemma_parameter_total_concat(stem + s0, s1);
    lemma_parameter_total_concat(stem + s0 + s1, tail);
}

proof fn lemma_decoder_parameters()
    ensures
        parameter_total(decoder_tensors()) == 23_739_808,
        dims_positive(decoder_tensors()),
        decoder_tensors().len() == 13,
{
    reveal_with_fuel(parameter_total, 5);
    reveal_with_fuel(dims_positive, 5);
    lemma_product1(2560);
    lemma_product1(640);
    lemma_product1(13088);
    lemma_product2(13088, 640);
    lemma_product2(2560, 640);
    lemma_product2(640, 640);
    let head = seq![int8_tensor("decoder.embedding.weight"@, seq![13088, 640])];
    let l0 = lstm_layer_tensors(0);
    let l1 = lstm_layer_tensors(1);
    let tail = seq![
        int8_tensor("decoder.decoder_projector.weight"@, seq![640, 640]),
        f16_tensor("decoder.decoder_projector.bias"@, seq![640]),
        int8_tensor("joint.head.weight"@, seq![13088, 640]),
        f16_tensor("joint.head.bias"@, seq![13088]),
    ];
    assert(parameter_total(head) == 8_376_320);
    assert(parameter_total(l0) == 3_281_920);
    assert(parameter_total(l1) == 3_281_920);
    assert(parameter_total(tail) == 8_799_648);
    assert(dims_positive(head));
    assert(dims_positive(l0));
    assert(dims_positive(l1));
    assert(dims_positive(tail));
    lemma_parameter_total_concat(head, l0);
    lemma_parameter_total_concat(head + l0, l1);
    lemma_parameter_total_concat(head + l0 + l1, tail);
}

/// `tensors` plans a tensor named `name` that is read with shape `shape`
/// and stored with it.
pub open spec fn planned_with_shape(tensors: Seq<SpecTensor>, name: Seq<char>, shape: Seq<usize>) -> bool {
    exists|i: int|
        0 <= i < tensors.len() && #[trigger] tensors[i].name == name && tensors[i].source_shape == shape
            && tensors[i].artifact_shape == shape
}

/// Position `26 * layer + j` of the first `count` blocks is entry `j` of
/// block `layer`.
proof fn lemma_encoder_entry(count: nat, layer: nat, j: int)
    requires
        layer < count,
        0 <= j < 26,
    ensures
        encoder_tensors(count).len() == 26 * count,
        encoder_tensors(count)[26 * layer + j] == encoder_layer_tensors(layer)[j],
    decreases count,
{
    lemma_encoder_parameters(count);
    let prev = (count - 1) as nat;
    lemma_encoder_parameters(prev);
    if layer < prev {
        lemma_encoder_entry(prev, layer, j);
    }
}

/// In each of the 24 encoder blocks both feed-forward modules expand 1024
/// features to 4096 and project back: `feed_forward1` and `feed_forward2`
/// each plan `linear1.weight` as `[4096, 1024]` and `linear2.weight` as
/// `[1024, 4096]`.
pub proof fn lemma_feed_forward_shapes(layer: nat)
    requires
        layer < 24,
    ensures
        planned_with_shape(nemotron_tensors(), "encoder.layers."@ + decimal(layer) + ".feed_forward1.linear1.weight"@,
            seq![4096usize, 1024usize]),
        planned_with_shape(nemotron_tensors(), "encoder.layers."@ + decimal(layer) + ".feed_forward1.linear2.weight"@,
            seq![1024usize, 4096usize]),
        planned_with_shape(nemotron_tensors(), "encoder.layers."@ + decimal(layer) + ".feed_forward2.linear1.weight"@,
            seq![4096usize, 1024usize]),
        planned_with_shape(nemotron_tensors(), "encoder.layers."@ + decimal(layer) + ".feed_forward2.linear2.weight"@,
            seq![1024usize, 4096usize]),
{
    let t = nemotron_tensors();
    let e = encoder_tensors(24);
    lemma_encoder_parameters(24);
    let block = encoder_layer_tensors(layer);
    let f = layer_feed_forward_tensors(layer);
    assert(26 * layer + 8 < e.len());
    assert(t.len() >= e.len());
    assert forall|k: int| 0 <= k < 4 implies #[trigger] t[26 * layer + 5 + k] == f[k] by {
        lemma_encoder_entry(24, layer, 5 + k);
        assert(block[5 + k] == f[k]);
        assert(t[26 * layer + 5 + k] == e[26 * layer + 5 + k]);
    }
    assert(t[26 * layer + 5 + 0int] == f[0]);
    assert(t[26 * layer + 5 + 0int].name == "encoder.layers."@ + decimal(layer) + ".feed_forward1.linear1.weight"@);
    assert(t[26 * layer + 5 + 1int] == f[1]);
    assert(t[26 * layer + 5 + 1int].name == "encoder.layers."@ + decimal(layer) + ".feed_forward1.linear2.weight"@);
    assert(t[26 * layer + 5 + 2int] == f[2]);
    assert(t[26 * layer + 5 + 2int].name == "encoder.layers."@ + decimal(layer) + ".feed_forward2.linear1.weight"@);
    assert(t[26 * layer + 5 + 3int] == f[3]);
    assert(t[26 * layer + 5 + 3int].name == "encoder.layers."@ + decimal(layer) + ".feed_forward2.linear2.weight"@);
}

/// The published layout holds 655 tensors with 637,997,088 source
/// parameters, and no tensor has an empty dimension.
pub proof fn lemma_published_layout()
    ensures
        nemotron_tensors().len() == 655,
        parameter_total(nemotron_tensors()) == 637_997_088,
        dims_positive(nemotron_tensors()),
{
    lemma_encoder_parameters(24);
    lemma_front_parameters();
    lemma_decoder_parameters();
    lemma_parameter_total_concat(encoder_tensors(24), front_tensors());
    lemma_parameter_total_concat(encoder_tensors(24) + front_tensors(), decoder_tensors());
}

} // verus!

verus! {

// ---------------------------------------------------------------------------
// Validation against an index
// ---------------------------------------------------------------------------

/// What is wrong with `tensor` in `index`, checked in order: presence,
/// shape, then element type.
pub open spec fn tensor_problem(
    tensor: SpecTensor,
    index: Map<Seq<char>, TensorMetadataView>,
) -> Option<ManifestErrorView> {
    if !index.contains_key(tensor.name) {
        Some(ManifestErrorView::MissingTensor(tensor.name))
    } else if index[tensor.name].shape != tensor.source_shape {
        Some(
            ManifestErrorView::ShapeMismatch {
                name: tensor.name,
                expected: tensor.source_shape,
                actual: index[tensor.name].shape,
            },
        )
    } else if index[tensor.name].dtype != DType::F32 {
        Some(
            ManifestErrorView::DTypeMismatch {
                name: tensor.name,
                expected: DType::F32,
                actual: index[tensor.name].dtype,
            },
        )
    } else {
        None
    }
}

/// The problem of the first tensor from position `from` on that has one.
pub open spec fn first_problem(
    tensors: Seq<SpecTensor>,
    index: Map<Seq<char>, TensorMetadataView>,
    from: int,
) -> Option<ManifestErrorView>
    decreases tensors.len() - from,
{
    if from < 0 || from >= tensors.len() {
        None
    } else {
        match tensor_problem(tensors[from], index) {
            Some(e) => Some(e),
            None => first_problem(tensors, index, from + 1),
        }
    }
}

/// Position of the first tensor named `name`, if any.
pub open spec fn first_named(tensors: Seq<SpecTensor>, name: Seq<char>) -> Option<int> {
    if exists|i: int| 0 <= i < tensors.len() && tensors[i].name == name {
        Some(
            choose|i: int|
                0 <= i < tensors.len() && tensors[i].name == name && forall|j: int|
                    0 <= j < i ==> tensors[j].name != name,
        )
    } else {
        None
    }
}

/// Published checkpoint layout and conversion policy.
#[derive(Debug)]
pub struct ModelManifest {
    model_id: &'static str,
    encoder_layers: usize,
    vocab_size: usize,
    group_size: usize,
    tensors: Vec<TensorSpec>,
}

/// The message refusing affine INT8 groups of `group_size`.
pub open spec fn group_size_message(group_size: nat) -> Seq<char> {
    "affine INT8 group size "@ + decimal(group_size)
        + " must be positive and divide the input dimension of every quantized tensor"@
}

fn group_size_text(group_size: usize) -> (r: String)
    ensures
        r@ == group_size_message(group_size as nat),
{
    let mut text = String::from_str("affine INT8 group size ");
    push_decimal(&mut text, group_size as u64);
    text.append(" must be positive and divide the input dimension of every quantized tensor");
    text
}

impl ModelManifest {
    #[verifier::type_invariant]
    spec fn wf(self) -> bool {
        &&& self.model_id@ == "nvidia/nemotron-3.5-asr-streaming-0.6b"@
        &&& self.encoder_layers == 24
        &&& self.vocab_size == 13_088
        &&& specs_view(self.tensors@) == regrouped(nemotron_tensors(), self.group_size)
    }

    /// Builds the exact 655-tensor layout of the published checkpoint.
    pub fn nemotron_3_5() -> (m: Self)
        ensures
            m.model_id_view() == "nvidia/nemotron-3.5-asr-streaming-0.6b"@,
            m.group_size_view() == 128,
            m.tensors_view() == nemotron_tensors(),
    {
        proof { lemma_published_groups(); }
        let mut tensors: Vec<TensorSpec> = Vec::new();
        let mut layer: usize = 0;
        assert(specs_view(tensors@) =~= encoder_tensors(0));
        while layer < 24
            invariant
                layer <= 24,
                specs_view(tensors@) == encoder_tensors(layer as nat),
            decreases 24 - layer,
        {
            add_encoder_layer(&mut tensors, layer);
            layer += 1;
        }
        add_front(&mut tensors);
        add_decoder(&mut tensors);
        ModelManifest {
            model_id: "nvidia/nemotron-3.5-asr-streaming-0.6b",
            encoder_layers: 24,
            vocab_size: 13_088,
            group_size: 128,
            tensors,
        }
    }

    /// The published layout with every affine INT8 tensor in groups of
    /// `group_size`; refused unless such groups split the input dimension
    /// of every quantized tensor.
    pub fn nemotron_3_5_with_group_size(group_size: usize) -> (r: Result<Self, String>)
        ensures
            match r {
                Ok(m) => {
                    &&& groups_fit(nemotron_tensors(), group_size)
                    &&& m.model_id_view() == "nvidia/nemotron-3.5-asr-streaming-0.6b"@
                    &&& m.group_size_view() == group_size
                    &&& m.tensors_view() == regrouped(nemotron_tensors(), group_size)
                },
                Err(message) => {
                    &&& !groups_fit(nemotron_tensors(), group_size)
                    &&& message@ == group_size_message(group_size as nat)
                },
            },
    {
        let base = Self::nemotron_3_5();
        if group_size == 0 {
            return Err(group_size_text(group_size));
        }
        let specs = base.tensors.as_slice();
        let ghost ts = nemotron_tensors();
        let mut out: Vec<TensorSpec> = Vec::new();
        let mut i: usize = 0;
        assert(ts.take(0) =~= Seq::<SpecTensor>::empty());
        while i < specs.len()
            invariant
                specs_view(specs@) == ts,
                ts == nemotron_tensors(),
                group_size > 0,
                i <= specs@.len(),
                specs_view(out@) == regrouped(ts.take(i as int), group_size),
                forall|j: int| 0 <= j < i && (#[trigger] ts[j]).storage is Int8Affine ==> {
                    &&& ts[j].artifact_shape.len() > 0
                    &&& ts[j].artifact_shape.last() % group_size == 0
                },
            decreases specs.len() - i,
        {
            let spec = &specs[i];
            assert(ts[i as int] == spec@);
            let storage = match spec.storage {
                Storage::Int8Affine { .. } => {
                    let n = spec.artifact_shape.len();
                    if n == 0 || spec.artifact_shape[n - 1] % group_size != 0 {
                        return Err(group_size_text(group_size));
                    }
                    Storage::Int8Affine { group_size }
                },
                other => other,
            };
            let regrouped_spec = TensorSpec {
                name: spec.name.clone(),
                source_shape: copy_vec(spec.source_shape.as_slice()),
                artifact_shape: copy_vec(spec.artifact_shape.as_slice()),
                storage,
                transform: spec.transform,
            };
            assert(regrouped_spec@ == regroup(ts[i as int], group_size));
            push_spec(&mut out, regrouped_spec);
            assert(regrouped(ts.take(i as int), group_size).push(regroup(ts[i as int], group_size))
                =~= regrouped(ts.take(i + 1), group_size));
            i += 1;
        }
        assert(ts.take(i as int) =~= ts);
        Ok(ModelManifest {
            model_id: base.model_id,
            encoder_layers: 24,
            vocab_size: 13_088,
            group_size,
            tensors: out,
        })
    }

    /// Values per affine INT8 scale/bias group.
    pub closed spec fn group_size_view(&self) -> usize {
        self.group_size
    }

    /// Values per affine INT8 scale/bias group.
    pub fn group_size(&self) -> (r: usize)
        ensures
            r == self.group_size_view(),
    {
        self.group_size
    }

    /// The repository identifier, as characters.
    pub closed spec fn model_id_view(&self) -> Seq<char> {
        self.model_id@
    }

    /// The tensor specifications, as values.
    pub closed spec fn tensors_view(&self) -> Seq<SpecTensor> {
        specs_view(self.tensors@)
    }

    /// Hugging Face repository identifier.
    pub fn model_id(&self) -> (r: &str)
        ensures
            r@ == self.model_id_view(),
            r@ == "nvidia/nemotron-3.5-asr-streaming-0.6b"@,
    {
        proof { use_type_invariant(self); }
        self.model_id
    }

    /// Number of FastConformer blocks.
    pub fn encoder_layers(&self) -> (r: usize)
        ensures
            r == 24,
    {
        proof { use_type_invariant(self); }
        self.encoder_layers
    }

    /// Token count including the RNNT blank token.
    pub fn vocab_size(&self) -> (r: usize)
        ensures
            r == 13_088,
    {
        proof { use_type_invariant(self); }
        self.vocab_size
    }

    /// Ordered tensor specifications.
    pub fn tensors(&self) -> (r: &[TensorSpec])
        ensures
            specs_view(r@) == self.tensors_view(),
            specs_view(r@) == regrouped(nemotron_tensors(), self.group_size_view()),
    {
        proof { use_type_invariant(self); }
        self.tensors.as_slice()
    }

    /// Looks up a tensor by its published checkpoint name.
    pub fn tensor(&self, name: &str) -> (r: Option<&TensorSpec>)
        ensures
            match first_named(self.tensors_view(), name@) {
                Some(i) => r matches Some(t) && t@ == self.tensors_view()[i],
                None => r is None,
            },
    {
        proof { use_type_invariant(self); }
        let ghost ts = self.tensors_view();
        let mut i: usize = 0;
        while i < self.tensors.len()
            invariant
                specs_view(self.tensors@) == ts,
                ts == self.tensors_view(),
                i <= self.tensors@.len(),
                forall|j: int| 0 <= j < i ==> ts[j].name != name@,
            decreases self.tensors.len() - i,
        {
            assert(ts[i as int] == self.tensors@[i as int]@);
            if str_equal(self.tensors[i].name.as_str(), name) {
                proof {
                    assert(ts[i as int].name == name@);
                    assert(0 <= i < ts.len() && ts[i as int].name == name@);
                    assert(exists|k: int| 0 <= k < ts.len() && ts[k].name == name@);
                    assert(0 <= i < ts.len() && ts[i as int].name == name@ && forall|j: int|
                        0 <= j < i ==> ts[j].name != name@);
                    let k = choose|k: int|
                        0 <= k < ts.len() && ts[k].name == name@ && forall|j: int|
                            0 <= j < k ==> ts[j].name != name@;
                    assert(k == i) by {
                        if k < i {
                            assert(ts[k].name != name@);
                        } else if k > i {
                            assert(ts[i as int].name != name@);
                        }
                    }
                }
                return Some(&self.tensors[i]);
            }
            i += 1;
        }
        assert(!exists|k: int| 0 <= k < ts.len() && ts[k].name == name@) by {
            assert(forall|j: int| 0 <= j < ts.len() ==> ts[j].name != name@);
        }
        None
    }

    /// Returns the total number of scalar parameters in source tensors.
    pub fn parameter_count(&self) -> (r: usize)
        ensures
            r == parameter_total(self.tensors_view()),
            r == 637_997_088,
    {
        proof {
            use_type_invariant(self);
            lemma_published_layout();
            lemma_regrouped_parameters(nemotron_tensors(), self.group_size);
        }
        let ghost ts = self.tensors_view();
        let mut total: usize = 0;
        let mut i: usize = 0;
        assert(ts.take(0) =~= Seq::<SpecTensor>::empty());
        while i < self.tensors.len()
            invariant
                specs_view(self.tensors@) == ts,
                parameter_total(ts) == 637_997_088,
                dims_positive(ts),
                i <= self.tensors@.len(),
                total == parameter_total(ts.take(i as int)),
            decreases self.tensors.len() - i,
        {
            let shape = self.tensors[i].source_shape.as_slice();
            assert(shape@ == ts[i as int].source_shape);
            proof {
                lemma_parameter_total_prefix(ts, i as int);
                lemma_dims_positive_index(ts, i as int);
            }
            let mut product: usize = 1;
            let mut j: usize = 0;
            assert(shape@.take(0) =~= Seq::<usize>::empty());
            while j < shape.len()
                invariant
                    shape_positive(shape@),
                    j <= shape@.len(),
                    product == shape_product(shape@.take(j as int)),
                    total + shape_product(shape@) <= 637_997_088,
                decreases shape.len() - j,
            {
                proof { lemma_shape_product_prefix(shape@, j as int); }
                product = product * shape[j];
                j += 1;
            }
            assert(shape@.take(j as int) =~= shape@);
            total = total + product;
            i += 1;
        }
        assert(ts.take(i as int) =~= ts);
        total
    }

    /// Verifies all required tensors, shapes, and source dtypes.
    pub fn validate(&self, index: &TensorIndex) -> (r: Result<(), ManifestError>)
        ensures
            match first_problem(self.tensors_view(), index.view(), 0) {
                None => r is Ok,
                Some(e) => r matches Err(x) && x@ == e,
            },
            self.tensors_view() == regrouped(nemotron_tensors(), self.group_size_view()),
    {
        proof { use_type_invariant(self); }
        validate_specs(self.tensors.as_slice(), index)
    }
}

/// Checks every planned tensor against the source index, in plan order:
/// presence, then shape, then F32 element type.
pub fn validate_specs(specs: &[TensorSpec], index: &TensorIndex) -> (r: Result<(), ManifestError>)
    ensures
        match first_problem(specs_view(specs@), index.view(), 0) {
            None => r is Ok,
            Some(e) => r matches Err(x) && x@ == e,
        },
{
    let ghost ts = specs_view(specs@);
    let ghost idx = index.view();
    let mut i: usize = 0;
    while i < specs.len()
        invariant
            ts == specs_view(specs@),
            idx == index.view(),
            i <= specs@.len(),
            first_problem(ts, idx, 0) == first_problem(ts, idx, i as int),
        decreases specs.len() - i,
    {
        let spec = &specs[i];
        assert(ts[i as int] == spec@);
        match index.get(spec.name.as_str()) {
            None => {
                return Err(ManifestError::MissingTensor(spec.name.clone()));
            },
            Some(actual) => {
                if !usize_slices_equal(actual.shape.as_slice(), spec.source_shape.as_slice()) {
                    return Err(
                        ManifestError::ShapeMismatch {
                            name: spec.name.clone(),
                            expected: copy_vec(spec.source_shape.as_slice()),
                            actual: copy_vec(actual.shape.as_slice()),
                        },
                    );
                }
                match actual.dtype {
                    DType::F32 => {},
                    other => {
                        return Err(
                            ManifestError::DTypeMismatch {
                                name: spec.name.clone(),
                                expected: DType::F32,
                                actual: other,
                            },
                        );
                    },
                }
            },
        }
        i += 1;
    }
    Ok(())
}

} // verus!
