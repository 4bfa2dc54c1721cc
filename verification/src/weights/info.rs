use vstd::prelude::*;

use super::manifest::Storage;

verus! {

/// Public tensor information persisted in an artifact's manifest.
#[derive(Debug, Clone, PartialEq, Eq)]
pub struct ArtifactTensorInfo {
    /// Runtime tensor dimensions after conversion transforms.
    pub shape: Vec<usize>,
    /// Runtime storage policy.
    pub storage: Storage,
}

} // verus!
