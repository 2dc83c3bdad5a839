//! Renderer-neutral docking scene core: identities, exact integer geometry,
//! presentation records, measurement manifests, and structural queries.

pub mod ids;
pub mod geometry;
pub mod records;
pub mod policy;
pub mod tab_strip;
pub mod occlusion;
pub mod collections;
pub mod manifest;
pub mod sorting;
pub mod junction;
pub mod lifecycle;
pub mod semantic;
pub mod plan;
pub mod validation;
pub mod compile;
pub mod revisions;
pub mod scene_set;

use vstd::prelude::*;

verus! {

} // verus!
