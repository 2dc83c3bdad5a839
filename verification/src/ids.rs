//! Stable identities and monotonic revision counters.

use vstd::prelude::*;

verus! {

/// Stable identity of one docking root.
#[derive(Debug, Clone, Copy, PartialEq, Eq, Structural, PartialOrd, Ord, Hash, Default)]
pub struct RootId(pub u64);

impl RootId {
    /// Creates a root identity from its raw value.
    pub fn new(value: u64) -> (r: Self)
        ensures
            r.0 == value,
    {
        RootId(value)
    }
}

/// Stable identity of one workspace graph node.
#[derive(Debug, Clone, Copy, PartialEq, Eq, Structural, PartialOrd, Ord, Hash, Default)]
pub struct NodeId(pub u64);

impl NodeId {
    /// Creates a node identity from its raw value.
    pub fn new(value: u64) -> (r: Self)
        ensures
            r.0 == value,
    {
        NodeId(value)
    }
}

/// Stable identity of one dockable item.
#[derive(Debug, Clone, Copy, PartialEq, Eq, Structural, PartialOrd, Ord, Hash, Default)]
pub struct ItemId(pub u64);

impl ItemId {
    /// Creates an item identity from its raw value.
    pub fn new(value: u64) -> (r: Self)
        ensures
            r.0 == value,
    {
        ItemId(value)
    }
}

/// Stable identity of one logical presentation surface.
#[derive(Debug, Clone, Copy, PartialEq, Eq, Structural, PartialOrd, Ord, Hash, Default)]
pub struct SurfaceId(pub u64);

impl SurfaceId {
    /// Creates a surface identity from its raw value.
    pub fn new(value: u64) -> (r: Self)
        ensures
            r.0 == value,
    {
        SurfaceId(value)
    }
}

/// Stable identity of one contained-floating presentation.
#[derive(Debug, Clone, Copy, PartialEq, Eq, Structural, PartialOrd, Ord, Hash, Default)]
pub struct FloatingPresentationId(pub u64);

impl FloatingPresentationId {
    /// Creates a contained presentation identity from its raw value.
    pub fn new(value: u64) -> (r: Self)
        ensures
            r.0 == value,
    {
        FloatingPresentationId(value)
    }
}

/// Identity of the engine instance that issued a measurement ticket.
#[derive(Debug, Clone, Copy, PartialEq, Eq, Structural, PartialOrd, Ord, Hash, Default)]
pub struct EngineAuthorityDomainId(pub u64);

impl EngineAuthorityDomainId {
    /// Creates an authority-domain identity from its raw value.
    pub fn new(value: u64) -> (r: Self)
        ensures
            r.0 == value,
    {
        EngineAuthorityDomainId(value)
    }
}

/// Identity of one workspace lineage; replaced workspaces receive a new epoch.
#[derive(Debug, Clone, Copy, PartialEq, Eq, Structural, PartialOrd, Ord, Hash, Default)]
pub struct WorkspaceEpoch(pub u64);

impl WorkspaceEpoch {
    /// Creates a workspace epoch from its raw value.
    pub fn new(value: u64) -> (r: Self)
        ensures
            r.0 == value,
    {
        WorkspaceEpoch(value)
    }
}

/// Revision of one workspace inside its epoch.
#[derive(Debug, Clone, Copy, PartialEq, Eq, Structural, PartialOrd, Ord, Hash, Default)]
pub struct WorkspaceRevision(pub u64);

impl WorkspaceRevision {
    /// Creates a workspace revision from its raw value.
    pub fn new(value: u64) -> (r: Self)
        ensures
            r.0 == value,
    {
        WorkspaceRevision(value)
    }
}

/// Exact workspace version: lineage epoch plus revision.
#[derive(Debug, Clone, Copy, PartialEq, Eq, Structural, PartialOrd, Ord, Hash, Default)]
pub struct WorkspaceVersion {
    /// Workspace lineage.
    pub epoch: WorkspaceEpoch,
    /// Revision inside the lineage.
    pub revision: WorkspaceRevision,
}

impl WorkspaceVersion {
    /// Creates a workspace version.
    pub fn new(epoch: WorkspaceEpoch, revision: WorkspaceRevision) -> (r: Self)
        ensures
            r.epoch == epoch,
            r.revision == revision,
    {
        WorkspaceVersion { epoch, revision }
    }

    /// Returns the workspace lineage epoch.
    pub fn epoch(self) -> (r: WorkspaceEpoch)
        ensures
            r == self.epoch,
    {
        self.epoch
    }

    /// Returns the revision inside the lineage.
    pub fn revision(self) -> (r: WorkspaceRevision)
        ensures
            r == self.revision,
    {
        self.revision
    }
}

/// Revision of the presentation configuration used to compile scenes.
#[derive(Debug, Clone, Copy, PartialEq, Eq, Structural, PartialOrd, Ord, Hash, Default)]
pub struct PresentationConfigRevision(pub u64);

impl PresentationConfigRevision {
    /// Creates a configuration revision from its raw value.
    pub fn new(value: u64) -> (r: Self)
        ensures
            r.0 == value,
    {
        PresentationConfigRevision(value)
    }
}

/// Revision of the frozen docking policy snapshot.
#[derive(Debug, Clone, Copy, PartialEq, Eq, Structural, PartialOrd, Ord, Hash, Default)]
pub struct PolicyRevision(pub u64);

impl PolicyRevision {
    /// Creates a policy revision from its raw value.
    pub fn new(value: u64) -> (r: Self)
        ensures
            r.0 == value,
    {
        PolicyRevision(value)
    }
}

/// Monotonic identity of one core-derived semantic requirement manifest.
#[derive(Debug, Clone, Copy, PartialEq, Eq, Structural, PartialOrd, Ord, Hash, Default)]
pub struct RequirementRevision(pub u64);

impl RequirementRevision {
    /// Creates a revision from its raw value.
    pub fn new(value: u64) -> (r: Self)
        ensures
            r.0 == value,
    {
        RequirementRevision(value)
    }

    /// Returns the raw revision value.
    pub fn get(self) -> (r: u64)
        ensures
            r == self.0,
    {
        self.0
    }

    /// Returns the next revision, or `None` instead of wrapping.
    pub fn checked_next(self) -> (r: Option<Self>)
        ensures
            self.0 < u64::MAX ==> r == Some(RequirementRevision((self.0 + 1) as u64)),
            self.0 == u64::MAX ==> r.is_none(),
    {
        match self.0.checked_add(1) {
            Some(value) => Some(RequirementRevision(value)),
            None => None,
        }
    }
}

/// Monotonic identity of one surface's independently replaceable measurement requirements.
#[derive(Debug, Clone, Copy, PartialEq, Eq, Structural, PartialOrd, Ord, Hash, Default)]
pub struct SurfaceRequirementRevision(pub u64);

impl SurfaceRequirementRevision {
    /// Creates a revision from its raw value.
    pub fn new(value: u64) -> (r: Self)
        ensures
            r.0 == value,
    {
        SurfaceRequirementRevision(value)
    }

    /// Returns the raw revision value.
    pub fn get(self) -> (r: u64)
        ensures
            r == self.0,
    {
        self.0
    }

    /// Returns the next revision, or `None` instead of wrapping.
    pub fn checked_next(self) -> (r: Option<Self>)
        ensures
            self.0 < u64::MAX ==> r == Some(SurfaceRequirementRevision((self.0 + 1) as u64)),
            self.0 == u64::MAX ==> r.is_none(),
    {
        match self.0.checked_add(1) {
            Some(value) => Some(SurfaceRequirementRevision(value)),
            None => None,
        }
    }
}

/// Monotonic identity of one compiled presentation for a logical surface.
#[derive(Debug, Clone, Copy, PartialEq, Eq, Structural, PartialOrd, Ord, Hash, Default)]
pub struct SurfaceSceneRevision(pub u64);

impl SurfaceSceneRevision {
    /// Creates a revision from its raw value.
    pub fn new(value: u64) -> (r: Self)
        ensures
            r.0 == value,
    {
        SurfaceSceneRevision(value)
    }

    /// Returns the raw revision value.
    pub fn get(self) -> (r: u64)
        ensures
            r == self.0,
    {
        self.0
    }

    /// Returns the next revision, or `None` instead of wrapping.
    pub fn checked_next(self) -> (r: Option<Self>)
        ensures
            self.0 < u64::MAX ==> r == Some(SurfaceSceneRevision((self.0 + 1) as u64)),
            self.0 == u64::MAX ==> r.is_none(),
    {
        match self.0.checked_add(1) {
            Some(value) => Some(SurfaceSceneRevision(value)),
            None => None,
        }
    }
}

/// Semantic paint and interaction layer inside one surface.
///
/// The surface base is layer one; contained presentation `i` (back to front)
/// occupies layer `i + 2`.
#[derive(Debug, Clone, Copy, PartialEq, Eq, Structural, PartialOrd, Ord, Hash, Default)]
pub struct SceneLayerKey(pub u64);

impl SceneLayerKey {
    /// Creates a layer key from its raw value.
    pub fn new(value: u64) -> (r: Self)
        ensures
            r.0 == value,
    {
        SceneLayerKey(value)
    }

    /// Returns the layer of the surface's main presentation.
    pub fn surface_base() -> (r: Self)
        ensures
            r.0 == 1,
    {
        SceneLayerKey(1)
    }

    /// The layer of the contained presentation at one roster index, when
    /// representable.
    pub open spec fn spec_contained(index: usize) -> Option<Self> {
        if index + 2 <= u64::MAX {
            Some(SceneLayerKey((index + 2) as u64))
        } else {
            None
        }
    }

    /// Returns the layer of the contained presentation at one roster index.
    #[verifier::when_used_as_spec(spec_contained)]
    pub fn contained(index: usize) -> (r: Option<Self>)
        ensures
            r == Self::spec_contained(index),
    {
        let raw = index as u64;
        if index as u128 + 2 > u64::MAX as u128 {
            None
        } else {
            Some(SceneLayerKey(raw + 2))
        }
    }

    /// Returns the raw layer value.
    pub fn get(self) -> (r: u64)
        ensures
            r == self.0,
    {
        self.0
    }
}

} // verus!
