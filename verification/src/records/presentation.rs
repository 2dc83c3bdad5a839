//! Root-scoped presentation command menu anchor records.

use vstd::prelude::*;

use crate::geometry::{HitRegion, LogicalRect};
use crate::ids::{FloatingPresentationId, RootId, SceneLayerKey};
use crate::records::tab::TabBarSceneId;

verus! {

/// Structural host of one root-scoped presentation command menu anchor.
#[derive(Debug, Clone, Copy, PartialEq, Eq, Structural, PartialOrd, Ord, Hash)]
pub enum PresentationMenuAnchorHost {
    /// The sole selected tab bar of a main or native-main root.
    TabBar(TabBarSceneId),
    /// The title chrome of one contained-floating presentation.
    ContainedTitle(FloatingPresentationId),
}

/// Core-compiled exact draw and hit geometry for one root presentation menu.
#[derive(Debug, Clone, Copy, PartialEq, Eq, Structural)]
pub struct PresentationMenuAnchorRecord {
    root: RootId,
    host: PresentationMenuAnchorHost,
    bounds: Option<LogicalRect>,
    hit: Option<HitRegion>,
    layer: SceneLayerKey,
}

impl PresentationMenuAnchorRecord {
    /// A published hit region is exactly the published bounds, and a record
    /// has one exactly when it has the other.
    #[verifier::type_invariant]
    spec fn hit_follows_bounds(self) -> bool {
        match self.bounds {
            Some(b) => self.hit == Some(HitRegion { rect: b }),
            None => self.hit is None,
        }
    }

    /// Creates an anchor that publishes usable menu chrome.
    pub fn ready(
        root: RootId,
        host: PresentationMenuAnchorHost,
        bounds: LogicalRect,
        layer: SceneLayerKey,
    ) -> (r: Self)
        ensures
            r.root() == root,
            r.host() == host,
            r.spec_bounds() == Some(bounds),
            r.spec_hit() == Some(HitRegion { rect: bounds }),
            r.layer() == layer,
    {
        Self { root, host, bounds: Some(bounds), hit: Some(HitRegion::new(bounds)), layer }
    }

    /// Creates an anchor whose chrome was compacted away.
    pub fn compacted(root: RootId, host: PresentationMenuAnchorHost, layer: SceneLayerKey) -> (r:
        Self)
        ensures
            r.root() == root,
            r.host() == host,
            r.spec_bounds() is None,
            r.spec_hit() is None,
            r.layer() == layer,
    {
        Self { root, host, bounds: None, hit: None, layer }
    }

    /// Returns whether this root currently publishes usable menu chrome.
    pub fn is_ready(self) -> (r: bool)
        ensures
            r == self.spec_bounds() is Some,
            r == self.spec_hit() is Some,
    {
        proof {
            use_type_invariant(&self);
        }
        self.bounds.is_some()
    }
}

impl PresentationMenuAnchorRecord {
    /// Exact value behind [`Self::root`].
    pub closed spec fn spec_root(self) -> RootId {
        self.root
    }

    /// Returns the root whose presentation commands this anchor opens.
    #[verifier::when_used_as_spec(spec_root)]
    pub fn root(self) -> (r: RootId)
        ensures
            r == self.spec_root(),
    {
        self.root
    }

    /// Exact value behind [`Self::host`].
    pub closed spec fn spec_host(self) -> PresentationMenuAnchorHost {
        self.host
    }

    /// Returns the exact structural chrome host selected by core.
    #[verifier::when_used_as_spec(spec_host)]
    pub fn host(self) -> (r: PresentationMenuAnchorHost)
        ensures
            r == self.spec_host(),
    {
        self.host
    }

    /// Exact value behind [`Self::bounds`].
    pub closed spec fn spec_bounds(self) -> Option<LogicalRect> {
        self.bounds
    }

    /// Returns the exact draw bounds reserved by core, or `None` when compacted.
    pub fn ready_bounds(self) -> (r: Option<LogicalRect>)
        ensures
            r == self.spec_bounds(),
    {
        self.bounds
    }

    /// Exact value behind [`Self::hit`].
    pub closed spec fn spec_hit(self) -> Option<HitRegion> {
        self.hit
    }

    /// Returns the exact half-open interaction region, or `None` when compacted.
    pub fn ready_hit(self) -> (r: Option<HitRegion>)
        ensures
            r == self.spec_hit(),
            r == match self.spec_bounds() {
                Some(b) => Some(HitRegion { rect: b }),
                None => None,
            },
    {
        proof {
            use_type_invariant(&self);
        }
        self.hit
    }

    /// Exact value behind [`Self::layer`].
    pub closed spec fn spec_layer(self) -> SceneLayerKey {
        self.layer
    }

    /// Returns the roster-derived semantic layer.
    #[verifier::when_used_as_spec(spec_layer)]
    pub fn layer(self) -> (r: SceneLayerKey)
        ensures
            r == self.spec_layer(),
    {
        self.layer
    }
}
} // verus!
