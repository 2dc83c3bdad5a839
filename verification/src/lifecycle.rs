//! Surface presentation authority identities and the reasons a surface lacks
//! paint or interaction authority.

use vstd::prelude::*;

use crate::ids::{SurfaceId, SurfaceSceneRevision};
use crate::manifest::keys::SurfaceMeasurementTicket;
use crate::manifest::measurements::MeasurementAuthorityError;

verus! {

/// Exact authority of one independently replaceable surface presentation:
/// the measurement requirement it answers and the surface's own revision.
///
/// Stamps carry no order, so unrelated surface histories are never compared
/// as one global timeline.
#[derive(Debug, Clone, Copy, PartialEq, Eq, Structural, Hash)]
pub struct SurfaceSceneStamp {
    requirement: SurfaceMeasurementTicket,
    revision: SurfaceSceneRevision,
}

impl SurfaceSceneStamp {
    /// Exact requirement behind [`Self::requirement`].
    pub closed spec fn spec_requirement(self) -> SurfaceMeasurementTicket {
        self.requirement
    }

    /// Exact revision behind [`Self::revision`].
    pub closed spec fn spec_revision(self) -> SurfaceSceneRevision {
        self.revision
    }

    /// Binds one requirement ticket to one surface revision.
    pub fn new(requirement: SurfaceMeasurementTicket, revision: SurfaceSceneRevision) -> (r: Self)
        ensures
            r.requirement() == requirement,
            r.revision() == revision,
    {
        SurfaceSceneStamp { requirement, revision }
    }

    /// Two stamps binding the same requirement to the same revision are equal.
    pub proof fn lemma_stamp_identity(a: Self, b: Self)
        ensures
            a.requirement() == b.requirement() && a.revision() == b.revision() ==> a == b,
    {
    }

    /// Returns the measurement requirement this authority answers.
    #[verifier::when_used_as_spec(spec_requirement)]
    pub fn requirement(self) -> (r: SurfaceMeasurementTicket)
        ensures
            r == self.spec_requirement(),
    {
        self.requirement
    }

    /// Returns the surface's own authority revision.
    #[verifier::when_used_as_spec(spec_revision)]
    pub fn revision(self) -> (r: SurfaceSceneRevision)
        ensures
            r == self.spec_revision(),
    {
        self.revision
    }

    /// Returns the sole surface this stamp can authorize: its ticket's surface.
    pub fn surface(self) -> (r: SurfaceId)
        ensures
            r == self.spec_requirement().surface(),
    {
        self.requirement.surface()
    }
}

/// Why a paintable fallback currently lacks hit-test authority.
#[derive(Debug, Clone, Copy, PartialEq, Eq, Structural)]
pub enum StaleSurfaceSceneReason {
    /// Core-derived semantic requirements changed.
    RequirementsChanged,
    /// Binding, lifecycle, coordinate generation, bounds, or scale changed.
    CoordinateAuthorityChanged,
    /// The surface's native association cannot authorize geometry yet.
    CoordinateAuthorityUnavailable,
    /// The exact contribution explicitly lacked one required fact.
    MeasurementsUnavailable(MeasurementAuthorityError),
    /// Exact host geometry could not project the active popup inside its plane.
    PopupGeometryUnavailable(PopupGeometryUnavailableReason),
    /// Core-owned transient presentation input changed after the last projection.
    TransientPresentationChanged,
}

/// Why a rostered surface has neither hit-test authority nor a paint fallback.
#[derive(Debug, Clone, Copy, PartialEq, Eq, Structural)]
pub enum BootstrapSurfaceSceneReason {
    /// The surface has not delivered its first exact contribution.
    AwaitingContribution,
    /// Requirements changed before any ready plan existed.
    RequirementsChanged,
    /// A workspace epoch replacement discarded every prior plan.
    WorkspaceReplaced,
    /// Binding, lifecycle, coordinate generation, bounds, or scale changed.
    CoordinateAuthorityChanged,
    /// The surface's native association cannot authorize geometry yet.
    CoordinateAuthorityUnavailable,
    /// The exact contribution explicitly lacked one required fact.
    MeasurementsUnavailable(MeasurementAuthorityError),
    /// The exact contribution reported a surface without positive area.
    EmptyBounds,
    /// Exact host geometry could not project the active popup inside its plane.
    PopupGeometryUnavailable(PopupGeometryUnavailableReason),
    /// Transient presentation input changed before a paint fallback existed.
    TransientPresentationChanged,
}

/// Why exact host geometry could not project the active popup.
#[derive(Debug, Clone, Copy, PartialEq, Eq, Structural)]
pub enum PopupGeometryUnavailableReason {
    /// The measured popup plane had no positive area.
    EmptyPlane,
    /// The owner anchor was outside the measured popup plane.
    AnchorOutsidePlane,
    /// Neither side of the owner anchor had positive popup space.
    NoSpace,
    /// Complete measured geometry could not produce the owner popup record.
    ProjectionUnavailable,
}

/// A rostered surface with no paintable ready presentation.
#[derive(Debug, Clone, Copy, PartialEq, Eq, Structural)]
pub struct BootstrapSurfaceScene {
    stamp: SurfaceSceneStamp,
    reason: BootstrapSurfaceSceneReason,
}

impl BootstrapSurfaceScene {
    /// Exact stamp behind [`Self::stamp`].
    pub closed spec fn spec_stamp(self) -> SurfaceSceneStamp {
        self.stamp
    }

    /// Exact reason behind [`Self::reason`].
    pub closed spec fn spec_reason(self) -> BootstrapSurfaceSceneReason {
        self.reason
    }

    /// Records why a surface has no presentation under `stamp`.
    pub fn new(stamp: SurfaceSceneStamp, reason: BootstrapSurfaceSceneReason) -> (r: Self)
        ensures
            r.stamp() == stamp,
            r.reason() == reason,
    {
        BootstrapSurfaceScene { stamp, reason }
    }

    /// Returns the unavailable roster surface.
    pub fn surface(self) -> (r: SurfaceId)
        ensures
            r == self.spec_stamp().spec_requirement().surface(),
    {
        self.stamp.surface()
    }

    /// Returns the current non-interactive authority stamp.
    #[verifier::when_used_as_spec(spec_stamp)]
    pub fn stamp(self) -> (r: SurfaceSceneStamp)
        ensures
            r == self.spec_stamp(),
    {
        self.stamp
    }

    /// Returns why no paint fallback or hit authority exists.
    #[verifier::when_used_as_spec(spec_reason)]
    pub fn reason(self) -> (r: BootstrapSurfaceSceneReason)
        ensures
            r == self.spec_reason(),
    {
        self.reason
    }
}

/// Exact candidate and fallback identities retained for one surface.
#[derive(Debug, Clone, Copy, PartialEq, Eq, Structural)]
pub struct RetainedSurfacePlanStamps {
    candidate: Option<SurfaceSceneStamp>,
    paint_fallback: Option<SurfaceSceneStamp>,
}

impl RetainedSurfacePlanStamps {
    /// Exact candidate behind [`Self::candidate`].
    pub closed spec fn spec_candidate(self) -> Option<SurfaceSceneStamp> {
        self.candidate
    }

    /// Exact fallback behind [`Self::paint_fallback`].
    pub closed spec fn spec_paint_fallback(self) -> Option<SurfaceSceneStamp> {
        self.paint_fallback
    }

    /// Records the retained candidate and fallback identities of one surface.
    pub fn new(candidate: Option<SurfaceSceneStamp>, paint_fallback: Option<SurfaceSceneStamp>) -> (r:
        Self)
        ensures
            r.candidate() == candidate,
            r.paint_fallback() == paint_fallback,
    {
        RetainedSurfacePlanStamps { candidate, paint_fallback }
    }

    /// Returns the current paint candidate identity, when one exists.
    #[verifier::when_used_as_spec(spec_candidate)]
    pub fn candidate(self) -> (r: Option<SurfaceSceneStamp>)
        ensures
            r == self.spec_candidate(),
    {
        self.candidate
    }

    /// Returns the retained painted fallback identity, when one exists.
    #[verifier::when_used_as_spec(spec_paint_fallback)]
    pub fn paint_fallback(self) -> (r: Option<SurfaceSceneStamp>)
        ensures
            r == self.spec_paint_fallback(),
    {
        self.paint_fallback
    }

    /// Returns the distinct retained identities: the candidate, then the
    /// fallback unless it is the same identity.
    pub fn unique(self) -> (r: Vec<SurfaceSceneStamp>)
        ensures
            r@ == unique_stamps(self.spec_candidate(), self.spec_paint_fallback()),
    {
        let mut stamps: Vec<SurfaceSceneStamp> = Vec::new();
        if let Some(candidate) = self.candidate {
            stamps.push(candidate);
        }
        if self.paint_fallback != self.candidate {
            if let Some(fallback) = self.paint_fallback {
                stamps.push(fallback);
            }
        }
        proof {
            assert(stamps@ =~= unique_stamps(self.candidate, self.paint_fallback));
        }
        stamps
    }
}

/// The distinct stamps among a candidate and a fallback, candidate first.
pub open spec fn unique_stamps(
    candidate: Option<SurfaceSceneStamp>,
    fallback: Option<SurfaceSceneStamp>,
) -> Seq<SurfaceSceneStamp> {
    let first = match candidate {
        Some(c) => seq![c],
        None => Seq::empty(),
    };
    let second = match fallback {
        Some(f) => if fallback == candidate {
            Seq::empty()
        } else {
            seq![f]
        },
        None => Seq::empty(),
    };
    first + second
}

/// The retained identities never repeat a stamp.
pub proof fn lemma_unique_stamps_are_distinct(
    candidate: Option<SurfaceSceneStamp>,
    fallback: Option<SurfaceSceneStamp>,
)
    ensures
        unique_stamps(candidate, fallback).no_duplicates(),
        forall|s: SurfaceSceneStamp|
            unique_stamps(candidate, fallback).contains(s) <==> (candidate == Some(s) || fallback
                == Some(s)),
{
    let u = unique_stamps(candidate, fallback);
    assert forall|s: SurfaceSceneStamp| u.contains(s) <==> (candidate == Some(s) || fallback == Some(
        s,
    )) by {
        if candidate == Some(s) {
            assert(u[0] == s);
        }
        if fallback == Some(s) && fallback != candidate {
            assert(u[u.len() - 1] == s);
        }
    }
}

} // verus!
