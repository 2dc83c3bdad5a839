//! The integer decisions of compiling one surface scene: which inputs a
//! compilation accepts before any layout runs, the drop occlusion each
//! contained presentation publishes from its roster position, and whether
//! the compiled menus match the popup requirement.

use vstd::prelude::*;

use crate::geometry::{HitRegion, LogicalRect};
use crate::ids::{FloatingPresentationId, PolicyRevision, SceneLayerKey, SurfaceId};
use crate::manifest::keys::SurfaceMeasurementTicket;
use crate::occlusion::DropOcclusionRecord;
use crate::plan::PresentationPlan;
use crate::tab_strip::{PopupPlaneRequirement, TabListMenuSessionId};
use crate::validation::contained::IndexedContained;

verus! {

/// Why a surface scene cannot be compiled from its inputs.
#[derive(Debug, Clone, Copy, PartialEq, Eq, Structural)]
pub enum SceneCompilationError {
    /// The measurements answer another question set than the requirements ask.
    TicketMismatch {
        /// Ticket of the requirement set.
        expected: SurfaceMeasurementTicket,
        /// Ticket echoed by the measurements.
        actual: SurfaceMeasurementTicket,
    },
    /// The requirement ticket was issued under another policy revision.
    PolicyRevisionMismatch {
        /// Policy revision of the ticket.
        ticket: PolicyRevision,
        /// Revision of the policy snapshot.
        snapshot: PolicyRevision,
    },
    /// The measured surface bounds have no area.
    EmptySurfaceBounds {
        /// Surface being compiled.
        surface: SurfaceId,
    },
    /// An active popup's measured plane has no area.
    EmptyPopupPlaneBounds {
        /// Surface being compiled.
        surface: SurfaceId,
    },
    /// The popup-plane measurement or the tab-strip popup state disagrees
    /// with the popup requirement.
    PopupPlaneStateMismatch,
    /// An active menu owned by this surface has no exact record, or a menu
    /// record is published for a popup owned elsewhere.
    ActiveTabListMenuProjectionUnavailable {
        /// The active menu session.
        session: TabListMenuSessionId,
    },
    /// A contained presentation's roster position has no representable layer.
    ContainedLayerExhausted {
        /// Surface being compiled.
        surface: SurfaceId,
        /// Contained presentation without a layer.
        floating: FloatingPresentationId,
    },
}

/// The first input a compilation rejects, checked in a fixed order: the
/// measurement ticket, the policy revision, the surface bounds, the popup
/// plane against the popup requirement, and the tab strips' popup state.
pub open spec fn compilation_input_error(
    requirements: SurfaceMeasurementTicket,
    measurements: SurfaceMeasurementTicket,
    policy: PolicyRevision,
    bounds: LogicalRect,
    popup: PopupPlaneRequirement,
    popup_plane_bounds: Option<LogicalRect>,
    strip_popup: PopupPlaneRequirement,
) -> Option<SceneCompilationError> {
    if requirements != measurements {
        Some(SceneCompilationError::TicketMismatch { expected: requirements, actual: measurements })
    } else if requirements.policy() != policy {
        Some(
            SceneCompilationError::PolicyRevisionMismatch {
                ticket: requirements.policy(),
                snapshot: policy,
            },
        )
    } else if !bounds.has_area() {
        Some(SceneCompilationError::EmptySurfaceBounds { surface: measurements.surface() })
    } else if (popup is Active) != (popup_plane_bounds is Some) {
        Some(SceneCompilationError::PopupPlaneStateMismatch)
    } else if popup is Active && !popup_plane_bounds.unwrap().has_area() {
        Some(SceneCompilationError::EmptyPopupPlaneBounds { surface: measurements.surface() })
    } else if strip_popup != popup {
        Some(SceneCompilationError::PopupPlaneStateMismatch)
    } else {
        None
    }
}

/// Rejects compilation inputs that disagree with each other: measurements
/// for another ticket, a ticket of another policy revision, surface bounds
/// without area, a popup plane measured exactly when no popup is open or
/// without area, or tab strips holding another popup state.
pub fn check_compilation_inputs(
    requirements: SurfaceMeasurementTicket,
    measurements: SurfaceMeasurementTicket,
    policy: PolicyRevision,
    bounds: LogicalRect,
    popup: PopupPlaneRequirement,
    popup_plane_bounds: Option<LogicalRect>,
    strip_popup: PopupPlaneRequirement,
) -> (r: Result<(), SceneCompilationError>)
    ensures
        r == match compilation_input_error(
            requirements,
            measurements,
            policy,
            bounds,
            popup,
            popup_plane_bounds,
            strip_popup,
        ) {
            Some(e) => Err(e),
            None => Ok(()),
        },
{
    if requirements != measurements {
        return Err(
            SceneCompilationError::TicketMismatch { expected: requirements, actual: measurements },
        );
    }
    if requirements.policy() != policy {
        return Err(
            SceneCompilationError::PolicyRevisionMismatch {
                ticket: requirements.policy(),
                snapshot: policy,
            },
        );
    }
    if !bounds.is_positive() {
        return Err(SceneCompilationError::EmptySurfaceBounds { surface: measurements.surface() });
    }
    match (popup.is_active(), popup_plane_bounds) {
        (false, None) => {},
        (true, Some(plane)) => {
            if !plane.is_positive() {
                return Err(
                    SceneCompilationError::EmptyPopupPlaneBounds { surface: measurements.surface() },
                );
            }
        },
        _ => {
            return Err(SceneCompilationError::PopupPlaneStateMismatch);
        },
    }
    if strip_popup != popup {
        return Err(SceneCompilationError::PopupPlaneStateMismatch);
    }
    Ok(())
}

/// `o` is the drop occlusion of the contained presentation at roster
/// position `ordinal`: its durable rectangle on layer `ordinal + 2`, the
/// layer of that position.
pub open spec fn roster_occlusion(o: DropOcclusionRecord, entry: IndexedContained, ordinal: int) -> bool {
    &&& o.floating() == entry.floating
    &&& o.region() == (HitRegion { rect: entry.rect })
    &&& o.layer().0 == ordinal + 2
}

/// `occlusions` holds, position for position, the drop occlusion of each
/// roster presentation on the layer of its roster position.
pub open spec fn occlusions_follow_roster(
    occlusions: Seq<DropOcclusionRecord>,
    roster: Seq<IndexedContained>,
) -> bool {
    &&& occlusions.len() == roster.len()
    &&& forall|j: int| 0 <= j < roster.len() ==> roster_occlusion(#[trigger] occlusions[j], roster[j], j)
}

/// The first roster position whose layer would exceed the largest layer key.
pub open spec fn first_unlayered(roster: Seq<IndexedContained>, k: int) -> bool {
    &&& 0 <= k < roster.len()
    &&& k + 2 == u64::MAX + 1
}

/// Publishes one drop occlusion per contained presentation, in roster order,
/// each on the layer of its roster position; fails at the first position
/// whose layer is not representable.
///
/// A position whose layer is not representable fails only after every
/// earlier position has a layer, so the reported presentation is exactly
/// the one at the largest representable position plus one.
pub fn contained_occlusions(surface: SurfaceId, roster: &[IndexedContained]) -> (r: Result<
    Vec<DropOcclusionRecord>,
    SceneCompilationError,
>)
    ensures
        r matches Ok(v) ==> occlusions_follow_roster(v@, roster@),
        r matches Err(e) ==> exists|k: int|
            first_unlayered(roster@, k) && e == (SceneCompilationError::ContainedLayerExhausted {
                surface,
                floating: roster@[k].floating,
            }),
{
    let mut out: Vec<DropOcclusionRecord> = Vec::new();
    let mut i: usize = 0;
    while i < roster.len()
        invariant
            i <= roster@.len(),
            out@.len() == i,
            forall|j: int| 0 <= j < i ==> roster_occlusion(#[trigger] out@[j], roster@[j], j),
        decreases roster@.len() - i,
    {
        let entry = roster[i];
        match SceneLayerKey::contained(i) {
            Some(layer) => {
                out.push(DropOcclusionRecord::new(entry.floating, HitRegion::new(entry.rect), layer));
            },
            None => {
                proof {
                    if i > 0 {
                        assert(roster_occlusion(out@[i - 1], roster@[i - 1], i - 1));
                    }
                    assert(first_unlayered(roster@, i as int));
                }
                return Err(
                    SceneCompilationError::ContainedLayerExhausted { surface, floating: entry.floating },
                );
            },
        }
        i = i + 1;
    }
    Ok(out)
}

/// How a compiled plan's menu records disagree with its popup requirement:
/// without an open popup there is no menu; with one, the owner's surface
/// holds exactly the active session's menu and every other surface none.
pub open spec fn compiled_menus_error(ready: &PresentationPlan) -> Option<SceneCompilationError> {
    let menus = ready.menus_view();
    match ready.popup() {
        PopupPlaneRequirement::Inactive { .. } => if menus.len() == 0 {
            None
        } else {
            Some(SceneCompilationError::PopupPlaneStateMismatch)
        },
        PopupPlaneRequirement::Active { session, owner, .. } => {
            let valid = if owner.surface == ready.surface() {
                menus.len() == 1 && menus[0].session() == session
            } else {
                menus.len() == 0
            };
            if valid {
                None
            } else {
                Some(SceneCompilationError::ActiveTabListMenuProjectionUnavailable { session })
            }
        },
    }
}

/// Rejects a compiled plan whose menu records disagree with its popup
/// requirement.
pub fn check_compiled_menus(ready: &PresentationPlan) -> (r: Result<(), SceneCompilationError>)
    ensures
        r == match compiled_menus_error(ready) {
            Some(e) => Err(e),
            None => Ok(()),
        },
{
    let menus = ready.tab_list_menu_records();
    match ready.popup() {
        PopupPlaneRequirement::Inactive { .. } => {
            if menus.len() == 0 {
                Ok(())
            } else {
                Err(SceneCompilationError::PopupPlaneStateMismatch)
            }
        },
        PopupPlaneRequirement::Active { session, owner, .. } => {
            let valid = if owner.surface == ready.surface() {
                menus.len() == 1 && menus[0].session() == session
            } else {
                menus.len() == 0
            };
            if valid {
                Ok(())
            } else {
                Err(SceneCompilationError::ActiveTabListMenuProjectionUnavailable { session })
            }
        },
    }
}

} // verus!
