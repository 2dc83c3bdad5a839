//! Per-surface scene revisions and the roster reconciliation decision.
//!
//! Every stamp a surface ever receives carries a revision strictly greater
//! than all revisions issued to that surface before, including across the
//! surface leaving and re-entering the roster: the last issued revision is
//! kept as a tombstone and never handed out again.

use vstd::prelude::*;

use crate::ids::{SurfaceId, SurfaceSceneRevision};
use crate::lifecycle::{BootstrapSurfaceSceneReason, SurfaceSceneStamp};
use crate::manifest::keys::SurfaceMeasurementTicket;
use crate::validation::SceneBuildError;

verus! {

/// The revision last issued to `surface` in a tombstone list, read from its
/// latest entry; zero when none was issued.
pub open spec fn issued(entries: Seq<(SurfaceId, SurfaceSceneRevision)>, surface: SurfaceId) -> u64
    decreases entries.len(),
{
    if entries.len() == 0 {
        0
    } else if entries.last().0 == surface {
        entries.last().1.0
    } else {
        issued(entries.drop_last(), surface)
    }
}

proof fn lemma_issued_update_other(
    entries: Seq<(SurfaceId, SurfaceSceneRevision)>,
    i: int,
    entry: (SurfaceId, SurfaceSceneRevision),
    other: SurfaceId,
)
    requires
        0 <= i < entries.len(),
        entry.0 != other,
        entries[i].0 != other,
    ensures
        issued(entries.update(i, entry), other) == issued(entries, other),
    decreases entries.len(),
{
    let updated = entries.update(i, entry);
    if i < entries.len() - 1 {
        assert(updated.drop_last() =~= entries.drop_last().update(i, entry));
        lemma_issued_update_other(entries.drop_last(), i, entry, other);
    } else {
        assert(updated.drop_last() =~= entries.drop_last());
    }
}

proof fn lemma_issued_update_last(
    entries: Seq<(SurfaceId, SurfaceSceneRevision)>,
    i: int,
    revision: SurfaceSceneRevision,
)
    requires
        0 <= i < entries.len(),
        forall|j: int| i < j < entries.len() ==> (#[trigger] entries[j]).0 != entries[i].0,
    ensures
        issued(entries.update(i, (entries[i].0, revision)), entries[i].0) == revision.0,
        issued(entries, entries[i].0) == entries[i].1.0,
    decreases entries.len(),
{
    let s = entries[i].0;
    let updated = entries.update(i, (s, revision));
    if i < entries.len() - 1 {
        assert(updated.drop_last() =~= entries.drop_last().update(i, (s, revision)));
        assert(entries.last() == entries[entries.len() - 1]);
        lemma_issued_update_last(entries.drop_last(), i, revision);
        assert(entries.drop_last()[i] == entries[i]);
    }
}

/// The tombstones of every surface's last issued scene revision.
pub struct SurfaceRevisionLedger {
    tombstones: Vec<(SurfaceId, SurfaceSceneRevision)>,
}

impl SurfaceRevisionLedger {
    /// The revision last issued to `surface`; zero when none was issued.
    pub closed spec fn last_issued(&self, surface: SurfaceId) -> u64 {
        issued(self.tombstones@, surface)
    }

    /// Creates a ledger that has issued no revision.
    pub fn new() -> (r: Self)
        ensures
            forall|s: SurfaceId| r.last_issued(s) == 0,
    {
        SurfaceRevisionLedger { tombstones: Vec::new() }
    }

    /// Returns the revision last issued to `surface`; zero when none was.
    pub fn issued_revision(&self, surface: SurfaceId) -> (r: u64)
        ensures
            r == self.last_issued(surface),
    {
        match self.find(surface) {
            Some(i) => {
                proof {
                    lemma_issued_update_last(self.tombstones@, i as int, SurfaceSceneRevision(0));
                }
                self.tombstones[i].1.0
            },
            None => {
                proof {
                    lemma_issued_absent(self.tombstones@, surface);
                }
                0
            },
        }
    }

    /// Returns the position of the latest tombstone of `surface`.
    fn find(&self, surface: SurfaceId) -> (r: Option<usize>)
        ensures
            match r {
                Some(i) => {
                    &&& i < self.tombstones@.len()
                    &&& self.tombstones@[i as int].0 == surface
                    &&& forall|j: int|
                        i < j < self.tombstones@.len() ==> (#[trigger] self.tombstones@[j]).0 != surface
                },
                None => forall|j: int|
                    0 <= j < self.tombstones@.len() ==> (#[trigger] self.tombstones@[j]).0 != surface,
            },
    {
        let mut i: usize = self.tombstones.len();
        while i > 0
            invariant
                i <= self.tombstones@.len(),
                forall|j: int| i <= j < self.tombstones@.len() ==> (#[trigger] self.tombstones@[j]).0 != surface,
            decreases i,
        {
            i = i - 1;
            if self.tombstones[i].0 == surface {
                return Some(i);
            }
        }
        None
    }

    /// Issues the next scene revision of `surface`: one more than the last
    /// revision it was issued, which is remembered in its place. Fails,
    /// changing nothing, once the last issued revision is the largest one.
    pub fn next_revision(&mut self, surface: SurfaceId) -> (r: Result<SurfaceSceneRevision, SceneBuildError>)
        ensures
            old(self).last_issued(surface) < u64::MAX ==> {
                &&& r == Ok::<SurfaceSceneRevision, SceneBuildError>(
                    SurfaceSceneRevision((old(self).last_issued(surface) + 1) as u64),
                )
                &&& final(self).last_issued(surface) == old(self).last_issued(surface) + 1
            },
            old(self).last_issued(surface) == u64::MAX ==> {
                &&& r == Err::<SurfaceSceneRevision, SceneBuildError>(
                    SceneBuildError::SurfaceSceneRevisionExhausted { surface },
                )
                &&& final(self).last_issued(surface) == old(self).last_issued(surface)
            },
            forall|other: SurfaceId|
                other != surface ==> final(self).last_issued(other) == old(self).last_issued(other),
    {
        let ghost before = self.tombstones@;
        match self.find(surface) {
            Some(i) => {
                proof {
                    lemma_issued_update_last(before, i as int, SurfaceSceneRevision(0));
                }
                let previous = self.tombstones[i].1;
                match previous.checked_next() {
                    None => Err(SceneBuildError::SurfaceSceneRevisionExhausted { surface }),
                    Some(revision) => {
                        self.tombstones.set(i, (surface, revision));
                        proof {
                            lemma_issued_update_last(before, i as int, revision);
                            assert forall|other: SurfaceId| other != surface implies issued(
                                self.tombstones@,
                                other,
                            ) == issued(before, other) by {
                                lemma_issued_update_other(before, i as int, (surface, revision), other);
                            }
                        }
                        Ok(revision)
                    },
                }
            },
            None => {
                proof {
                    lemma_issued_absent(before, surface);
                }
                let revision = SurfaceSceneRevision(1);
                self.tombstones.push((surface, revision));
                proof {
                    assert(self.tombstones@.drop_last() =~= before);
                }
                Ok(revision)
            },
        }
    }
}

proof fn lemma_issued_absent(entries: Seq<(SurfaceId, SurfaceSceneRevision)>, surface: SurfaceId)
    requires
        forall|j: int| 0 <= j < entries.len() ==> (#[trigger] entries[j]).0 != surface,
    ensures
        issued(entries, surface) == 0,
    decreases entries.len(),
{
    if entries.len() > 0 {
        assert(entries.last() == entries[entries.len() - 1]);
        assert forall|j: int| 0 <= j < entries.drop_last().len() implies (#[trigger] entries.drop_last()[j]).0
            != surface by {
            assert(entries.drop_last()[j] == entries[j]);
        }
        lemma_issued_absent(entries.drop_last(), surface);
    }
}

/// What a rostered surface's scene currently is, as far as reconciliation
/// reads it.
#[derive(Debug, Clone, Copy, PartialEq, Eq, Structural)]
pub enum SurfaceSceneKind {
    /// Neither hit-test authority nor a paint fallback.
    Bootstrap,
    /// A ready plan; `confirmed_paint_fallback` tells whether an output of it
    /// was confirmed presented and can keep painting.
    Ready {
        /// A presented output can keep painting.
        confirmed_paint_fallback: bool,
    },
    /// A paint fallback without hit-test authority.
    Stale,
}

/// What reconciliation does to one rostered surface.
#[derive(Debug, Clone, Copy, PartialEq, Eq, Structural)]
pub enum ReconcileOutcome {
    /// The surface keeps its scene and stamp.
    Keep,
    /// The surface restarts without authority or fallback, for this reason.
    Bootstrap(BootstrapSurfaceSceneReason),
    /// The surface keeps painting its fallback while its requirements changed.
    Stale,
}

/// The reconciliation decision for one surface of a new manifest: a surface
/// new to the roster awaits its first contribution; one whose ticket is
/// unchanged keeps its scene; a workspace epoch replacement discards every
/// plan; otherwise a surface with a paint fallback turns stale and one
/// without restarts because its requirements changed.
pub open spec fn reconcile_outcome(
    current: Option<(SurfaceSceneKind, SurfaceMeasurementTicket)>,
    ticket: SurfaceMeasurementTicket,
) -> ReconcileOutcome {
    match current {
        None => ReconcileOutcome::Bootstrap(BootstrapSurfaceSceneReason::AwaitingContribution),
        Some((kind, previous)) => if previous == ticket {
            ReconcileOutcome::Keep
        } else if previous.workspace_epoch() != ticket.workspace_epoch() {
            ReconcileOutcome::Bootstrap(BootstrapSurfaceSceneReason::WorkspaceReplaced)
        } else {
            match kind {
                SurfaceSceneKind::Ready { confirmed_paint_fallback } => if confirmed_paint_fallback {
                    ReconcileOutcome::Stale
                } else {
                    ReconcileOutcome::Bootstrap(BootstrapSurfaceSceneReason::RequirementsChanged)
                },
                SurfaceSceneKind::Stale => ReconcileOutcome::Stale,
                SurfaceSceneKind::Bootstrap => ReconcileOutcome::Bootstrap(
                    BootstrapSurfaceSceneReason::RequirementsChanged,
                ),
            }
        },
    }
}

/// Decides what reconciliation does to the rostered `surface` and, unless it
/// keeps its scene, stamps the surface's new scene with its requirement
/// ticket and the surface's next revision.
pub fn reconcile_surface(
    ledger: &mut SurfaceRevisionLedger,
    surface: SurfaceId,
    current: Option<(SurfaceSceneKind, SurfaceMeasurementTicket)>,
    ticket: SurfaceMeasurementTicket,
) -> (r: Result<(ReconcileOutcome, Option<SurfaceSceneStamp>), SceneBuildError>)
    ensures
        reconcile_outcome(current, ticket) is Keep ==> {
            &&& r == Ok::<(ReconcileOutcome, Option<SurfaceSceneStamp>), SceneBuildError>(
                (ReconcileOutcome::Keep, None),
            )
            &&& forall|s: SurfaceId| final(ledger).last_issued(s) == old(ledger).last_issued(s)
        },
        reconcile_outcome(current, ticket) !is Keep ==> {
            let last = old(ledger).last_issued(surface);
            &&& last < u64::MAX ==> (r matches Ok((outcome, Some(stamp))) && outcome == reconcile_outcome(
                current,
                ticket,
            ) && stamp.requirement() == ticket && stamp.revision().0 == last + 1
                && final(ledger).last_issued(surface) == last + 1)
            &&& last == u64::MAX ==> r == Err::<(ReconcileOutcome, Option<SurfaceSceneStamp>), SceneBuildError>(
                SceneBuildError::SurfaceSceneRevisionExhausted { surface },
            )
            &&& forall|s: SurfaceId|
                s != surface ==> final(ledger).last_issued(s) == old(ledger).last_issued(s)
        },
{
    let outcome = match current {
        None => ReconcileOutcome::Bootstrap(BootstrapSurfaceSceneReason::AwaitingContribution),
        Some((kind, previous)) => if previous == ticket {
            ReconcileOutcome::Keep
        } else if previous.workspace_epoch() != ticket.workspace_epoch() {
            ReconcileOutcome::Bootstrap(BootstrapSurfaceSceneReason::WorkspaceReplaced)
        } else {
            match kind {
                SurfaceSceneKind::Ready { confirmed_paint_fallback } => if confirmed_paint_fallback {
                    ReconcileOutcome::Stale
                } else {
                    ReconcileOutcome::Bootstrap(BootstrapSurfaceSceneReason::RequirementsChanged)
                },
                SurfaceSceneKind::Stale => ReconcileOutcome::Stale,
                SurfaceSceneKind::Bootstrap => ReconcileOutcome::Bootstrap(
                    BootstrapSurfaceSceneReason::RequirementsChanged,
                ),
            }
        },
    };
    if let ReconcileOutcome::Keep = outcome {
        return Ok((outcome, None));
    }
    let revision = ledger.next_revision(surface)?;
    Ok((outcome, Some(SurfaceSceneStamp::new(ticket, revision))))
}

} // verus!
