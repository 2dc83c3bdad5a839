//! The roster of surface scenes: which surfaces the active manifest presents,
//! what each surface's scene currently is, and the stamp it carries.
//!
//! Every transition that gives a surface a new scene stamps it with the
//! surface's requirement ticket and its next revision, so a stamp is never
//! issued twice for one surface.

use vstd::prelude::*;

use crate::collections::{canonical, entry_keys, lemma_canonical_distinct};
use crate::ids::{SurfaceId, SurfaceSceneRevision};
use crate::lifecycle::{BootstrapSurfaceSceneReason, SurfaceSceneStamp};
use crate::manifest::aggregate::SceneRequirementManifest;
use crate::manifest::keys::SurfaceMeasurementTicket;
use crate::manifest::requirements::SurfaceRequirements;
use crate::plan::PresentationPlan;
use crate::revisions::{
    reconcile_outcome, reconcile_surface, ReconcileOutcome, SurfaceRevisionLedger, SurfaceSceneKind,
};
use crate::tab_strip::PopupPlaneRequirement;
use crate::validation::SceneBuildError;

verus! {

/// One surface's current scene: what it is and the stamp it carries.
#[derive(Debug, Clone, Copy, PartialEq, Eq, Structural)]
pub struct SceneEntry {
    /// What the scene is.
    pub kind: SurfaceSceneKind,
    /// The stamp of the scene.
    pub stamp: SurfaceSceneStamp,
}

/// The scene of `surface` in an entry list, read from its latest entry.
pub open spec fn latest_scene(entries: Seq<(SurfaceId, SceneEntry)>, surface: SurfaceId) -> Option<
    SceneEntry,
>
    decreases entries.len(),
{
    if entries.len() == 0 {
        None
    } else if entries.last().0 == surface {
        Some(entries.last().1)
    } else {
        latest_scene(entries.drop_last(), surface)
    }
}

proof fn lemma_latest_update_other(
    entries: Seq<(SurfaceId, SceneEntry)>,
    i: int,
    entry: (SurfaceId, SceneEntry),
    other: SurfaceId,
)
    requires
        0 <= i < entries.len(),
        entry.0 != other,
        entries[i].0 != other,
    ensures
        latest_scene(entries.update(i, entry), other) == latest_scene(entries, other),
    decreases entries.len(),
{
    let updated = entries.update(i, entry);
    if i < entries.len() - 1 {
        assert(updated.drop_last() =~= entries.drop_last().update(i, entry));
        lemma_latest_update_other(entries.drop_last(), i, entry, other);
    } else {
        assert(updated.drop_last() =~= entries.drop_last());
    }
}

proof fn lemma_latest_at(entries: Seq<(SurfaceId, SceneEntry)>, i: int, entry: SceneEntry)
    requires
        0 <= i < entries.len(),
        forall|j: int| i < j < entries.len() ==> (#[trigger] entries[j]).0 != entries[i].0,
    ensures
        latest_scene(entries.update(i, (entries[i].0, entry)), entries[i].0) == Some(entry),
        latest_scene(entries, entries[i].0) == Some(entries[i].1),
    decreases entries.len(),
{
    let s = entries[i].0;
    let updated = entries.update(i, (s, entry));
    if i < entries.len() - 1 {
        assert(updated.drop_last() =~= entries.drop_last().update(i, (s, entry)));
        assert(entries.last() == entries[entries.len() - 1]);
        lemma_latest_at(entries.drop_last(), i, entry);
        assert(entries.drop_last()[i] == entries[i]);
    }
}

proof fn lemma_latest_absent(entries: Seq<(SurfaceId, SceneEntry)>, surface: SurfaceId)
    requires
        forall|j: int| 0 <= j < entries.len() ==> (#[trigger] entries[j]).0 != surface,
    ensures
        latest_scene(entries, surface) is None,
    decreases entries.len(),
{
    if entries.len() > 0 {
        assert(entries.last() == entries[entries.len() - 1]);
        assert forall|j: int| 0 <= j < entries.drop_last().len() implies (#[trigger] entries.drop_last()[j]).0
            != surface by {
            assert(entries.drop_last()[j] == entries[j]);
        }
        lemma_latest_absent(entries.drop_last(), surface);
    }
}

/// The scene a new or reconciled roster gives one surface.
pub open spec fn entry_after(
    outcome: ReconcileOutcome,
    previous: Option<SceneEntry>,
    stamp: SurfaceSceneStamp,
) -> SceneEntry {
    match outcome {
        ReconcileOutcome::Keep => previous.unwrap(),
        ReconcileOutcome::Bootstrap(_) => SceneEntry { kind: SurfaceSceneKind::Bootstrap, stamp },
        ReconcileOutcome::Stale => SceneEntry { kind: SurfaceSceneKind::Stale, stamp },
    }
}

/// What reconciliation reads of a surface's current scene.
pub open spec fn current_of(entry: Option<SceneEntry>) -> Option<(SurfaceSceneKind, SurfaceMeasurementTicket)> {
    match entry {
        Some(e) => Some((e.kind, e.stamp.requirement())),
        None => None,
    }
}


/// Whether a ready scene of this kind keeps a paint fallback once replaced:
/// a ready scene keeps its confirmed one, a stale scene its fallback, and a
/// bootstrap scene has none.
pub open spec fn keeps_paint_fallback(kind: SurfaceSceneKind) -> bool {
    match kind {
        SurfaceSceneKind::Ready { confirmed_paint_fallback } => confirmed_paint_fallback,
        SurfaceSceneKind::Stale => true,
        SurfaceSceneKind::Bootstrap => false,
    }
}

/// A scene of this kind can still paint something: it is stale, or ready
/// with a confirmed presentation.
pub open spec fn has_paint_fallback(kind: SurfaceSceneKind) -> bool {
    kind == SurfaceSceneKind::Stale || kind == (SurfaceSceneKind::Ready { confirmed_paint_fallback: true })
}

/// Installing a ready plan never drops a paint fallback and never invents
/// one: the installed ready scene carries a confirmed fallback exactly when
/// the scene it replaces is stale or ready with a confirmed presentation, so
/// a stale scene's fallback survives its replacement.
pub proof fn lemma_installed_fallback_follows_replaced(kind: SurfaceSceneKind)
    ensures
        keeps_paint_fallback(kind) <==> has_paint_fallback(kind),
        kind == SurfaceSceneKind::Stale ==> keeps_paint_fallback(kind),
        kind == SurfaceSceneKind::Bootstrap ==> !keeps_paint_fallback(kind),
{
}

/// Reconciling a rostered surface against a new ticket: an unchanged ticket
/// keeps the scene; a new workspace epoch restarts it whatever it could
/// paint; within one epoch, changed requirements turn the scene stale exactly
/// when it has a paint fallback and restart it otherwise; and a surface new
/// to the roster awaits its first contribution.
pub proof fn lemma_reconcile_keeps_fallbacks(
    current: Option<(SurfaceSceneKind, SurfaceMeasurementTicket)>,
    ticket: SurfaceMeasurementTicket,
)
    ensures
        current is None ==> reconcile_outcome(current, ticket) == ReconcileOutcome::Bootstrap(
            BootstrapSurfaceSceneReason::AwaitingContribution,
        ),
        current matches Some((kind, previous)) ==> {
            &&& (reconcile_outcome(current, ticket) is Keep <==> previous == ticket)
            &&& previous != ticket && previous.workspace_epoch() != ticket.workspace_epoch()
                ==> reconcile_outcome(current, ticket) == ReconcileOutcome::Bootstrap(
                BootstrapSurfaceSceneReason::WorkspaceReplaced,
            )
            &&& previous != ticket && previous.workspace_epoch() == ticket.workspace_epoch() ==> (
            reconcile_outcome(current, ticket) is Stale <==> has_paint_fallback(kind))
            &&& previous != ticket && previous.workspace_epoch() == ticket.workspace_epoch()
                && !has_paint_fallback(kind) ==> reconcile_outcome(current, ticket)
                == ReconcileOutcome::Bootstrap(BootstrapSurfaceSceneReason::RequirementsChanged)
        },
{
}

/// `after` holds the same scenes, revisions, and popup requirement as `before`.
pub open spec fn same_roster(after: &SurfaceSceneSet, before: &SurfaceSceneSet) -> bool {
    &&& after.spec_popup() == before.spec_popup()
    &&& forall|t: SurfaceId| #[trigger] after.scene(t) == before.scene(t)
    &&& forall|t: SurfaceId| #[trigger] after.last_issued(t) == before.last_issued(t)
}

/// `after` differs from `before` only in the scene and revision of `surface`.
pub open spec fn only_surface_changed(after: &SurfaceSceneSet, before: &SurfaceSceneSet, surface: SurfaceId) -> bool {
    &&& after.spec_popup() == before.spec_popup()
    &&& forall|t: SurfaceId| t != surface ==> #[trigger] after.scene(t) == before.scene(t)
    &&& forall|t: SurfaceId| t != surface ==> #[trigger] after.last_issued(t) == before.last_issued(t)
}

/// The reconciliation outcome of the `k`-th surface of a manifest's roster.
pub open spec fn roster_outcome(
    set: &SurfaceSceneSet,
    surfaces: Seq<(SurfaceId, SurfaceRequirements)>,
    k: int,
) -> ReconcileOutcome {
    reconcile_outcome(current_of(set.scene(surfaces[k].0)), surfaces[k].1.ticket())
}

/// The `k`-th surface of a manifest's roster needs a new revision that can
/// no longer be issued.
pub open spec fn roster_exhausted(
    set: &SurfaceSceneSet,
    surfaces: Seq<(SurfaceId, SurfaceRequirements)>,
    k: int,
) -> bool {
    &&& 0 <= k < surfaces.len()
    &&& roster_outcome(set, surfaces, k) !is Keep
    &&& set.last_issued(surfaces[k].0) == u64::MAX
}

/// The scene of every rostered surface, the popup requirement they were
/// reconciled with, and the revisions issued to every surface so far.
pub struct SurfaceSceneSet {
    scenes: Vec<(SurfaceId, SceneEntry)>,
    ledger: SurfaceRevisionLedger,
    popup: PopupPlaneRequirement,
}

impl SurfaceSceneSet {
    /// The current scene of `surface`, or `None` outside the roster.
    pub closed spec fn scene(&self, surface: SurfaceId) -> Option<SceneEntry> {
        latest_scene(self.scenes@, surface)
    }

    /// The revision last issued to `surface`.
    pub closed spec fn last_issued(&self, surface: SurfaceId) -> u64 {
        self.ledger.last_issued(surface)
    }

    /// The popup requirement of the roster's manifest.
    pub closed spec fn spec_popup(&self) -> PopupPlaneRequirement {
        self.popup
    }

    /// Returns the current scene of `surface`, or `None` outside the roster.
    pub fn scene_of(&self, surface: SurfaceId) -> (r: Option<SceneEntry>)
        ensures
            r == self.scene(surface),
    {
        let mut i: usize = self.scenes.len();
        assert(self.scenes@.take(i as int) =~= self.scenes@);
        while i > 0
            invariant
                i <= self.scenes@.len(),
                latest_scene(self.scenes@, surface) == latest_scene(self.scenes@.take(i as int), surface),
            decreases i,
        {
            proof {
                assert(self.scenes@.take(i as int).drop_last() =~= self.scenes@.take(i - 1));
                assert(self.scenes@.take(i as int).last() == self.scenes@[i - 1]);
            }
            if self.scenes[i - 1].0 == surface {
                return Some(self.scenes[i - 1].1);
            }
            i = i - 1;
        }
        None
    }

    /// Returns the position of the latest entry of `surface`.
    fn position(&self, surface: SurfaceId) -> (r: Option<usize>)
        ensures
            match r {
                Some(i) => {
                    &&& i < self.scenes@.len()
                    &&& self.scenes@[i as int].0 == surface
                    &&& forall|j: int| i < j < self.scenes@.len() ==> (#[trigger] self.scenes@[j]).0 != surface
                },
                None => forall|j: int| 0 <= j < self.scenes@.len() ==> (#[trigger] self.scenes@[j]).0 != surface,
            },
    {
        let mut i: usize = self.scenes.len();
        while i > 0
            invariant
                i <= self.scenes@.len(),
                forall|j: int| i <= j < self.scenes@.len() ==> (#[trigger] self.scenes@[j]).0 != surface,
            decreases i,
        {
            i = i - 1;
            if self.scenes[i].0 == surface {
                return Some(i);
            }
        }
        None
    }

    /// Returns the popup requirement of the roster's manifest.
    pub fn popup(&self) -> (r: PopupPlaneRequirement)
        ensures
            r == self.spec_popup(),
    {
        self.popup
    }

    /// Rosters every surface of `manifest`, each awaiting its first
    /// contribution with the surface's first revision.
    pub fn new(manifest: &SceneRequirementManifest) -> (r: Self)
        ensures
            r.spec_popup() == manifest.popup(),
            forall|k: int|
                0 <= k < manifest.surfaces_view().len() ==> {
                    let (surface, requirements) = #[trigger] manifest.surfaces_view()[k];
                    &&& r.scene(surface) matches Some(e)
                    &&& e.kind == SurfaceSceneKind::Bootstrap
                    &&& e.stamp.requirement() == requirements.ticket()
                    &&& e.stamp.revision().0 == 1
                    &&& r.last_issued(surface) == 1
                },
            forall|s: SurfaceId|
                !entry_keys(manifest.surfaces_view()).contains(s) ==> #[trigger] r.scene(s) is None,
            forall|s: SurfaceId|
                !entry_keys(manifest.surfaces_view()).contains(s) ==> #[trigger] r.last_issued(s) == 0,
    {
        let surfaces = manifest.surfaces();
        let mut ledger = SurfaceRevisionLedger::new();
        let mut scenes: Vec<(SurfaceId, SceneEntry)> = Vec::new();
        let mut k: usize = 0;
        while k < surfaces.len()
            invariant
                k <= surfaces@.len(),
                surfaces@ == manifest.surfaces_view(),
                canonical(entry_keys(surfaces@)),
                scenes@.len() == k,
                forall|j: int| 0 <= j < k ==> (#[trigger] scenes@[j]).0 == surfaces@[j].0,
                forall|j: int|
                    0 <= j < k ==> {
                        let e = (#[trigger] scenes@[j]).1;
                        &&& e.kind == SurfaceSceneKind::Bootstrap
                        &&& e.stamp.requirement() == surfaces@[j].1.ticket()
                        &&& e.stamp.revision().0 == 1
                    },
                forall|s: SurfaceId|
                    #[trigger] ledger.last_issued(s) == if exists|j: int| 0 <= j < k && surfaces@[j].0 == s {
                        1int
                    } else {
                        0int
                    },
            decreases surfaces@.len() - k,
        {
            let surface = surfaces[k].0;
            let ticket = surfaces[k].1.ticket();
            proof {
                assert forall|j: int| 0 <= j < k implies surfaces@[j].0 != surface by {
                    lemma_canonical_distinct(entry_keys(surfaces@), j, k as int);
                    assert(entry_keys(surfaces@)[j] == surfaces@[j].0);
                    assert(entry_keys(surfaces@)[k as int] == surface);
                }
                assert(ledger.last_issued(surface) == 0);
            }
            let revision = match ledger.next_revision(surface) {
                Ok(revision) => revision,
                Err(_) => {
                    assert(false);
                    SurfaceSceneRevision::new(1)
                },
            };
            scenes.push(
                (surface, SceneEntry { kind: SurfaceSceneKind::Bootstrap, stamp: SurfaceSceneStamp::new(ticket, revision) }),
            );
            proof {
                assert forall|s: SurfaceId|
                    #[trigger] ledger.last_issued(s) == if exists|j: int| 0 <= j < k + 1 && surfaces@[j].0 == s {
                        1int
                    } else {
                        0int
                    } by {
                    if s != surface {
                        if exists|j: int| 0 <= j < k + 1 && surfaces@[j].0 == s {
                            let j = choose|j: int| 0 <= j < k + 1 && surfaces@[j].0 == s;
                            assert(j < k);
                        }
                    } else {
                        assert(surfaces@[k as int].0 == s);
                    }
                }
            }
            k = k + 1;
        }
        let set = SurfaceSceneSet { scenes, ledger, popup: manifest.popup() };
        proof {
            let es = set.scenes@;
            assert forall|k: int| 0 <= k < manifest.surfaces_view().len() implies {
                let (surface, requirements) = #[trigger] manifest.surfaces_view()[k];
                &&& set.scene(surface) matches Some(e)
                &&& e.kind == SurfaceSceneKind::Bootstrap
                &&& e.stamp.requirement() == requirements.ticket()
                &&& e.stamp.revision().0 == 1
                &&& set.last_issued(surface) == 1
            } by {
                assert forall|j: int| k < j < es.len() implies (#[trigger] es[j]).0 != es[k].0 by {
                    lemma_canonical_distinct(entry_keys(surfaces@), j, k);
                    assert(entry_keys(surfaces@)[j] == surfaces@[j].0);
                    assert(entry_keys(surfaces@)[k] == surfaces@[k].0);
                }
                lemma_latest_at(es, k, es[k].1);
            }
            assert forall|s: SurfaceId| !entry_keys(manifest.surfaces_view()).contains(s) implies #[trigger] set.scene(s)
                is None && set.last_issued(s) == 0 by {
                assert forall|j: int| 0 <= j < es.len() implies (#[trigger] es[j]).0 != s by {
                    assert(entry_keys(surfaces@)[j] == surfaces@[j].0);
                }
                lemma_latest_absent(es, s);
                if exists|j: int| 0 <= j < surfaces@.len() && surfaces@[j].0 == s {
                    let j = choose|j: int| 0 <= j < surfaces@.len() && surfaces@[j].0 == s;
                    assert(entry_keys(surfaces@)[j] == s);
                }
            }
        }
        set
    }

    /// Reconciles the roster with a new manifest: surfaces outside it leave,
    /// each surface of it keeps its scene or moves to the scene its
    /// reconciliation outcome names, stamped with its new ticket and next
    /// revision. Fails, changing nothing, when some surface needing a new
    /// revision has exhausted its revisions.
    pub fn reconcile_manifest(&mut self, manifest: &SceneRequirementManifest) -> (r: Result<(), SceneBuildError>)
        ensures
            r is Err <==> exists|k: int| roster_exhausted(old(self), manifest.surfaces_view(), k),
            r matches Err(e) ==> same_roster(final(self), old(self)) && exists|k: int|
                roster_exhausted(old(self), manifest.surfaces_view(), k) && e
                    == (SceneBuildError::SurfaceSceneRevisionExhausted { surface: manifest.surfaces_view()[k].0 }),
            r is Ok ==> final(self).spec_popup() == manifest.popup(),
            r is Ok ==> forall|k: int|
                0 <= k < manifest.surfaces_view().len() ==> {
                    let (surface, requirements) = #[trigger] manifest.surfaces_view()[k];
                    let previous = old(self).scene(surface);
                    let outcome = roster_outcome(old(self), manifest.surfaces_view(), k);
                    &&& outcome is Keep ==> final(self).scene(surface) == previous && final(self).last_issued(
                        surface,
                    ) == old(self).last_issued(surface)
                    &&& outcome !is Keep ==> (final(self).scene(surface) matches Some(e) && e == entry_after(
                        outcome,
                        previous,
                        e.stamp,
                    ) && e.stamp.requirement() == requirements.ticket() && e.stamp.revision().0
                        == old(self).last_issued(surface) + 1 && final(self).last_issued(surface)
                        == old(self).last_issued(surface) + 1)
                },
            r is Ok ==> forall|t: SurfaceId|
                !entry_keys(manifest.surfaces_view()).contains(t) ==> #[trigger] final(self).scene(t) is None,
            r is Ok ==> forall|t: SurfaceId|
                !entry_keys(manifest.surfaces_view()).contains(t) ==> #[trigger] final(self).last_issued(t)
                    == old(self).last_issued(t),
    {
        let surfaces = manifest.surfaces();
        let ghost prior = *self;
        let mut k: usize = 0;
        while k < surfaces.len()
            invariant
                k <= surfaces@.len(),
                surfaces@ == manifest.surfaces_view(),
                *self == prior,
                forall|j: int| 0 <= j < k ==> !roster_exhausted(&prior, surfaces@, j),
            decreases surfaces@.len() - k,
        {
            let surface = surfaces[k].0;
            let current = match self.scene_of(surface) {
                Some(e) => Some((e.kind, e.stamp.requirement())),
                None => None,
            };
            let needs = match current {
                Some((_, previous)) => previous != surfaces[k].1.ticket(),
                None => true,
            };
            if needs && self.ledger.issued_revision(surface) == u64::MAX {
                proof {
                    assert(roster_exhausted(&prior, surfaces@, k as int));
                }
                return Err(SceneBuildError::SurfaceSceneRevisionExhausted { surface });
            }
            k = k + 1;
        }
        let mut scenes: Vec<(SurfaceId, SceneEntry)> = Vec::new();
        let mut k: usize = 0;
        while k < surfaces.len()
            invariant
                k <= surfaces@.len(),
                surfaces@ == manifest.surfaces_view(),
                canonical(entry_keys(surfaces@)),
                self.scenes@ == prior.scenes@,
                self.popup == prior.popup,
                forall|j: int| 0 <= j < surfaces@.len() ==> !roster_exhausted(&prior, surfaces@, j),
                scenes@.len() == k,
                forall|j: int| 0 <= j < k ==> (#[trigger] scenes@[j]).0 == surfaces@[j].0,
                forall|j: int|
                    0 <= j < k ==> {
                        let e = (#[trigger] scenes@[j]).1;
                        let outcome = roster_outcome(&prior, surfaces@, j);
                        let surface = surfaces@[j].0;
                        &&& outcome is Keep ==> prior.scene(surface) == Some(e)
                        &&& outcome !is Keep ==> e == entry_after(outcome, prior.scene(surface), e.stamp)
                            && e.stamp.requirement() == surfaces@[j].1.ticket() && e.stamp.revision().0
                            == prior.last_issued(surface) + 1
                    },
                forall|t: SurfaceId|
                    #[trigger] self.ledger.last_issued(t) == if exists|j: int|
                        0 <= j < k && surfaces@[j].0 == t && roster_outcome(&prior, surfaces@, j) !is Keep {
                        prior.last_issued(t) + 1
                    } else {
                        prior.last_issued(t) as int
                    },
            decreases surfaces@.len() - k,
        {
            let surface = surfaces[k].0;
            let ticket = surfaces[k].1.ticket();
            let previous = self.scene_of(surface);
            let current = match previous {
                Some(e) => Some((e.kind, e.stamp.requirement())),
                None => None,
            };
            proof {
                assert(current == current_of(prior.scene(surface)));
                assert forall|j: int| 0 <= j < k implies surfaces@[j].0 != surface by {
                    lemma_canonical_distinct(entry_keys(surfaces@), j, k as int);
                    assert(entry_keys(surfaces@)[j] == surfaces@[j].0);
                    assert(entry_keys(surfaces@)[k as int] == surface);
                }
                assert(self.ledger.last_issued(surface) == prior.last_issued(surface));
                assert(!roster_exhausted(&prior, surfaces@, k as int));
            }
            let decided = reconcile_surface(&mut self.ledger, surface, current, ticket);
            let entry = match decided {
                Ok((ReconcileOutcome::Keep, _)) => previous.unwrap(),
                Ok((ReconcileOutcome::Bootstrap(_), Some(stamp))) => SceneEntry {
                    kind: SurfaceSceneKind::Bootstrap,
                    stamp,
                },
                Ok((ReconcileOutcome::Stale, Some(stamp))) => SceneEntry { kind: SurfaceSceneKind::Stale, stamp },
                _ => {
                    assert(false);
                    return Err(SceneBuildError::SurfaceSceneRevisionExhausted { surface });
                },
            };
            scenes.push((surface, entry));
            proof {
                assert forall|t: SurfaceId|
                    #[trigger] self.ledger.last_issued(t) == if exists|j: int|
                        0 <= j < k + 1 && surfaces@[j].0 == t && roster_outcome(&prior, surfaces@, j) !is Keep {
                        prior.last_issued(t) + 1
                    } else {
                        prior.last_issued(t) as int
                    } by {
                    if t != surface {
                        if exists|j: int|
                            0 <= j < k + 1 && surfaces@[j].0 == t && roster_outcome(&prior, surfaces@, j) !is Keep {
                            let j = choose|j: int|
                                0 <= j < k + 1 && surfaces@[j].0 == t && roster_outcome(&prior, surfaces@, j) !is Keep;
                            assert(j < k);
                        }
                    } else {
                        if exists|j: int|
                            0 <= j < k && surfaces@[j].0 == t && roster_outcome(&prior, surfaces@, j) !is Keep {
                            let j = choose|j: int|
                                0 <= j < k && surfaces@[j].0 == t && roster_outcome(&prior, surfaces@, j) !is Keep;
                            assert(surfaces@[j].0 != surface);
                        }
                    }
                }
            }
            k = k + 1;
        }
        self.scenes = scenes;
        self.popup = manifest.popup();
        proof {
            let es = self.scenes@;
            assert forall|k: int| 0 <= k < manifest.surfaces_view().len() implies {
                let (surface, requirements) = #[trigger] manifest.surfaces_view()[k];
                let previous = prior.scene(surface);
                let outcome = roster_outcome(&prior, manifest.surfaces_view(), k);
                &&& outcome is Keep ==> self.scene(surface) == previous && self.last_issued(surface)
                    == prior.last_issued(surface)
                &&& outcome !is Keep ==> (self.scene(surface) matches Some(e) && e == entry_after(
                    outcome,
                    previous,
                    e.stamp,
                ) && e.stamp.requirement() == requirements.ticket() && e.stamp.revision().0
                    == prior.last_issued(surface) + 1 && self.last_issued(surface) == prior.last_issued(surface) + 1)
            } by {
                assert forall|j: int| k < j < es.len() implies (#[trigger] es[j]).0 != es[k].0 by {
                    lemma_canonical_distinct(entry_keys(surfaces@), j, k);
                    assert(entry_keys(surfaces@)[j] == surfaces@[j].0);
                    assert(entry_keys(surfaces@)[k] == surfaces@[k].0);
                }
                lemma_latest_at(es, k, es[k].1);
                if exists|j: int|
                    0 <= j < surfaces@.len() && surfaces@[j].0 == surfaces@[k].0 && roster_outcome(&prior, surfaces@, j) !is Keep {
                    let j = choose|j: int|
                        0 <= j < surfaces@.len() && surfaces@[j].0 == surfaces@[k].0 && roster_outcome(&prior, surfaces@, j) !is Keep;
                    if j != k {
                        lemma_canonical_distinct(entry_keys(surfaces@), j, k);
                        assert(entry_keys(surfaces@)[j] == surfaces@[j].0);
                        assert(entry_keys(surfaces@)[k] == surfaces@[k].0);
                    }
                }
            }
            assert forall|t: SurfaceId| !entry_keys(manifest.surfaces_view()).contains(t) implies #[trigger] self.scene(t)
                is None && self.last_issued(t) == prior.last_issued(t) by {
                assert forall|j: int| 0 <= j < es.len() implies (#[trigger] es[j]).0 != t by {
                    assert(entry_keys(surfaces@)[j] == surfaces@[j].0);
                }
                lemma_latest_absent(es, t);
                if exists|j: int|
                    0 <= j < surfaces@.len() && surfaces@[j].0 == t && roster_outcome(&prior, surfaces@, j) !is Keep {
                    let j = choose|j: int|
                        0 <= j < surfaces@.len() && surfaces@[j].0 == t && roster_outcome(&prior, surfaces@, j) !is Keep;
                    assert(entry_keys(surfaces@)[j] == t);
                }
            }
            assert forall|t: SurfaceId| !entry_keys(manifest.surfaces_view()).contains(t) implies #[trigger] self.last_issued(t)
                == prior.last_issued(t) by {
                if exists|j: int|
                    0 <= j < surfaces@.len() && surfaces@[j].0 == t && roster_outcome(&prior, surfaces@, j) !is Keep {
                    let j = choose|j: int|
                        0 <= j < surfaces@.len() && surfaces@[j].0 == t && roster_outcome(&prior, surfaces@, j) !is Keep;
                    assert(entry_keys(surfaces@)[j] == t);
                }
            }
        }
        Ok(())
    }

    /// Installs a ready plan as its surface's scene: the plan must carry the
    /// roster's popup requirement and its surface's requirement ticket; the
    /// surface's scene becomes ready with a new stamp, keeping a paint
    /// fallback exactly when the replaced scene had one. Fails, changing
    /// nothing, otherwise or when the surface's revisions are exhausted.
    pub fn install_ready(&mut self, plan: &PresentationPlan) -> (r: Result<SurfaceSceneStamp, SceneBuildError>)
        ensures
            ({
                let surface = plan.surface();
                let ticket = plan.measurement_ticket();
                match old(self).scene(surface) {
                    _ if plan.popup() != old(self).spec_popup() => r == Err::<SurfaceSceneStamp, SceneBuildError>(
                        SceneBuildError::PopupPlaneRecordSetMismatch { surface },
                    ) && same_roster(final(self), old(self)),
                    None => r == Err::<SurfaceSceneStamp, SceneBuildError>(
                        SceneBuildError::SurfaceOutsideRoster { surface },
                    ) && same_roster(final(self), old(self)),
                    Some(e) => if e.stamp.requirement() != ticket {
                        r == Err::<SurfaceSceneStamp, SceneBuildError>(
                            SceneBuildError::PresentationTicketMismatch {
                                surface,
                                expected: Some(e.stamp.requirement()),
                                actual: ticket,
                            },
                        ) && same_roster(final(self), old(self))
                    } else if old(self).last_issued(surface) == u64::MAX {
                        r == Err::<SurfaceSceneStamp, SceneBuildError>(
                            SceneBuildError::SurfaceSceneRevisionExhausted { surface },
                        ) && same_roster(final(self), old(self))
                    } else {
                        r matches Ok(stamp) && stamp.requirement() == ticket && stamp.revision().0
                            == old(self).last_issued(surface) + 1 && final(self).scene(surface) == Some(
                            SceneEntry {
                                kind: SurfaceSceneKind::Ready {
                                    confirmed_paint_fallback: keeps_paint_fallback(e.kind),
                                },
                                stamp,
                            },
                        ) && final(self).last_issued(surface) == old(self).last_issued(surface) + 1
                            && only_surface_changed(final(self), old(self), surface)
                    },
                }
            }),
            r is Ok ==> (old(self).scene(plan.surface()) matches Some(e) && final(self).scene(
                plan.surface(),
            ) matches Some(f) && (f.kind == SurfaceSceneKind::Ready {
                confirmed_paint_fallback: has_paint_fallback(e.kind),
            })),
    {
        let surface = plan.surface();
        let ticket = plan.measurement_ticket();
        if plan.popup() != self.popup {
            return Err(SceneBuildError::PopupPlaneRecordSetMismatch { surface });
        }
        let i = match self.position(surface) {
            Some(i) => i,
            None => {
                proof {
                    lemma_latest_absent(self.scenes@, surface);
                }
                return Err(SceneBuildError::SurfaceOutsideRoster { surface });
            },
        };
        let ghost before = self.scenes@;
        proof {
            lemma_latest_at(before, i as int, before[i as int].1);
        }
        let current = self.scenes[i].1;
        if current.stamp.requirement() != ticket {
            return Err(
                SceneBuildError::PresentationTicketMismatch {
                    surface,
                    expected: Some(current.stamp.requirement()),
                    actual: ticket,
                },
            );
        }
        let revision = self.ledger.next_revision(surface)?;
        let stamp = SurfaceSceneStamp::new(ticket, revision);
        let keeps = match current.kind {
            SurfaceSceneKind::Ready { confirmed_paint_fallback } => confirmed_paint_fallback,
            SurfaceSceneKind::Stale => true,
            SurfaceSceneKind::Bootstrap => false,
        };
        let entry = SceneEntry { kind: SurfaceSceneKind::Ready { confirmed_paint_fallback: keeps }, stamp };
        self.scenes.set(i, (surface, entry));
        proof {
            lemma_latest_at(before, i as int, entry);
            assert forall|t: SurfaceId| t != surface implies #[trigger] latest_scene(self.scenes@, t)
                == latest_scene(before, t) by {
                lemma_latest_update_other(before, i as int, (surface, entry), t);
            }
        }
        Ok(stamp)
    }

    /// Demotes a surface to keep painting its fallback without hit-test
    /// authority, under a new stamp of its requirement ticket. Fails,
    /// changing nothing, outside the roster, for a bootstrap scene, for a
    /// ready scene that was never presented, or when the surface's revisions
    /// are exhausted.
    pub fn demote_to_stale(&mut self, surface: SurfaceId) -> (r: Result<SurfaceSceneStamp, SceneBuildError>)
        ensures
            match old(self).scene(surface) {
                None => r == Err::<SurfaceSceneStamp, SceneBuildError>(
                    SceneBuildError::SurfaceOutsideRoster { surface },
                ) && same_roster(final(self), old(self)),
                Some(e) => if e.kind == SurfaceSceneKind::Bootstrap {
                    r == Err::<SurfaceSceneStamp, SceneBuildError>(
                        SceneBuildError::BootstrapCannotBecomeStale { surface },
                    ) && same_roster(final(self), old(self))
                } else if e.kind == (SurfaceSceneKind::Ready { confirmed_paint_fallback: false }) {
                    r == Err::<SurfaceSceneStamp, SceneBuildError>(
                        SceneBuildError::ReadySurfaceHasNoPaintFallback { surface },
                    ) && same_roster(final(self), old(self))
                } else if old(self).last_issued(surface) == u64::MAX {
                    r == Err::<SurfaceSceneStamp, SceneBuildError>(
                        SceneBuildError::SurfaceSceneRevisionExhausted { surface },
                    ) && same_roster(final(self), old(self))
                } else {
                    r matches Ok(stamp) && stamp.requirement() == e.stamp.requirement() && stamp.revision().0
                        == old(self).last_issued(surface) + 1 && final(self).scene(surface) == Some(
                        SceneEntry { kind: SurfaceSceneKind::Stale, stamp },
                    ) && final(self).last_issued(surface) == old(self).last_issued(surface) + 1
                        && only_surface_changed(final(self), old(self), surface)
                },
            },
    {
        let i = match self.position(surface) {
            Some(i) => i,
            None => {
                proof {
                    lemma_latest_absent(self.scenes@, surface);
                }
                return Err(SceneBuildError::SurfaceOutsideRoster { surface });
            },
        };
        let ghost before = self.scenes@;
        proof {
            lemma_latest_at(before, i as int, before[i as int].1);
        }
        let current = self.scenes[i].1;
        match current.kind {
            SurfaceSceneKind::Bootstrap => {
                return Err(SceneBuildError::BootstrapCannotBecomeStale { surface });
            },
            SurfaceSceneKind::Ready { confirmed_paint_fallback } => {
                if !confirmed_paint_fallback {
                    return Err(SceneBuildError::ReadySurfaceHasNoPaintFallback { surface });
                }
            },
            SurfaceSceneKind::Stale => {},
        }
        let revision = self.ledger.next_revision(surface)?;
        let stamp = SurfaceSceneStamp::new(current.stamp.requirement(), revision);
        let entry = SceneEntry { kind: SurfaceSceneKind::Stale, stamp };
        self.scenes.set(i, (surface, entry));
        proof {
            lemma_latest_at(before, i as int, entry);
            assert forall|t: SurfaceId| t != surface implies #[trigger] latest_scene(self.scenes@, t)
                == latest_scene(before, t) by {
                lemma_latest_update_other(before, i as int, (surface, entry), t);
            }
        }
        Ok(stamp)
    }

    /// Records that the ready scene carrying `stamp` was presented, so it can
    /// keep painting once replaced. Returns whether the surface's scene is
    /// that ready scene; any other roster is left unchanged.
    pub fn confirm_presented(&mut self, stamp: SurfaceSceneStamp) -> (r: bool)
        ensures
            ({
                let surface = stamp.requirement().surface();
                match old(self).scene(surface) {
                    Some(e) => if e.stamp == stamp && e.kind is Ready {
                        r && final(self).scene(surface) == Some(
                            SceneEntry { kind: SurfaceSceneKind::Ready { confirmed_paint_fallback: true }, stamp },
                        ) && only_surface_changed(final(self), old(self), surface)
                            && final(self).last_issued(surface) == old(self).last_issued(surface)
                    } else {
                        !r && same_roster(final(self), old(self))
                    },
                    None => !r && same_roster(final(self), old(self)),
                }
            }),
    {
        let surface = stamp.requirement().surface();
        let i = match self.position(surface) {
            Some(i) => i,
            None => {
                proof {
                    lemma_latest_absent(self.scenes@, surface);
                }
                return false;
            },
        };
        let ghost before = self.scenes@;
        proof {
            lemma_latest_at(before, i as int, before[i as int].1);
        }
        let current = self.scenes[i].1;
        let same = current.stamp.requirement() == stamp.requirement() && current.stamp.revision()
            == stamp.revision();
        proof {
            SurfaceSceneStamp::lemma_stamp_identity(current.stamp, stamp);
        }
        if !same {
            return false;
        }
        if let SurfaceSceneKind::Ready { .. } = current.kind {
            let entry = SceneEntry {
                kind: SurfaceSceneKind::Ready { confirmed_paint_fallback: true },
                stamp,
            };
            self.scenes.set(i, (surface, entry));
            proof {
                lemma_latest_at(before, i as int, entry);
                assert forall|t: SurfaceId| t != surface implies #[trigger] latest_scene(self.scenes@, t)
                    == latest_scene(before, t) by {
                    lemma_latest_update_other(before, i as int, (surface, entry), t);
                }
            }
            true
        } else {
            false
        }
    }
}

} // verus!
