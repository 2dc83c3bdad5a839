//! Submitted surface measurements, their exact-set validation, and authority.

use vstd::prelude::*;

use crate::collections::{entry_keys, CanonicalKey, KeyMap};
use crate::geometry::{LogicalRect, LogicalSize};
use crate::ids::{
    EngineAuthorityDomainId, PolicyRevision, PresentationConfigRevision, SurfaceId,
    SurfaceRequirementRevision, WorkspaceEpoch,
};
use crate::manifest::keys::{
    PaneMinimumKey, PopupPlaneBoundsKey, SurfaceBoundsKey, SurfaceMeasurementTicket,
    TabIntrinsicKey, TabStripKey,
};
use crate::manifest::requirements::SurfaceRequirements;
use crate::manifest::values::{
    Measurement, MeasurementUnavailableReason, TabIntrinsic, TabStripMetrics,
};

verus! {

/// One adapter contribution answering a surface's measurement questions.
#[derive(Debug, Clone, PartialEq, Eq)]
pub struct SurfaceMeasurements {
    ticket: SurfaceMeasurementTicket,
    bounds: Option<(SurfaceBoundsKey, Measurement<LogicalRect>)>,
    popup_plane_bounds: Option<(PopupPlaneBoundsKey, Measurement<LogicalRect>)>,
    pane_minimums: KeyMap<PaneMinimumKey, Measurement<LogicalSize>>,
    tab_intrinsics: KeyMap<TabIntrinsicKey, Measurement<TabIntrinsic>>,
    tab_strips: KeyMap<TabStripKey, Measurement<TabStripMetrics>>,
}

/// A duplicate answer was submitted; the first answer is kept.
#[derive(Debug, Clone, Copy, PartialEq, Eq, Structural)]
pub enum MeasurementSubmissionError {
    /// Surface bounds were submitted more than once.
    DuplicateSurfaceBounds,
    /// Popup-plane bounds were submitted more than once.
    DuplicatePopupPlaneBounds,
    /// A pane minimum was submitted more than once.
    DuplicatePaneMinimum {
        /// Duplicated key.
        key: PaneMinimumKey,
    },
    /// A tab intrinsic was submitted more than once.
    DuplicateTabIntrinsic {
        /// Duplicated key.
        key: TabIntrinsicKey,
    },
    /// A tab strip was submitted more than once.
    DuplicateTabStrip {
        /// Duplicated key.
        key: TabStripKey,
    },
}

impl SurfaceMeasurements {
    /// Exact ticket behind [`Self::ticket`].
    pub closed spec fn spec_ticket(&self) -> SurfaceMeasurementTicket {
        self.ticket
    }

    /// The submitted surface-bounds answer.
    pub closed spec fn bounds_answer(&self) -> Option<(SurfaceBoundsKey, Measurement<LogicalRect>)> {
        self.bounds
    }

    /// The submitted popup-plane answer.
    pub closed spec fn popup_answer(&self) -> Option<
        (PopupPlaneBoundsKey, Measurement<LogicalRect>),
    > {
        self.popup_plane_bounds
    }

    /// The key of the submitted surface-bounds answer.
    pub closed spec fn bounds_key(&self) -> Option<SurfaceBoundsKey> {
        match self.bounds {
            Some((key, _)) => Some(key),
            None => None,
        }
    }

    /// The value of the submitted surface-bounds answer.
    pub closed spec fn bounds_value(&self) -> Option<Measurement<LogicalRect>> {
        match self.bounds {
            Some((_, value)) => Some(value),
            None => None,
        }
    }

    /// The key of the submitted popup-plane answer.
    pub closed spec fn popup_key(&self) -> Option<PopupPlaneBoundsKey> {
        match self.popup_plane_bounds {
            Some((key, _)) => Some(key),
            None => None,
        }
    }

    /// The value of the submitted popup-plane answer.
    pub closed spec fn popup_value(&self) -> Option<Measurement<LogicalRect>> {
        match self.popup_plane_bounds {
            Some((_, value)) => Some(value),
            None => None,
        }
    }

    /// The submitted pane-minimum answers.
    pub closed spec fn pane_map(&self) -> KeyMap<PaneMinimumKey, Measurement<LogicalSize>> {
        self.pane_minimums
    }

    /// The submitted tab-intrinsic answers.
    pub closed spec fn intrinsic_map(&self) -> KeyMap<TabIntrinsicKey, Measurement<TabIntrinsic>> {
        self.tab_intrinsics
    }

    /// The submitted tab-strip answers.
    pub closed spec fn strip_map(&self) -> KeyMap<TabStripKey, Measurement<TabStripMetrics>> {
        self.tab_strips
    }

    /// Starts an empty contribution for one ticket.
    pub fn new(ticket: SurfaceMeasurementTicket) -> (r: Self)
        ensures
            r.ticket() == ticket,
            r.bounds_answer() is None,
            r.popup_answer() is None,
            r.pane_map().view_seq().len() == 0,
            r.intrinsic_map().view_seq().len() == 0,
            r.strip_map().view_seq().len() == 0,
    {
        SurfaceMeasurements {
            ticket,
            bounds: None,
            popup_plane_bounds: None,
            pane_minimums: KeyMap::new(),
            tab_intrinsics: KeyMap::new(),
            tab_strips: KeyMap::new(),
        }
    }

    /// Answers every question of `requirements` as unavailable for one reason.
    pub fn unavailable(requirements: &SurfaceRequirements, reason: MeasurementUnavailableReason) -> (r:
        Self)
        ensures
            r.ticket() == requirements.ticket(),
            r.bounds_answer() == Some(
                (requirements.bounds(), Measurement::<LogicalRect>::Unavailable(reason)),
            ),
            requirements.popup_plane_bounds() is None ==> r.popup_answer() is None,
            requirements.popup_plane_bounds() matches Some(key) ==> r.popup_answer() == Some(
                (key, Measurement::<LogicalRect>::Unavailable(reason)),
            ),
            r.pane_map().view_seq() == requirements.pane_minimums_view().map_values(
                |k: PaneMinimumKey| (k, Measurement::<LogicalSize>::Unavailable(reason)),
            ),
            r.intrinsic_map().view_seq() == requirements.tab_intrinsics_view().map_values(
                |k: TabIntrinsicKey| (k, Measurement::<TabIntrinsic>::Unavailable(reason)),
            ),
            r.strip_map().view_seq() == requirements.tab_strips_view().map_values(
                |k: TabStripKey| (k, Measurement::<TabStripMetrics>::Unavailable(reason)),
            ),
    {
        let panes = requirements.pane_minimums();
        let mut pane_minimums: KeyMap<PaneMinimumKey, Measurement<LogicalSize>> = KeyMap::new();
        let mut index: usize = 0;
        while index < panes.len()
            invariant
                index <= panes@.len(),
                panes@ == requirements.pane_minimums_view(),
                crate::collections::canonical(panes@),
                pane_minimums.view_seq() == panes@.subrange(0, index as int).map_values(
                    |k: PaneMinimumKey| (k, Measurement::<LogicalSize>::Unavailable(reason)),
                ),
            decreases panes@.len() - index,
        {
            pane_minimums.push_greatest(panes[index], Measurement::Unavailable(reason));
            index = index + 1;
            assert(pane_minimums.view_seq() =~= panes@.subrange(0, index as int).map_values(
                |k: PaneMinimumKey| (k, Measurement::<LogicalSize>::Unavailable(reason)),
            ));
        }
        assert(panes@.subrange(0, panes@.len() as int) == panes@);
        let tabs = requirements.tab_intrinsics();
        let mut tab_intrinsics: KeyMap<TabIntrinsicKey, Measurement<TabIntrinsic>> = KeyMap::new();
        let mut index: usize = 0;
        while index < tabs.len()
            invariant
                index <= tabs@.len(),
                tabs@ == requirements.tab_intrinsics_view(),
                crate::collections::canonical(tabs@),
                tab_intrinsics.view_seq() == tabs@.subrange(0, index as int).map_values(
                    |k: TabIntrinsicKey| (k, Measurement::<TabIntrinsic>::Unavailable(reason)),
                ),
            decreases tabs@.len() - index,
        {
            tab_intrinsics.push_greatest(tabs[index], Measurement::Unavailable(reason));
            index = index + 1;
            assert(tab_intrinsics.view_seq() =~= tabs@.subrange(0, index as int).map_values(
                |k: TabIntrinsicKey| (k, Measurement::<TabIntrinsic>::Unavailable(reason)),
            ));
        }
        assert(tabs@.subrange(0, tabs@.len() as int) == tabs@);
        let strips = requirements.tab_strips();
        let mut tab_strips: KeyMap<TabStripKey, Measurement<TabStripMetrics>> = KeyMap::new();
        let mut index: usize = 0;
        while index < strips.len()
            invariant
                index <= strips@.len(),
                strips@ == requirements.tab_strips_view(),
                crate::collections::canonical(strips@),
                tab_strips.view_seq() == strips@.subrange(0, index as int).map_values(
                    |k: TabStripKey| (k, Measurement::<TabStripMetrics>::Unavailable(reason)),
                ),
            decreases strips@.len() - index,
        {
            tab_strips.push_greatest(strips[index], Measurement::Unavailable(reason));
            index = index + 1;
            assert(tab_strips.view_seq() =~= strips@.subrange(0, index as int).map_values(
                |k: TabStripKey| (k, Measurement::<TabStripMetrics>::Unavailable(reason)),
            ));
        }
        assert(strips@.subrange(0, strips@.len() as int) == strips@);
        let popup_plane_bounds = match requirements.popup_plane_bounds() {
            Some(key) => Some((key, Measurement::Unavailable(reason))),
            None => None,
        };
        SurfaceMeasurements {
            ticket: requirements.ticket(),
            bounds: Some((requirements.bounds(), Measurement::Unavailable(reason))),
            popup_plane_bounds,
            pane_minimums,
            tab_intrinsics,
            tab_strips,
        }
    }

    /// Returns the ticket this contribution answers.
    #[verifier::when_used_as_spec(spec_ticket)]
    pub fn ticket(&self) -> (r: SurfaceMeasurementTicket)
        ensures
            r == self.spec_ticket(),
    {
        self.ticket
    }

    /// Returns the submitted surface-bounds answer.
    pub fn bounds_entry(&self) -> (r: Option<(SurfaceBoundsKey, Measurement<LogicalRect>)>)
        ensures
            r == self.bounds_answer(),
    {
        self.bounds
    }

    /// Returns the submitted popup-plane answer.
    pub fn popup_plane_entry(&self) -> (r: Option<(PopupPlaneBoundsKey, Measurement<LogicalRect>)>)
        ensures
            r == self.popup_answer(),
    {
        self.popup_plane_bounds
    }

    /// Returns the submitted pane-minimum answers in canonical key order.
    pub fn pane_minimum_answers(&self) -> (r: &KeyMap<PaneMinimumKey, Measurement<LogicalSize>>)
        ensures
            *r == self.pane_map(),
    {
        &self.pane_minimums
    }

    /// Returns the submitted tab-intrinsic answers in canonical key order.
    pub fn tab_intrinsic_answers(&self) -> (r: &KeyMap<TabIntrinsicKey, Measurement<TabIntrinsic>>)
        ensures
            *r == self.intrinsic_map(),
    {
        &self.tab_intrinsics
    }

    /// Returns the submitted tab-strip answers in canonical key order.
    pub fn tab_strip_answers(&self) -> (r: &KeyMap<TabStripKey, Measurement<TabStripMetrics>>)
        ensures
            *r == self.strip_map(),
    {
        &self.tab_strips
    }

    /// Whether `other` equals `self` in every answer except the flagged ones.
    pub open spec fn same_except(
        &self,
        other: &SurfaceMeasurements,
        bounds: bool,
        popup: bool,
        panes: bool,
        tabs: bool,
        strips: bool,
    ) -> bool {
        &&& self.ticket() == other.ticket()
        &&& !bounds ==> self.bounds_answer() == other.bounds_answer()
        &&& !popup ==> self.popup_answer() == other.popup_answer()
        &&& !panes ==> self.pane_map() == other.pane_map()
        &&& !tabs ==> self.intrinsic_map() == other.intrinsic_map()
        &&& !strips ==> self.strip_map() == other.strip_map()
    }

    /// Submits the surface-bounds answer; a second submission is rejected.
    pub fn set_bounds(&mut self, key: SurfaceBoundsKey, value: Measurement<LogicalRect>) -> (r:
        Result<(), MeasurementSubmissionError>)
        ensures
            old(self).bounds_answer() is Some ==> r == Err::<(), _>(
                MeasurementSubmissionError::DuplicateSurfaceBounds,
            ) && *final(self) == *old(self),
            old(self).bounds_answer() is None ==> r is Ok && final(self).bounds_answer() == Some(
                (key, value),
            ) && old(self).same_except(final(self), true, false, false, false, false),
    {
        if self.bounds.is_some() {
            return Err(MeasurementSubmissionError::DuplicateSurfaceBounds);
        }
        self.bounds = Some((key, value));
        Ok(())
    }

    /// Submits the popup-plane answer; a second submission is rejected.
    pub fn set_popup_plane_bounds(
        &mut self,
        key: PopupPlaneBoundsKey,
        value: Measurement<LogicalRect>,
    ) -> (r: Result<(), MeasurementSubmissionError>)
        ensures
            old(self).popup_answer() is Some ==> r == Err::<(), _>(
                MeasurementSubmissionError::DuplicatePopupPlaneBounds,
            ) && *final(self) == *old(self),
            old(self).popup_answer() is None ==> r is Ok && final(self).popup_answer() == Some(
                (key, value),
            ) && old(self).same_except(final(self), false, true, false, false, false),
    {
        if self.popup_plane_bounds.is_some() {
            return Err(MeasurementSubmissionError::DuplicatePopupPlaneBounds);
        }
        self.popup_plane_bounds = Some((key, value));
        Ok(())
    }

    /// Submits one pane-minimum answer; a second answer for the key is rejected.
    pub fn insert_pane_minimum(&mut self, key: PaneMinimumKey, value: Measurement<LogicalSize>) -> (r:
        Result<(), MeasurementSubmissionError>)
        ensures
            old(self).pane_map().has(key) ==> r == Err::<(), _>(
                MeasurementSubmissionError::DuplicatePaneMinimum { key },
            ) && *final(self) == *old(self),
            !old(self).pane_map().has(key) ==> r is Ok && (exists|p: int|
                0 <= p <= old(self).pane_map().view_seq().len() && final(self).pane_map().view_seq()
                    == old(self).pane_map().view_seq().insert(p, (key, value))) && old(self).same_except(
                final(self), false, false, true, false, false),
    {
        if self.pane_minimums.contains_key(&key) {
            return Err(MeasurementSubmissionError::DuplicatePaneMinimum { key });
        }
        self.pane_minimums.insert_new(key, value);
        Ok(())
    }

    /// Submits one tab-intrinsic answer; a second answer for the key is rejected.
    pub fn insert_tab_intrinsic(&mut self, key: TabIntrinsicKey, value: Measurement<TabIntrinsic>) -> (r:
        Result<(), MeasurementSubmissionError>)
        ensures
            old(self).intrinsic_map().has(key) ==> r == Err::<(), _>(
                MeasurementSubmissionError::DuplicateTabIntrinsic { key },
            ) && *final(self) == *old(self),
            !old(self).intrinsic_map().has(key) ==> r is Ok && (exists|p: int|
                0 <= p <= old(self).intrinsic_map().view_seq().len() && final(self).intrinsic_map().view_seq()
                    == old(self).intrinsic_map().view_seq().insert(p, (key, value))) && old(self).same_except(
                final(self), false, false, false, true, false),
    {
        if self.tab_intrinsics.contains_key(&key) {
            return Err(MeasurementSubmissionError::DuplicateTabIntrinsic { key });
        }
        self.tab_intrinsics.insert_new(key, value);
        Ok(())
    }

    /// Submits one tab-strip answer; a second answer for the key is rejected.
    pub fn insert_tab_strip(&mut self, key: TabStripKey, value: Measurement<TabStripMetrics>) -> (r:
        Result<(), MeasurementSubmissionError>)
        ensures
            old(self).strip_map().has(key) ==> r == Err::<(), _>(
                MeasurementSubmissionError::DuplicateTabStrip { key },
            ) && *final(self) == *old(self),
            !old(self).strip_map().has(key) ==> r is Ok && (exists|p: int|
                0 <= p <= old(self).strip_map().view_seq().len() && final(self).strip_map().view_seq()
                    == old(self).strip_map().view_seq().insert(p, (key, value))) && old(self).same_except(
                final(self), false, false, false, false, true),
    {
        if self.tab_strips.contains_key(&key) {
            return Err(MeasurementSubmissionError::DuplicateTabStrip { key });
        }
        self.tab_strips.insert_new(key, value);
        Ok(())
    }
}

/// A submitted contribution does not answer exactly the required questions.
#[derive(Debug, Clone, Copy, PartialEq, Eq, Structural)]
pub enum MeasurementValidationError {
    /// The ticket names another engine authority.
    AuthorityDomainMismatch {
        /// Required authority.
        expected: EngineAuthorityDomainId,
        /// Submitted authority.
        actual: EngineAuthorityDomainId,
    },
    /// The ticket names another workspace lineage.
    WorkspaceEpochMismatch {
        /// Required epoch.
        expected: WorkspaceEpoch,
        /// Submitted epoch.
        actual: WorkspaceEpoch,
    },
    /// The ticket names another configuration revision.
    ConfigMismatch {
        /// Required revision.
        expected: PresentationConfigRevision,
        /// Submitted revision.
        actual: PresentationConfigRevision,
    },
    /// The ticket names another policy revision.
    PolicyMismatch {
        /// Required revision.
        expected: PolicyRevision,
        /// Submitted revision.
        actual: PolicyRevision,
    },
    /// The ticket names another surface requirement revision.
    SurfaceRequirementMismatch {
        /// Required revision.
        expected: SurfaceRequirementRevision,
        /// Submitted revision.
        actual: SurfaceRequirementRevision,
    },
    /// The ticket names another surface.
    SurfaceMismatch {
        /// Required surface.
        expected: SurfaceId,
        /// Submitted surface.
        actual: SurfaceId,
    },
    /// The surface-bounds answer is missing.
    MissingSurfaceBounds,
    /// The surface-bounds answer uses another key.
    UnexpectedSurfaceBounds {
        /// Required key.
        expected: SurfaceBoundsKey,
        /// Submitted key.
        actual: SurfaceBoundsKey,
    },
    /// The popup-plane answer is missing.
    MissingPopupPlaneBounds,
    /// A popup-plane answer was not requested, or uses another key.
    UnexpectedPopupPlaneBounds {
        /// Required key, when one was requested.
        expected: Option<PopupPlaneBoundsKey>,
        /// Submitted key.
        actual: PopupPlaneBoundsKey,
    },
    /// A required pane minimum is missing.
    MissingPaneMinimum {
        /// Missing key.
        key: PaneMinimumKey,
    },
    /// A pane minimum was not requested.
    UnexpectedPaneMinimum {
        /// Unexpected key.
        key: PaneMinimumKey,
    },
    /// A required tab intrinsic is missing.
    MissingTabIntrinsic {
        /// Missing key.
        key: TabIntrinsicKey,
    },
    /// A tab intrinsic was not requested.
    UnexpectedTabIntrinsic {
        /// Unexpected key.
        key: TabIntrinsicKey,
    },
    /// A required tab strip is missing.
    MissingTabStrip {
        /// Missing key.
        key: TabStripKey,
    },
    /// A tab strip was not requested.
    UnexpectedTabStrip {
        /// Unexpected key.
        key: TabStripKey,
    },
}

/// An exactly validated contribution still holds an unavailable answer.
#[derive(Debug, Clone, Copy, PartialEq, Eq, Structural)]
pub enum MeasurementAuthorityError {
    /// The validated contribution lost its bounds answer.
    ValidatedBoundsMissing,
    /// The surface bounds are unavailable.
    SurfaceBounds {
        /// Adapter reason.
        reason: MeasurementUnavailableReason,
    },
    /// The popup-plane bounds are unavailable.
    PopupPlaneBounds {
        /// Adapter reason.
        reason: MeasurementUnavailableReason,
    },
    /// One pane minimum is unavailable.
    PaneMinimum {
        /// Unavailable key.
        key: PaneMinimumKey,
        /// Adapter reason.
        reason: MeasurementUnavailableReason,
    },
    /// One tab intrinsic is unavailable.
    TabIntrinsic {
        /// Unavailable key.
        key: TabIntrinsicKey,
        /// Adapter reason.
        reason: MeasurementUnavailableReason,
    },
    /// One tab strip is unavailable.
    TabStrip {
        /// Unavailable key.
        key: TabStripKey,
        /// Adapter reason.
        reason: MeasurementUnavailableReason,
    },
}

/// Outcome of comparing a required key set with submitted answers.
#[derive(Debug, Clone, Copy, PartialEq, Eq)]
pub enum SetCheck<K> {
    /// Exactly the required keys were answered.
    Complete,
    /// The first required key, in canonical order, without an answer.
    Missing(K),
    /// The first answered key, in canonical order, that was not required.
    Unexpected(K),
}

/// The first required key without an answer.
pub open spec fn first_missing<K, V>(required: Seq<K>, submitted: Seq<(K, V)>) -> Option<K>
    decreases required.len(),
{
    if required.len() == 0 {
        None
    } else if !entry_keys(submitted).contains(required[0]) {
        Some(required[0])
    } else {
        first_missing(required.drop_first(), submitted)
    }
}

/// The first answered key that was not required.
pub open spec fn first_unexpected<K, V>(required: Seq<K>, submitted: Seq<(K, V)>) -> Option<K>
    decreases submitted.len(),
{
    if submitted.len() == 0 {
        None
    } else if !required.contains(submitted[0].0) {
        Some(submitted[0].0)
    } else {
        first_unexpected(required, submitted.drop_first())
    }
}

/// Missing keys are reported before unexpected ones.
pub open spec fn set_check<K, V>(required: Seq<K>, submitted: Seq<(K, V)>) -> SetCheck<K> {
    match first_missing(required, submitted) {
        Some(key) => SetCheck::Missing(key),
        None => match first_unexpected(required, submitted) {
            Some(key) => SetCheck::Unexpected(key),
            None => SetCheck::Complete,
        },
    }
}

/// Compares a required key set with submitted answers.
pub fn check_exact_set<K: CanonicalKey, V>(required: &[K], submitted: &KeyMap<K, V>) -> (r: SetCheck<
    K,
>)
    ensures
        r == set_check(required@, submitted.view_seq()),
{
    let mut index: usize = 0;
    assert(required@.subrange(0, required@.len() as int) =~= required@);
    while index < required.len()
        invariant
            index <= required@.len(),
            first_missing(required@, submitted.view_seq()) == first_missing(
                required@.subrange(index as int, required@.len() as int),
                submitted.view_seq(),
            ),
        decreases required@.len() - index,
    {
        let ghost rest = required@.subrange(index as int, required@.len() as int);
        assert(rest.drop_first() =~= required@.subrange(index + 1, required@.len() as int));
        if !submitted.contains_key(&required[index]) {
            return SetCheck::Missing(required[index]);
        }
        index = index + 1;
    }
    assert(required@.subrange(index as int, required@.len() as int).len() == 0);
    let entries = submitted.entries();
    let mut cursor: usize = 0;
    assert(entries@.subrange(0, entries@.len() as int) =~= entries@);
    while cursor < entries.len()
        invariant
            cursor <= entries@.len(),
            entries@ == submitted.view_seq(),
            first_missing(required@, submitted.view_seq()) is None,
            first_unexpected(required@, entries@) == first_unexpected(
                required@,
                entries@.subrange(cursor as int, entries@.len() as int),
            ),
        decreases entries@.len() - cursor,
    {
        let ghost rest = entries@.subrange(cursor as int, entries@.len() as int);
        assert(rest.drop_first() =~= entries@.subrange(cursor + 1, entries@.len() as int));
        if !crate::collections::slice_has(required, &entries[cursor].0) {
            return SetCheck::Unexpected(entries[cursor].0);
        }
        cursor = cursor + 1;
    }
    assert(entries@.subrange(cursor as int, entries@.len() as int).len() == 0);
    SetCheck::Complete
}

/// The first field in which a submitted ticket differs from the required one.
pub open spec fn ticket_error(expected: SurfaceMeasurementTicket, actual: SurfaceMeasurementTicket) -> Option<
    MeasurementValidationError,
> {
    if expected.authority_domain() != actual.authority_domain() {
        Some(
            MeasurementValidationError::AuthorityDomainMismatch {
                expected: expected.authority_domain(),
                actual: actual.authority_domain(),
            },
        )
    } else if expected.workspace_epoch() != actual.workspace_epoch() {
        Some(
            MeasurementValidationError::WorkspaceEpochMismatch {
                expected: expected.workspace_epoch(),
                actual: actual.workspace_epoch(),
            },
        )
    } else if expected.config() != actual.config() {
        Some(
            MeasurementValidationError::ConfigMismatch {
                expected: expected.config(),
                actual: actual.config(),
            },
        )
    } else if expected.policy() != actual.policy() {
        Some(
            MeasurementValidationError::PolicyMismatch {
                expected: expected.policy(),
                actual: actual.policy(),
            },
        )
    } else if expected.surface_requirement() != actual.surface_requirement() {
        Some(
            MeasurementValidationError::SurfaceRequirementMismatch {
                expected: expected.surface_requirement(),
                actual: actual.surface_requirement(),
            },
        )
    } else if expected.surface() != actual.surface() {
        Some(
            MeasurementValidationError::SurfaceMismatch {
                expected: expected.surface(),
                actual: actual.surface(),
            },
        )
    } else {
        None
    }
}

fn validate_ticket(expected: SurfaceMeasurementTicket, actual: SurfaceMeasurementTicket) -> (r:
    Result<(), MeasurementValidationError>)
    ensures
        ticket_error(expected, actual) matches Some(e) ==> r == Err::<(), _>(e),
        ticket_error(expected, actual) is None ==> r is Ok,
{
    if expected.authority_domain() != actual.authority_domain() {
        return Err(
            MeasurementValidationError::AuthorityDomainMismatch {
                expected: expected.authority_domain(),
                actual: actual.authority_domain(),
            },
        );
    }
    if expected.workspace_epoch() != actual.workspace_epoch() {
        return Err(
            MeasurementValidationError::WorkspaceEpochMismatch {
                expected: expected.workspace_epoch(),
                actual: actual.workspace_epoch(),
            },
        );
    }
    if expected.config() != actual.config() {
        return Err(
            MeasurementValidationError::ConfigMismatch {
                expected: expected.config(),
                actual: actual.config(),
            },
        );
    }
    if expected.policy() != actual.policy() {
        return Err(
            MeasurementValidationError::PolicyMismatch {
                expected: expected.policy(),
                actual: actual.policy(),
            },
        );
    }
    if expected.surface_requirement() != actual.surface_requirement() {
        return Err(
            MeasurementValidationError::SurfaceRequirementMismatch {
                expected: expected.surface_requirement(),
                actual: actual.surface_requirement(),
            },
        );
    }
    if expected.surface() != actual.surface() {
        return Err(
            MeasurementValidationError::SurfaceMismatch {
                expected: expected.surface(),
                actual: actual.surface(),
            },
        );
    }
    Ok(())
}

/// The exact-set rejection of a contribution, checked in a fixed order: the
/// ticket, the bounds answer, the popup-plane answer, then pane minima, tab
/// intrinsics, and tab strips.
pub open spec fn validation_error(req: SurfaceRequirements, m: SurfaceMeasurements) -> Option<
    MeasurementValidationError,
> {
    if ticket_error(req.ticket(), m.ticket()) is Some {
        ticket_error(req.ticket(), m.ticket())
    } else if m.bounds_answer() is None {
        Some(MeasurementValidationError::MissingSurfaceBounds)
    } else if m.bounds_key()->0 != req.bounds() {
        Some(
            MeasurementValidationError::UnexpectedSurfaceBounds {
                expected: req.bounds(),
                actual: m.bounds_key()->0,
            },
        )
    } else if req.popup_plane_bounds() is Some && m.popup_answer() is None {
        Some(MeasurementValidationError::MissingPopupPlaneBounds)
    } else if m.popup_answer() is Some && req.popup_plane_bounds() != Some(m.popup_key()->0) {
        Some(
            MeasurementValidationError::UnexpectedPopupPlaneBounds {
                expected: req.popup_plane_bounds(),
                actual: m.popup_key()->0,
            },
        )
    } else {
        match set_check(req.pane_minimums_view(), m.pane_map().view_seq()) {
            SetCheck::Missing(key) => Some(MeasurementValidationError::MissingPaneMinimum { key }),
            SetCheck::Unexpected(key) => Some(
                MeasurementValidationError::UnexpectedPaneMinimum { key },
            ),
            SetCheck::Complete => match set_check(
                req.tab_intrinsics_view(),
                m.intrinsic_map().view_seq(),
            ) {
                SetCheck::Missing(key) => Some(
                    MeasurementValidationError::MissingTabIntrinsic { key },
                ),
                SetCheck::Unexpected(key) => Some(
                    MeasurementValidationError::UnexpectedTabIntrinsic { key },
                ),
                SetCheck::Complete => match set_check(
                    req.tab_strips_view(),
                    m.strip_map().view_seq(),
                ) {
                    SetCheck::Missing(key) => Some(
                        MeasurementValidationError::MissingTabStrip { key },
                    ),
                    SetCheck::Unexpected(key) => Some(
                        MeasurementValidationError::UnexpectedTabStrip { key },
                    ),
                    SetCheck::Complete => None,
                },
            },
        }
    }
}

/// A contribution proven to answer exactly its required questions.
#[derive(Debug, Clone, Copy)]
pub struct ValidatedSurfaceMeasurements<'a> {
    measurements: &'a SurfaceMeasurements,
}

impl SurfaceRequirements {
    /// Validates that `measurements` answers exactly these questions.
    pub fn validate<'a>(&'a self, measurements: &'a SurfaceMeasurements) -> (r: Result<
        ValidatedSurfaceMeasurements<'a>,
        MeasurementValidationError,
    >)
        ensures
            r is Ok <==> validation_error(*self, *measurements) is None,
            r matches Err(e) ==> validation_error(*self, *measurements) == Some(e),
            r matches Ok(v) ==> v.measurements() == *measurements,
    {
        validate_ticket(self.ticket(), measurements.ticket())?;
        match measurements.bounds_entry() {
            None => {
                return Err(MeasurementValidationError::MissingSurfaceBounds);
            },
            Some((key, _)) => {
                if key != self.bounds() {
                    return Err(
                        MeasurementValidationError::UnexpectedSurfaceBounds {
                            expected: self.bounds(),
                            actual: key,
                        },
                    );
                }
            },
        }
        match (self.popup_plane_bounds(), measurements.popup_plane_entry()) {
            (Some(_), None) => {
                return Err(MeasurementValidationError::MissingPopupPlaneBounds);
            },
            (Some(expected), Some((actual, _))) => {
                if expected != actual {
                    return Err(
                        MeasurementValidationError::UnexpectedPopupPlaneBounds {
                            expected: Some(expected),
                            actual,
                        },
                    );
                }
            },
            (None, Some((actual, _))) => {
                return Err(
                    MeasurementValidationError::UnexpectedPopupPlaneBounds {
                        expected: None,
                        actual,
                    },
                );
            },
            (None, None) => {},
        }
        match check_exact_set(self.pane_minimums(), measurements.pane_minimum_answers()) {
            SetCheck::Missing(key) => {
                return Err(MeasurementValidationError::MissingPaneMinimum { key });
            },
            SetCheck::Unexpected(key) => {
                return Err(MeasurementValidationError::UnexpectedPaneMinimum { key });
            },
            SetCheck::Complete => {},
        }
        match check_exact_set(self.tab_intrinsics(), measurements.tab_intrinsic_answers()) {
            SetCheck::Missing(key) => {
                return Err(MeasurementValidationError::MissingTabIntrinsic { key });
            },
            SetCheck::Unexpected(key) => {
                return Err(MeasurementValidationError::UnexpectedTabIntrinsic { key });
            },
            SetCheck::Complete => {},
        }
        match check_exact_set(self.tab_strips(), measurements.tab_strip_answers()) {
            SetCheck::Missing(key) => {
                return Err(MeasurementValidationError::MissingTabStrip { key });
            },
            SetCheck::Unexpected(key) => {
                return Err(MeasurementValidationError::UnexpectedTabStrip { key });
            },
            SetCheck::Complete => {},
        }
        Ok(ValidatedSurfaceMeasurements { measurements })
    }
}

/// The first unavailable answer among entries, in order.
pub open spec fn first_unavailable<K, T>(entries: Seq<(K, Measurement<T>)>) -> Option<
    (K, MeasurementUnavailableReason),
>
    decreases entries.len(),
{
    if entries.len() == 0 {
        None
    } else {
        match entries[0].1 {
            Measurement::Unavailable(reason) => Some((entries[0].0, reason)),
            Measurement::Measured(_) => first_unavailable(entries.drop_first()),
        }
    }
}

fn find_unavailable<K: CanonicalKey, T>(answers: &KeyMap<K, Measurement<T>>) -> (r: Option<
    (K, MeasurementUnavailableReason),
>)
    ensures
        r == first_unavailable(answers.view_seq()),
{
    let entries = answers.entries();
    let mut cursor: usize = 0;
    assert(entries@.subrange(0, entries@.len() as int) =~= entries@);
    while cursor < entries.len()
        invariant
            cursor <= entries@.len(),
            entries@ == answers.view_seq(),
            first_unavailable(entries@) == first_unavailable(
                entries@.subrange(cursor as int, entries@.len() as int),
            ),
        decreases entries@.len() - cursor,
    {
        let ghost rest = entries@.subrange(cursor as int, entries@.len() as int);
        assert(rest.drop_first() =~= entries@.subrange(cursor + 1, entries@.len() as int));
        match &entries[cursor].1 {
            Measurement::Unavailable(reason) => {
                return Some((entries[cursor].0, *reason));
            },
            Measurement::Measured(_) => {},
        }
        cursor = cursor + 1;
    }
    assert(entries@.subrange(cursor as int, entries@.len() as int).len() == 0);
    None
}

/// Why a validated contribution cannot become authoritative, checked in a
/// fixed order: bounds, popup plane, pane minima, tab intrinsics, tab strips.
pub open spec fn authority_error(m: SurfaceMeasurements) -> Option<MeasurementAuthorityError> {
    match m.bounds_answer() {
        None => Some(MeasurementAuthorityError::ValidatedBoundsMissing),
        Some((_, Measurement::Unavailable(reason))) => Some(
            MeasurementAuthorityError::SurfaceBounds { reason },
        ),
        Some((_, Measurement::Measured(_))) => match m.popup_answer() {
            Some((_, Measurement::Unavailable(reason))) => Some(
                MeasurementAuthorityError::PopupPlaneBounds { reason },
            ),
            _ => match first_unavailable(m.pane_map().view_seq()) {
                Some((key, reason)) => Some(MeasurementAuthorityError::PaneMinimum { key, reason }),
                None => match first_unavailable(m.intrinsic_map().view_seq()) {
                    Some((key, reason)) => Some(
                        MeasurementAuthorityError::TabIntrinsic { key, reason },
                    ),
                    None => match first_unavailable(m.strip_map().view_seq()) {
                        Some((key, reason)) => Some(
                            MeasurementAuthorityError::TabStrip { key, reason },
                        ),
                        None => None,
                    },
                },
            },
        },
    }
}

/// The measured value answered for `key`, when present and measured.
pub open spec fn measured_in<K: CanonicalKey, T>(answers: KeyMap<K, Measurement<T>>, key: K) -> Option<T> {
    if answers.has(key) {
        match answers.value_of(key) {
            Measurement::Measured(value) => Some(value),
            Measurement::Unavailable(_) => None,
        }
    } else {
        None
    }
}

impl<'a> ValidatedSurfaceMeasurements<'a> {
    /// The validated contribution.
    pub closed spec fn measurements(&self) -> SurfaceMeasurements {
        *self.measurements
    }

    /// Requires every answer of the contribution to be measured.
    pub fn require_authoritative(self) -> (r: Result<
        AuthoritativeSurfaceMeasurements<'a>,
        MeasurementAuthorityError,
    >)
        ensures
            r is Ok <==> authority_error(self.measurements()) is None,
            r matches Err(e) ==> authority_error(self.measurements()) == Some(e),
            r matches Ok(a) ==> a.measurements() == self.measurements() && Some(
                Measurement::<LogicalRect>::Measured(a.bounds()),
            ) == self.measurements().bounds_value() && (self.measurements().popup_answer() is None ==> a.popup_plane_bounds() is None)
                && (self.measurements().popup_answer() is Some ==> Some(
                Measurement::<LogicalRect>::Measured(a.popup_plane_bounds()->0),
            ) == self.measurements().popup_value() && a.popup_plane_bounds() is Some),
    {
        let measurements = self.measurements;
        let bounds = match measurements.bounds_entry() {
            Some((_, Measurement::Measured(bounds))) => bounds,
            Some((_, Measurement::Unavailable(reason))) => {
                return Err(MeasurementAuthorityError::SurfaceBounds { reason });
            },
            None => {
                return Err(MeasurementAuthorityError::ValidatedBoundsMissing);
            },
        };
        let popup_plane_bounds = match measurements.popup_plane_entry() {
            Some((_, Measurement::Measured(bounds))) => Some(bounds),
            Some((_, Measurement::Unavailable(reason))) => {
                return Err(MeasurementAuthorityError::PopupPlaneBounds { reason });
            },
            None => None,
        };
        if let Some((key, reason)) = find_unavailable(measurements.pane_minimum_answers()) {
            return Err(MeasurementAuthorityError::PaneMinimum { key, reason });
        }
        if let Some((key, reason)) = find_unavailable(measurements.tab_intrinsic_answers()) {
            return Err(MeasurementAuthorityError::TabIntrinsic { key, reason });
        }
        if let Some((key, reason)) = find_unavailable(measurements.tab_strip_answers()) {
            return Err(MeasurementAuthorityError::TabStrip { key, reason });
        }
        Ok(AuthoritativeSurfaceMeasurements { measurements, bounds, popup_plane_bounds })
    }
}

/// A validated contribution whose every answer is measured.
#[derive(Debug, Clone, Copy)]
pub struct AuthoritativeSurfaceMeasurements<'a> {
    measurements: &'a SurfaceMeasurements,
    bounds: LogicalRect,
    popup_plane_bounds: Option<LogicalRect>,
}

impl AuthoritativeSurfaceMeasurements<'_> {
    /// The authoritative contribution.
    pub closed spec fn measurements(&self) -> SurfaceMeasurements {
        *self.measurements
    }

    /// Exact bounds behind [`Self::bounds`].
    pub closed spec fn spec_bounds(&self) -> LogicalRect {
        self.bounds
    }

    /// Exact popup plane behind [`Self::popup_plane_bounds`].
    pub closed spec fn spec_popup_plane_bounds(&self) -> Option<LogicalRect> {
        self.popup_plane_bounds
    }

    /// Returns the answered ticket.
    pub fn ticket(&self) -> (r: SurfaceMeasurementTicket)
        ensures
            r == self.measurements().ticket(),
    {
        self.measurements.ticket()
    }

    /// Returns the measured surface bounds.
    #[verifier::when_used_as_spec(spec_bounds)]
    pub fn bounds(&self) -> (r: LogicalRect)
        ensures
            r == self.spec_bounds(),
    {
        self.bounds
    }

    /// Returns the measured popup plane, when one was required.
    #[verifier::when_used_as_spec(spec_popup_plane_bounds)]
    pub fn popup_plane_bounds(&self) -> (r: Option<LogicalRect>)
        ensures
            r == self.spec_popup_plane_bounds(),
    {
        self.popup_plane_bounds
    }

    /// Returns the measured minimum of one pane.
    pub fn pane_minimum(&self, key: PaneMinimumKey) -> (r: Option<LogicalSize>)
        ensures
            r == measured_in(self.measurements().pane_map(), key),
    {
        match self.measurements.pane_minimum_answers().get(&key) {
            Some(Measurement::Measured(value)) => Some(*value),
            _ => None,
        }
    }

    /// Returns the measured intrinsic width of one tab.
    pub fn tab_intrinsic(&self, key: TabIntrinsicKey) -> (r: Option<TabIntrinsic>)
        ensures
            r == measured_in(self.measurements().intrinsic_map(), key),
    {
        match self.measurements.tab_intrinsic_answers().get(&key) {
            Some(Measurement::Measured(value)) => Some(*value),
            _ => None,
        }
    }

    /// Returns the measured metrics of one tab strip.
    pub fn tab_strip(&self, key: TabStripKey) -> (r: Option<TabStripMetrics>)
        ensures
            r == measured_in(self.measurements().strip_map(), key),
    {
        match self.measurements.tab_strip_answers().get(&key) {
            Some(Measurement::Measured(value)) => Some(*value),
            _ => None,
        }
    }
}

/// A contribution answers exactly the questions of `req`: the same ticket,
/// the surface-bounds question, the popup-plane question exactly when one is
/// asked, and exactly the required pane, tab, and strip keys.
pub open spec fn answers_exactly(req: SurfaceRequirements, m: SurfaceMeasurements) -> bool {
    &&& m.ticket() == req.ticket()
    &&& m.bounds_key() == Some(req.bounds())
    &&& m.popup_key() == req.popup_plane_bounds()
    &&& forall|k: PaneMinimumKey|
        req.pane_minimums_view().contains(k) <==> entry_keys(m.pane_map().view_seq()).contains(k)
    &&& forall|k: TabIntrinsicKey|
        req.tab_intrinsics_view().contains(k) <==> entry_keys(
            m.intrinsic_map().view_seq(),
        ).contains(k)
    &&& forall|k: TabStripKey|
        req.tab_strips_view().contains(k) <==> entry_keys(m.strip_map().view_seq()).contains(k)
}

proof fn lemma_first_missing_none<K, V>(required: Seq<K>, submitted: Seq<(K, V)>)
    ensures
        first_missing(required, submitted) is None <==> forall|k: K|
            required.contains(k) ==> entry_keys(submitted).contains(k),
    decreases required.len(),
{
    if required.len() > 0 {
        lemma_first_missing_none(required.drop_first(), submitted);
        if first_missing(required, submitted) is None {
            assert forall|k: K| required.contains(k) implies entry_keys(submitted).contains(k) by {
                let i = choose|i: int| 0 <= i < required.len() && required[i] == k;
                if i > 0 {
                    assert(required.drop_first()[i - 1] == k);
                    assert(required.drop_first().contains(k));
                }
            }
        }
        if forall|k: K| required.contains(k) ==> entry_keys(submitted).contains(k) {
            assert(required.contains(required[0]));
            assert forall|k: K| required.drop_first().contains(k) implies entry_keys(
                submitted,
            ).contains(k) by {
                let i = choose|i: int| 0 <= i < required.drop_first().len() && required.drop_first()[i]
                    == k;
                assert(required[i + 1] == k);
                assert(required.contains(k));
            }
        }
    }
}

proof fn lemma_first_unexpected_none<K, V>(required: Seq<K>, submitted: Seq<(K, V)>)
    ensures
        first_unexpected(required, submitted) is None <==> forall|k: K|
            entry_keys(submitted).contains(k) ==> required.contains(k),
    decreases submitted.len(),
{
    if submitted.len() > 0 {
        lemma_first_unexpected_none(required, submitted.drop_first());
        assert(entry_keys(submitted.drop_first()) =~= entry_keys(submitted).drop_first());
        if first_unexpected(required, submitted) is None {
            assert forall|k: K| entry_keys(submitted).contains(k) implies required.contains(k) by {
                let i = choose|i: int| 0 <= i < entry_keys(submitted).len() && entry_keys(
                    submitted,
                )[i] == k;
                if i > 0 {
                    assert(entry_keys(submitted.drop_first())[i - 1] == k);
                    assert(entry_keys(submitted.drop_first()).contains(k));
                }
            }
        }
        if forall|k: K| entry_keys(submitted).contains(k) ==> required.contains(k) {
            assert(entry_keys(submitted)[0] == submitted[0].0);
            assert(entry_keys(submitted).contains(submitted[0].0));
            assert forall|k: K| entry_keys(submitted.drop_first()).contains(k) implies required.contains(
                k,
            ) by {
                let i = choose|i: int|
                    0 <= i < entry_keys(submitted.drop_first()).len() && entry_keys(
                        submitted.drop_first(),
                    )[i] == k;
                assert(entry_keys(submitted)[i + 1] == k);
                assert(entry_keys(submitted).contains(k));
            }
        }
    }
}

proof fn lemma_set_check_complete<K, V>(required: Seq<K>, submitted: Seq<(K, V)>)
    ensures
        set_check(required, submitted) is Complete <==> forall|k: K|
            required.contains(k) <==> entry_keys(submitted).contains(k),
{
    lemma_first_missing_none(required, submitted);
    lemma_first_unexpected_none(required, submitted);
}

/// A contribution passes validation exactly when it answers exactly the
/// required questions.
pub proof fn lemma_validation_is_exactness(req: SurfaceRequirements, m: SurfaceMeasurements)
    ensures
        validation_error(req, m) is None <==> answers_exactly(req, m),
{
    lemma_set_check_complete(req.pane_minimums_view(), m.pane_map().view_seq());
    lemma_set_check_complete(req.tab_intrinsics_view(), m.intrinsic_map().view_seq());
    lemma_set_check_complete(req.tab_strips_view(), m.strip_map().view_seq());
    if ticket_error(req.ticket(), m.ticket()) is None {
        req.ticket().lemma_ticket_ext(m.ticket());
    }
}

/// Whether every answer of a contribution is a measured value.
pub open spec fn all_measured(m: SurfaceMeasurements) -> bool {
    &&& m.bounds_value() matches Some(Measurement::Measured(_))
    &&& !(m.popup_value() matches Some(Measurement::Unavailable(_)))
    &&& forall|i: int|
        0 <= i < m.pane_map().view_seq().len() ==> m.pane_map().view_seq()[i].1 is Measured
    &&& forall|i: int|
        0 <= i < m.intrinsic_map().view_seq().len() ==> m.intrinsic_map().view_seq()[i].1 is Measured
    &&& forall|i: int|
        0 <= i < m.strip_map().view_seq().len() ==> m.strip_map().view_seq()[i].1 is Measured
}

proof fn lemma_first_unavailable_none<K, T>(entries: Seq<(K, Measurement<T>)>)
    ensures
        first_unavailable(entries) is None <==> forall|i: int|
            0 <= i < entries.len() ==> entries[i].1 is Measured,
    decreases entries.len(),
{
    if entries.len() > 0 {
        lemma_first_unavailable_none(entries.drop_first());
        if forall|i: int| 0 <= i < entries.len() ==> entries[i].1 is Measured {
            assert(entries[0].1 is Measured);
            assert forall|i: int| 0 <= i < entries.drop_first().len() implies entries.drop_first()[i].1 is Measured by {
                assert(entries[i + 1].1 is Measured);
            }
        }
        if first_unavailable(entries) is None {
            assert forall|i: int| 0 <= i < entries.len() implies entries[i].1 is Measured by {
                if i > 0 {
                    assert(entries.drop_first()[i - 1] == entries[i]);
                }
            }
        }
    }
}

/// A contribution is authoritative exactly when every answer it holds is a
/// measured value.
pub proof fn lemma_authority_is_all_measured(m: SurfaceMeasurements)
    ensures
        authority_error(m) is None <==> all_measured(m),
{
    lemma_first_unavailable_none(m.pane_map().view_seq());
    lemma_first_unavailable_none(m.intrinsic_map().view_seq());
    lemma_first_unavailable_none(m.strip_map().view_seq());
}

} // verus!
