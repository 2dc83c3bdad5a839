//! One surface's compiled presentation plan and the input routing decisions
//! it answers: the authoritative layer at a point, the tab strip that owns
//! wheel input, and the splitter target of a resize gesture.

use vstd::prelude::*;

use crate::geometry::{LogicalPoint, LogicalRect};
use crate::ids::{FloatingPresentationId, SceneLayerKey, SurfaceId};
use crate::manifest::keys::SurfaceMeasurementTicket;
use crate::occlusion::{region_has_authoritative_area, has_authoritative_area, DropOcclusionRecord};
use crate::records::contained::{ContainedMinimumMeasurement, ContainedRecord};
use crate::records::splitter::{
    SplitterGapRecord, SplitterJunctionId, SplitterJunctionRecord, SplitterRecord,
    SplitterResizeHitError, SplitterResizeTarget, SplitterSceneId,
};
use crate::records::tab::{
    PaneRecord, PaneSceneId, TabBarRecord, TabBarSceneId, TabListMenuBackdropRecord,
    TabListMenuRecord, TabRecord, TabSceneId, TabStripControlRecord,
};
use crate::sorting::{
    lemma_filter_respects_multiset, lemma_sole_match_filter, records_sorted, sole_match,
    sort_records_in_place, OrderedRecord,
};
use crate::tab_strip::{PopupPlaneRequirement, TabListMenuSessionId, TabStripControlId};

verus! {

/// The highest layer among the occlusions covering `p`, if any covers it.
pub open spec fn covering_max(occlusions: Seq<DropOcclusionRecord>, p: LogicalPoint) -> Option<u64>
    decreases occlusions.len(),
{
    if occlusions.len() == 0 {
        None
    } else {
        let rest = covering_max(occlusions.drop_last(), p);
        let last = occlusions.last();
        if last.region().rect.contains_point(p) {
            match rest {
                Some(m) => if last.layer().0 > m {
                    Some(last.layer().0)
                } else {
                    Some(m)
                },
                None => Some(last.layer().0),
            }
        } else {
            rest
        }
    }
}

/// The frontmost layer of the occlusions covering `p`, or the surface's base
/// layer when none does.
pub open spec fn top_layer(occlusions: Seq<DropOcclusionRecord>, p: LogicalPoint) -> u64 {
    match covering_max(occlusions, p) {
        Some(m) => m,
        None => 1,
    }
}

/// The region of occlusion `o` holds `p`.
pub open spec fn occlusion_covers(o: DropOcclusionRecord, p: LogicalPoint) -> bool {
    o.region().rect.contains_point(p)
}

/// What `covering_max` finds: nothing exactly when no occlusion covers `p`,
/// else the layer of a covering occlusion that no covering occlusion exceeds.
proof fn lemma_covering_max(occlusions: Seq<DropOcclusionRecord>, p: LogicalPoint)
    ensures
        covering_max(occlusions, p) is None <==> forall|i: int|
            0 <= i < occlusions.len() ==> !occlusion_covers(#[trigger] occlusions[i], p),
        covering_max(occlusions, p) matches Some(m) ==> (exists|i: int|
            0 <= i < occlusions.len() && occlusion_covers(#[trigger] occlusions[i], p)
                && occlusions[i].layer().0 == m),
        covering_max(occlusions, p) matches Some(m) ==> (forall|i: int|
            0 <= i < occlusions.len() && occlusion_covers(#[trigger] occlusions[i], p)
                ==> occlusions[i].layer().0 <= m),
    decreases occlusions.len(),
{
    if occlusions.len() > 0 {
        let rest = occlusions.drop_last();
        lemma_covering_max(rest, p);
        let n = occlusions.len() - 1;
        assert forall|i: int| 0 <= i < n implies occlusions[i] == #[trigger] rest[i] by {}
        let last = occlusions.last();
        assert(occlusions[n] == last);
        if occlusion_covers(last, p) {
            match covering_max(rest, p) {
                Some(m) => {
                    let j = choose|i: int|
                        0 <= i < rest.len() && occlusion_covers(#[trigger] rest[i], p)
                            && rest[i].layer().0 == m;
                    assert(occlusions[j] == rest[j]);
                    assert forall|i: int|
                        0 <= i < occlusions.len() && occlusion_covers(#[trigger] occlusions[i], p)
                            implies occlusions[i].layer().0 <= covering_max(occlusions, p)->0 by {
                        if i < n {
                            assert(occlusions[i] == rest[i]);
                        }
                    }
                },
                None => {
                    assert forall|i: int|
                        0 <= i < occlusions.len() && occlusion_covers(#[trigger] occlusions[i], p)
                            implies occlusions[i].layer().0 <= covering_max(occlusions, p)->0 by {
                        if i < n {
                            assert(occlusions[i] == rest[i]);
                        }
                    }
                },
            }
        } else {
            assert forall|i: int|
                0 <= i < occlusions.len() && occlusion_covers(#[trigger] occlusions[i], p)
                    implies i < n by {}
            if covering_max(rest, p) is Some {
                let j = choose|i: int|
                    0 <= i < rest.len() && occlusion_covers(#[trigger] rest[i], p)
                        && rest[i].layer().0 == covering_max(rest, p)->0;
                assert(occlusions[j] == rest[j]);
                assert forall|i: int|
                    0 <= i < occlusions.len() && occlusion_covers(#[trigger] occlusions[i], p)
                        implies occlusions[i].layer().0 <= covering_max(occlusions, p)->0 by {
                    assert(occlusions[i] == rest[i]);
                }
            } else {
                assert forall|i: int|
                    0 <= i < occlusions.len() implies !occlusion_covers(#[trigger] occlusions[i], p) by {
                    if i < n {
                        assert(occlusions[i] == rest[i]);
                    }
                }
            }
        }
    }
}

/// The frontmost layer at a point is the highest layer covering it: no
/// occlusion whose region holds `p` lies above it, and it is the layer of one
/// of them, or the surface's base layer 1 when none holds `p`. Record order
/// plays no part.
pub proof fn lemma_top_layer_is_frontmost(occlusions: Seq<DropOcclusionRecord>, p: LogicalPoint)
    ensures
        forall|i: int|
            0 <= i < occlusions.len() && occlusion_covers(#[trigger] occlusions[i], p)
                ==> occlusions[i].layer().0 <= top_layer(occlusions, p),
        (exists|i: int|
            0 <= i < occlusions.len() && occlusion_covers(#[trigger] occlusions[i], p)
                && occlusions[i].layer().0 == top_layer(occlusions, p)) || (top_layer(occlusions, p)
            == 1 && forall|i: int|
            0 <= i < occlusions.len() ==> !occlusion_covers(#[trigger] occlusions[i], p)),
{
    lemma_covering_max(occlusions, p);
}

/// The splitter target resolved at a point is owned there: a handle target is
/// an operable splitter record whose hit region holds `p` on the frontmost
/// layer at `p`, with no junction record claiming `p` on that layer; a
/// junction target is a junction record whose hit region holds `p` on that
/// layer; and off the surface nothing is targeted.
pub proof fn lemma_resize_target_is_owned(plan: &PresentationPlan, p: LogicalPoint)
    ensures
        !plan.spec_bounds().contains_point(p) ==> plan.resize_target(p) == Ok::<
            Option<SplitterResizeTarget>,
            SplitterResizeHitError,
        >(None),
        plan.resize_target(p) matches Ok(Some(SplitterResizeTarget::Handle(id))) ==> {
            &&& plan.spec_bounds().contains_point(p)
            &&& exists|i: int|
                0 <= i < plan.splitters_view().len() && (#[trigger] plan.splitters_view()[i]).spec_id()
                    == id && plan.splitters_view()[i].operable() && plan.splitters_view()[i].hit().rect.contains_point(p)
                    && plan.splitters_view()[i].layer().0 == top_layer(plan.occlusions_view(), p)
            &&& forall|j: int|
                0 <= j < plan.junctions_view().len() ==> !junction_claims(
                    #[trigger] plan.junctions_view()[j],
                    top_layer(plan.occlusions_view(), p),
                    p,
                )
        },
        plan.resize_target(p) matches Ok(Some(SplitterResizeTarget::Junction(id))) ==> {
            &&& plan.spec_bounds().contains_point(p)
            &&& exists|j: int|
                0 <= j < plan.junctions_view().len() && (#[trigger] plan.junctions_view()[j]).spec_id()
                    == id && plan.junctions_view()[j].layer().0 == top_layer(plan.occlusions_view(), p)
                    && plan.junctions_view()[j].hit().rect.contains_point(p)
        },
{
    let layer = top_layer(plan.occlusions_view(), p);
    let jp = |j: SplitterJunctionRecord| junction_claims(j, layer, p);
    let hp = |s: SplitterRecord| handle_claims(s, layer, p);
    let junctions = plan.junctions_view().filter(jp);
    let handles = plan.splitters_view().filter(hp);
    plan.junctions_view().filter_lemma(jp);
    plan.splitters_view().filter_lemma(hp);
    if plan.spec_bounds().contains_point(p) {
        if junctions.len() == 1 {
            assert(junctions.contains(junctions[0]));
            plan.junctions_view().lemma_filter_contains_rev(jp, junctions[0]);
            assert(jp(junctions[0]));
        } else if junctions.len() == 0 {
            assert forall|j: int| 0 <= j < plan.junctions_view().len() implies !junction_claims(
                #[trigger] plan.junctions_view()[j],
                layer,
                p,
            ) by {
                if jp(plan.junctions_view()[j]) {
                    assert(junctions.contains(plan.junctions_view()[j]));
                }
            }
            if handles.len() == 1 {
                assert(handles.contains(handles[0]));
                plan.splitters_view().lemma_filter_contains_rev(hp, handles[0]);
                assert(hp(handles[0]));
            }
        }
    }
}

/// The tab strip that owns wheel scrolling at a point: none while an open
/// menu's backdrop holds the point; otherwise the owner is a bar whose
/// viewport holds `p`, inside the surface, on the frontmost layer at `p`,
/// and no other bar is such a bar.
pub proof fn lemma_scroll_owner_is_eligible(plan: &PresentationPlan, p: LogicalPoint)
    ensures
        (exists|b: int|
            0 <= b < plan.backdrops_view().len() && (#[trigger] plan.backdrops_view()[b]).bounds().contains_point(
                p,
            )) ==> plan.scroll_owner(p) is None,
        plan.scroll_owner(p) matches Some(id) ==> exists|i: int|
            0 <= i < plan.tab_bars_view().len() && (#[trigger] plan.tab_bars_view()[i]).spec_id() == id
                && plan.tab_bars_view()[i].viewport().contains_point(p) && plan.spec_bounds().contains_point(p)
                && plan.tab_bars_view()[i].layer().0 == top_layer(plan.occlusions_view(), p)
                && forall|j: int|
                0 <= j < plan.tab_bars_view().len() && j != i ==> !(plan.tab_bars_view()[j].viewport().contains_point(p)
                    && plan.tab_bars_view()[j].layer().0 == top_layer(plan.occlusions_view(), p)),
{
}

/// A junction record claims `p` on `layer`.
pub open spec fn junction_claims(j: SplitterJunctionRecord, layer: u64, p: LogicalPoint) -> bool {
    j.layer().0 == layer && j.hit().rect.contains_point(p)
}

/// An operable splitter handle claims `p` on `layer`.
pub open spec fn handle_claims(s: SplitterRecord, layer: u64, p: LogicalPoint) -> bool {
    s.operable() && s.layer().0 == layer && s.hit().rect.contains_point(p)
}

/// One record list of a presentation plan.
#[derive(Debug, Clone, Copy, PartialEq, Eq, Structural)]
pub enum PlanRecordList {
    /// The panes records.
    Panes,
    /// The tabs records.
    Tabs,
    /// The tab bars records.
    TabBars,
    /// The controls records.
    Controls,
    /// The menus records.
    Menus,
    /// The backdrops records.
    Backdrops,
    /// The gaps records.
    Gaps,
    /// The splitters records.
    Splitters,
    /// The junctions records.
    Junctions,
    /// The contained records.
    Contained,
    /// The minimums records.
    Minimums,
    /// The occlusions records.
    Occlusions,
}

/// `after` equals `before` in its surface, ticket, popup, and bounds and in
/// every record list but `changed`.
pub open spec fn unchanged_except(after: PresentationPlan, before: PresentationPlan, changed: PlanRecordList) -> bool {
    &&& after.spec_surface() == before.spec_surface()
    &&& after.spec_ticket() == before.spec_ticket()
    &&& after.spec_popup() == before.spec_popup()
    &&& after.spec_bounds() == before.spec_bounds()
    &&& after.spec_popup_plane_bounds() == before.spec_popup_plane_bounds()
    &&& changed != PlanRecordList::Panes ==> after.panes_view() == before.panes_view()
    &&& changed != PlanRecordList::Tabs ==> after.tabs_view() == before.tabs_view()
    &&& changed != PlanRecordList::TabBars ==> after.tab_bars_view() == before.tab_bars_view()
    &&& changed != PlanRecordList::Controls ==> after.controls_view() == before.controls_view()
    &&& changed != PlanRecordList::Menus ==> after.menus_view() == before.menus_view()
    &&& changed != PlanRecordList::Backdrops ==> after.backdrops_view() == before.backdrops_view()
    &&& changed != PlanRecordList::Gaps ==> after.gaps_view() == before.gaps_view()
    &&& changed != PlanRecordList::Splitters ==> after.splitters_view() == before.splitters_view()
    &&& changed != PlanRecordList::Junctions ==> after.junctions_view() == before.junctions_view()
    &&& changed != PlanRecordList::Contained ==> after.contained_view() == before.contained_view()
    &&& changed != PlanRecordList::Minimums ==> after.minimums_view() == before.minimums_view()
    &&& changed != PlanRecordList::Occlusions ==> after.occlusions_view() == before.occlusions_view()
}

/// Complete semantic facts compiled as one candidate surface projection.
pub struct PresentationPlan {
    surface: SurfaceId,
    ticket: SurfaceMeasurementTicket,
    popup: PopupPlaneRequirement,
    bounds: LogicalRect,
    popup_plane_bounds: Option<LogicalRect>,
    pane_records: Vec<PaneRecord>,
    tab_records: Vec<TabRecord>,
    tab_bar_records: Vec<TabBarRecord>,
    tab_strip_control_records: Vec<TabStripControlRecord>,
    tab_list_menu_records: Vec<TabListMenuRecord>,
    tab_list_menu_backdrop_records: Vec<TabListMenuBackdropRecord>,
    splitter_gap_records: Vec<SplitterGapRecord>,
    splitter_records: Vec<SplitterRecord>,
    splitter_junction_records: Vec<SplitterJunctionRecord>,
    contained_records: Vec<ContainedRecord>,
    contained_minimums: Vec<ContainedMinimumMeasurement>,
    drop_occlusions: Vec<DropOcclusionRecord>,
}

impl PresentationPlan {
    /// Exact surface behind [`Self::surface`].
    pub closed spec fn spec_surface(&self) -> SurfaceId {
        self.surface
    }

    /// Exact ticket behind [`Self::measurement_ticket`].
    pub closed spec fn spec_ticket(&self) -> SurfaceMeasurementTicket {
        self.ticket
    }

    /// Exact popup requirement behind [`Self::popup`].
    pub closed spec fn spec_popup(&self) -> PopupPlaneRequirement {
        self.popup
    }

    /// Exact bounds behind [`Self::bounds`].
    pub closed spec fn spec_bounds(&self) -> LogicalRect {
        self.bounds
    }

    /// Exact popup plane behind [`Self::popup_plane_bounds`].
    pub closed spec fn spec_popup_plane_bounds(&self) -> Option<LogicalRect> {
        self.popup_plane_bounds
    }

    /// Pane records in insertion order.
    pub closed spec fn panes_view(&self) -> Seq<PaneRecord> {
        self.pane_records@
    }

    /// Tab records in insertion order.
    pub closed spec fn tabs_view(&self) -> Seq<TabRecord> {
        self.tab_records@
    }

    /// Tab-bar records in insertion order.
    pub closed spec fn tab_bars_view(&self) -> Seq<TabBarRecord> {
        self.tab_bar_records@
    }

    /// Tab-strip control records in insertion order.
    pub closed spec fn controls_view(&self) -> Seq<TabStripControlRecord> {
        self.tab_strip_control_records@
    }

    /// Tab-list menu records in insertion order.
    pub closed spec fn menus_view(&self) -> Seq<TabListMenuRecord> {
        self.tab_list_menu_records@
    }

    /// Tab-list menu backdrop records in insertion order.
    pub closed spec fn backdrops_view(&self) -> Seq<TabListMenuBackdropRecord> {
        self.tab_list_menu_backdrop_records@
    }

    /// Splitter gap records in insertion order.
    pub closed spec fn gaps_view(&self) -> Seq<SplitterGapRecord> {
        self.splitter_gap_records@
    }

    /// Splitter records in insertion order.
    pub closed spec fn splitters_view(&self) -> Seq<SplitterRecord> {
        self.splitter_records@
    }

    /// Splitter junction records in insertion order.
    pub closed spec fn junctions_view(&self) -> Seq<SplitterJunctionRecord> {
        self.splitter_junction_records@
    }

    /// Contained records in insertion order.
    pub closed spec fn contained_view(&self) -> Seq<ContainedRecord> {
        self.contained_records@
    }

    /// Contained minimum measurements in insertion order.
    pub closed spec fn minimums_view(&self) -> Seq<ContainedMinimumMeasurement> {
        self.contained_minimums@
    }

    /// Drop occlusion records in insertion order.
    pub closed spec fn occlusions_view(&self) -> Seq<DropOcclusionRecord> {
        self.drop_occlusions@
    }

    /// Whether `p` lies in the surface and `layer` is the frontmost layer there.
    pub open spec fn on_authoritative_layer(&self, p: LogicalPoint, layer: SceneLayerKey) -> bool {
        self.spec_bounds().contains_point(p) && top_layer(self.occlusions_view(), p) == layer.0
    }

    /// A tab bar whose viewport holds `p` on the frontmost layer there.
    pub open spec fn scroll_eligible(&self, bar: TabBarRecord, p: LogicalPoint) -> bool {
        bar.viewport().contains_point(p) && self.on_authoritative_layer(p, bar.layer())
    }

    /// Starts an empty plan answering one surface's measurement ticket.
    pub fn from_measurements(
        ticket: SurfaceMeasurementTicket,
        popup: PopupPlaneRequirement,
        bounds: LogicalRect,
        popup_plane_bounds: Option<LogicalRect>,
    ) -> (r: Self)
        ensures
            r.surface() == ticket.surface(),
            r.measurement_ticket() == ticket,
            r.popup() == popup,
            r.bounds() == bounds,
            r.popup_plane_bounds() == popup_plane_bounds,
            r.panes_view().len() == 0,
            r.tabs_view().len() == 0,
            r.tab_bars_view().len() == 0,
            r.controls_view().len() == 0,
            r.menus_view().len() == 0,
            r.backdrops_view().len() == 0,
            r.gaps_view().len() == 0,
            r.splitters_view().len() == 0,
            r.junctions_view().len() == 0,
            r.contained_view().len() == 0,
            r.minimums_view().len() == 0,
            r.occlusions_view().len() == 0,
    {
        PresentationPlan {
            surface: ticket.surface(),
            ticket,
            popup,
            bounds,
            popup_plane_bounds,
            pane_records: Vec::new(),
            tab_records: Vec::new(),
            tab_bar_records: Vec::new(),
            tab_strip_control_records: Vec::new(),
            tab_list_menu_records: Vec::new(),
            tab_list_menu_backdrop_records: Vec::new(),
            splitter_gap_records: Vec::new(),
            splitter_records: Vec::new(),
            splitter_junction_records: Vec::new(),
            contained_records: Vec::new(),
            contained_minimums: Vec::new(),
            drop_occlusions: Vec::new(),
        }
    }

    /// Returns the owning surface.
    #[verifier::when_used_as_spec(spec_surface)]
    pub fn surface(&self) -> (r: SurfaceId)
        ensures
            r == self.spec_surface(),
    {
        self.surface
    }

    /// Returns the measurement ticket this plan answers.
    #[verifier::when_used_as_spec(spec_ticket)]
    pub fn measurement_ticket(&self) -> (r: SurfaceMeasurementTicket)
        ensures
            r == self.spec_ticket(),
    {
        self.ticket
    }

    /// Returns the workspace popup-plane requirement.
    #[verifier::when_used_as_spec(spec_popup)]
    pub fn popup(&self) -> (r: PopupPlaneRequirement)
        ensures
            r == self.spec_popup(),
    {
        self.popup
    }

    /// Returns the authoritative surface-local dock layout bounds.
    #[verifier::when_used_as_spec(spec_bounds)]
    pub fn bounds(&self) -> (r: LogicalRect)
        ensures
            r == self.spec_bounds(),
    {
        self.bounds
    }

    /// Returns the measured popup plane, present only while a popup is active.
    #[verifier::when_used_as_spec(spec_popup_plane_bounds)]
    pub fn popup_plane_bounds(&self) -> (r: Option<LogicalRect>)
        ensures
            r == self.spec_popup_plane_bounds(),
    {
        self.popup_plane_bounds
    }

    /// Appends one pane record.
    pub fn push_pane_record(&mut self, record: PaneRecord)
        ensures
            unchanged_except(*final(self), *old(self), PlanRecordList::Panes),
            final(self).panes_view() == old(self).panes_view().push(record),
    {
        self.pane_records.push(record);
    }

    /// Appends one tab record.
    pub fn push_tab_record(&mut self, record: TabRecord)
        ensures
            unchanged_except(*final(self), *old(self), PlanRecordList::Tabs),
            final(self).tabs_view() == old(self).tabs_view().push(record),
    {
        self.tab_records.push(record);
    }

    /// Appends one tab-bar record.
    pub fn push_tab_bar_record(&mut self, record: TabBarRecord)
        ensures
            unchanged_except(*final(self), *old(self), PlanRecordList::TabBars),
            final(self).tab_bars_view() == old(self).tab_bars_view().push(record),
            final(self).backdrops_view() == old(self).backdrops_view(),
            final(self).spec_bounds() == old(self).spec_bounds(),
            final(self).occlusions_view() == old(self).occlusions_view(),
    {
        self.tab_bar_records.push(record);
    }

    /// Appends one tab-strip control record.
    pub fn push_tab_strip_control_record(&mut self, record: TabStripControlRecord)
        ensures
            unchanged_except(*final(self), *old(self), PlanRecordList::Controls),
            final(self).controls_view() == old(self).controls_view().push(record),
    {
        self.tab_strip_control_records.push(record);
    }

    /// Appends one tab-list menu record.
    pub fn push_tab_list_menu_record(&mut self, record: TabListMenuRecord)
        ensures
            unchanged_except(*final(self), *old(self), PlanRecordList::Menus),
            final(self).menus_view() == old(self).menus_view().push(record),
    {
        self.tab_list_menu_records.push(record);
    }

    /// Appends one tab-list menu backdrop record.
    pub fn push_tab_list_menu_backdrop_record(&mut self, record: TabListMenuBackdropRecord)
        ensures
            unchanged_except(*final(self), *old(self), PlanRecordList::Backdrops),
            final(self).backdrops_view() == old(self).backdrops_view().push(record),
            final(self).tab_bars_view() == old(self).tab_bars_view(),
            final(self).spec_bounds() == old(self).spec_bounds(),
            final(self).occlusions_view() == old(self).occlusions_view(),
    {
        self.tab_list_menu_backdrop_records.push(record);
    }

    /// Appends one splitter gap record.
    pub fn push_splitter_gap_record(&mut self, record: SplitterGapRecord)
        ensures
            unchanged_except(*final(self), *old(self), PlanRecordList::Gaps),
            final(self).gaps_view() == old(self).gaps_view().push(record),
    {
        self.splitter_gap_records.push(record);
    }

    /// Appends one splitter record.
    pub fn push_splitter_record(&mut self, record: SplitterRecord)
        ensures
            unchanged_except(*final(self), *old(self), PlanRecordList::Splitters),
            final(self).splitters_view() == old(self).splitters_view().push(record),
            final(self).junctions_view() == old(self).junctions_view(),
            final(self).spec_bounds() == old(self).spec_bounds(),
            final(self).occlusions_view() == old(self).occlusions_view(),
            final(self).spec_surface() == old(self).spec_surface(),
    {
        self.splitter_records.push(record);
    }

    /// Appends one splitter junction record.
    pub fn push_splitter_junction_record(&mut self, record: SplitterJunctionRecord)
        ensures
            unchanged_except(*final(self), *old(self), PlanRecordList::Junctions),
            final(self).junctions_view() == old(self).junctions_view().push(record),
            final(self).splitters_view() == old(self).splitters_view(),
            final(self).spec_bounds() == old(self).spec_bounds(),
            final(self).occlusions_view() == old(self).occlusions_view(),
            final(self).spec_surface() == old(self).spec_surface(),
    {
        self.splitter_junction_records.push(record);
    }

    /// Appends one contained record.
    pub fn push_contained_record(&mut self, record: ContainedRecord)
        ensures
            unchanged_except(*final(self), *old(self), PlanRecordList::Contained),
            final(self).contained_view() == old(self).contained_view().push(record),
    {
        self.contained_records.push(record);
    }

    /// Appends one contained minimum-size measurement.
    pub fn push_contained_minimum(&mut self, measurement: ContainedMinimumMeasurement)
        ensures
            unchanged_except(*final(self), *old(self), PlanRecordList::Minimums),
            final(self).minimums_view() == old(self).minimums_view().push(measurement),
    {
        self.contained_minimums.push(measurement);
    }

    /// Appends one drop occlusion record.
    pub fn push_drop_occlusion(&mut self, record: DropOcclusionRecord)
        ensures
            unchanged_except(*final(self), *old(self), PlanRecordList::Occlusions),
            final(self).occlusions_view() == old(self).occlusions_view().push(record),
            final(self).splitters_view() == old(self).splitters_view(),
            final(self).junctions_view() == old(self).junctions_view(),
            final(self).tab_bars_view() == old(self).tab_bars_view(),
            final(self).backdrops_view() == old(self).backdrops_view(),
            final(self).spec_bounds() == old(self).spec_bounds(),
            final(self).spec_surface() == old(self).spec_surface(),
    {
        self.drop_occlusions.push(record);
    }

    /// Returns the pane records.
    pub fn pane_records(&self) -> (r: &[PaneRecord])
        ensures
            r@ == self.panes_view(),
    {
        self.pane_records.as_slice()
    }

    /// Returns the tab records.
    pub fn tab_records(&self) -> (r: &[TabRecord])
        ensures
            r@ == self.tabs_view(),
    {
        self.tab_records.as_slice()
    }

    /// Returns the tab-bar records.
    pub fn tab_bar_records(&self) -> (r: &[TabBarRecord])
        ensures
            r@ == self.tab_bars_view(),
    {
        self.tab_bar_records.as_slice()
    }

    /// Returns the tab-strip control records.
    pub fn tab_strip_control_records(&self) -> (r: &[TabStripControlRecord])
        ensures
            r@ == self.controls_view(),
    {
        self.tab_strip_control_records.as_slice()
    }

    /// Returns the tab-list menu records.
    pub fn tab_list_menu_records(&self) -> (r: &[TabListMenuRecord])
        ensures
            r@ == self.menus_view(),
    {
        self.tab_list_menu_records.as_slice()
    }

    /// Returns the tab-list menu backdrop records.
    pub fn tab_list_menu_backdrop_records(&self) -> (r: &[TabListMenuBackdropRecord])
        ensures
            r@ == self.backdrops_view(),
    {
        self.tab_list_menu_backdrop_records.as_slice()
    }

    /// Returns the splitter gap records.
    pub fn splitter_gap_records(&self) -> (r: &[SplitterGapRecord])
        ensures
            r@ == self.gaps_view(),
    {
        self.splitter_gap_records.as_slice()
    }

    /// Returns the splitter records.
    pub fn splitter_records(&self) -> (r: &[SplitterRecord])
        ensures
            r@ == self.splitters_view(),
    {
        self.splitter_records.as_slice()
    }

    /// Returns the splitter junction records.
    pub fn splitter_junction_records(&self) -> (r: &[SplitterJunctionRecord])
        ensures
            r@ == self.junctions_view(),
    {
        self.splitter_junction_records.as_slice()
    }

    /// Returns the contained records.
    pub fn contained_records(&self) -> (r: &[ContainedRecord])
        ensures
            r@ == self.contained_view(),
    {
        self.contained_records.as_slice()
    }

    /// Returns the contained minimum-size measurements.
    pub fn contained_minimums(&self) -> (r: &[ContainedMinimumMeasurement])
        ensures
            r@ == self.minimums_view(),
    {
        self.contained_minimums.as_slice()
    }

    /// Returns the drop occlusion records.
    pub fn drop_occlusions(&self) -> (r: &[DropOcclusionRecord])
        ensures
            r@ == self.occlusions_view(),
    {
        self.drop_occlusions.as_slice()
    }
}

impl PresentationPlan {
    /// The tab strip owning wheel input at `p`: none under an open popup's
    /// backdrop, otherwise the sole eligible tab bar, if exactly one exists.
    pub open spec fn scroll_owner(&self, p: LogicalPoint) -> Option<TabBarSceneId> {
        let bars = self.tab_bars_view();
        if exists|b: int|
            0 <= b < self.backdrops_view().len() && self.backdrops_view()[b].bounds().contains_point(
                p,
            ) {
            None
        } else if exists|i: int|
            0 <= i < bars.len() && self.scroll_eligible(bars[i], p) && forall|j: int|
                0 <= j < bars.len() && j != i ==> !self.scroll_eligible(bars[j], p) {
            let i = choose|i: int|
                0 <= i < bars.len() && self.scroll_eligible(bars[i], p) && forall|j: int|
                    0 <= j < bars.len() && j != i ==> !self.scroll_eligible(bars[j], p);
            Some(bars[i].spec_id())
        } else {
            None
        }
    }

    /// The splitter target at `p`: off the surface nothing; on the frontmost
    /// layer at `p`, a unique junction first, then a unique operable handle;
    /// two or more claims of the winning class are ambiguous.
    pub open spec fn resize_target(&self, p: LogicalPoint) -> Result<
        Option<SplitterResizeTarget>,
        SplitterResizeHitError,
    > {
        let layer = top_layer(self.occlusions_view(), p);
        let junctions = self.junctions_view().filter(
            |j: SplitterJunctionRecord| junction_claims(j, layer, p),
        );
        let handles = self.splitters_view().filter(|s: SplitterRecord| handle_claims(s, layer, p));
        if !self.spec_bounds().contains_point(p) {
            Ok(None)
        } else if junctions.len() > 1 {
            Err(
                SplitterResizeHitError::AmbiguousJunctions {
                    surface: self.spec_surface(),
                    layer: SceneLayerKey(layer),
                    count: junctions.len() as usize,
                },
            )
        } else if junctions.len() == 1 {
            Ok(Some(SplitterResizeTarget::Junction(junctions[0].spec_id())))
        } else if handles.len() > 1 {
            Err(
                SplitterResizeHitError::AmbiguousHandles {
                    surface: self.spec_surface(),
                    layer: SceneLayerKey(layer),
                    count: handles.len() as usize,
                },
            )
        } else if handles.len() == 1 {
            Ok(Some(SplitterResizeTarget::Handle(handles[0].spec_id())))
        } else {
            Ok(None)
        }
    }

    /// Returns the frontmost layer of the occlusions covering `p`, or the
    /// surface's base layer when none does.
    pub fn frontmost_layer_at(&self, p: LogicalPoint) -> (r: SceneLayerKey)
        ensures
            r.0 == top_layer(self.occlusions_view(), p),
            forall|i: int|
                0 <= i < self.occlusions_view().len() && occlusion_covers(
                    #[trigger] self.occlusions_view()[i],
                    p,
                ) ==> self.occlusions_view()[i].layer().0 <= r.0,
    {
        let occlusions = self.drop_occlusions.as_slice();
        let mut highest: Option<u64> = None;
        let mut k: usize = 0;
        while k < occlusions.len()
            invariant
                k <= occlusions@.len(),
                occlusions@ == self.occlusions_view(),
                highest == covering_max(occlusions@.take(k as int), p),
            decreases occlusions@.len() - k,
        {
            proof {
                assert(occlusions@.take(k + 1).drop_last() =~= occlusions@.take(k as int));
            }
            let occlusion = occlusions[k];
            if occlusion.region().contains(p) {
                highest = match highest {
                    Some(m) => if occlusion.layer().0 > m {
                        Some(occlusion.layer().0)
                    } else {
                        Some(m)
                    },
                    None => Some(occlusion.layer().0),
                };
            }
            k = k + 1;
        }
        proof {
            assert(occlusions@.take(k as int) =~= occlusions@);
        }
        let layer: u64 = match highest {
            Some(m) => m,
            None => SceneLayerKey::surface_base().0,
        };
        proof {
            lemma_top_layer_is_frontmost(self.occlusions_view(), p);
        }
        SceneLayerKey(layer)
    }

    /// Returns whether `p` lies in the surface and `layer` is the frontmost
    /// layer there.
    pub fn point_is_on_authoritative_layer(&self, p: LogicalPoint, layer: SceneLayerKey) -> (r:
        bool)
        ensures
            r == self.on_authoritative_layer(p, layer),
    {
        self.bounds.contains(p) && self.frontmost_layer_at(p).0 == layer.0
    }

    /// Returns whether any authoritative area of `region` remains exposed on
    /// `layer`.
    pub fn region_is_operable(&self, region: LogicalRect, layer: SceneLayerKey) -> (r: bool)
        ensures
            r == has_authoritative_area(region, layer, self.occlusions_view()),
    {
        region_has_authoritative_area(region, layer, self.drop_occlusions.as_slice())
    }

    /// Resolves the sole authoritative tab strip which owns wheel input at `p`.
    pub fn tab_scroll_owner_at(&self, p: LogicalPoint) -> (r: Option<TabBarSceneId>)
        ensures
            r == self.scroll_owner(p),
    {
        let backdrops = self.tab_list_menu_backdrop_records.as_slice();
        let mut b: usize = 0;
        while b < backdrops.len()
            invariant
                b <= backdrops@.len(),
                backdrops@ == self.backdrops_view(),
                forall|c: int| 0 <= c < b ==> !backdrops@[c].bounds().contains_point(p),
            decreases backdrops@.len() - b,
        {
            if backdrops[b].bounds().contains(p) {
                return None;
            }
            b = b + 1;
        }
        let bars = self.tab_bar_records.as_slice();
        let mut owner: Option<(TabBarSceneId, SceneLayerKey)> = None;
        let ghost mut owner_index: int = 0;
        let mut k: usize = 0;
        while k < bars.len()
            invariant
                k <= bars@.len(),
                bars@ == self.tab_bars_view(),
                owner is None ==> forall|j: int| 0 <= j < k ==> !self.scroll_eligible(bars@[j], p),
                owner matches Some((id, layer)) ==> {
                    &&& 0 <= owner_index < k
                    &&& self.scroll_eligible(bars@[owner_index], p)
                    &&& bars@[owner_index].spec_id() == id
                    &&& bars@[owner_index].layer() == layer
                    &&& forall|j: int|
                        0 <= j < k && j != owner_index ==> !self.scroll_eligible(bars@[j], p)
                },
            decreases bars@.len() - k,
        {
            let bar = &bars[k];
            if bar.viewport().contains(p) && self.point_is_on_authoritative_layer(p, bar.layer()) {
                match owner {
                    None => {
                        owner = Some((*bar.id(), bar.layer()));
                        proof {
                            owner_index = k as int;
                        }
                    },
                    Some((_, layer)) => {
                        if layer.0 < bar.layer().0 {
                            proof {
                                assert(false);
                            }
                            owner = Some((*bar.id(), bar.layer()));
                            proof {
                                owner_index = k as int;
                            }
                        } else if layer.0 == bar.layer().0 {
                            proof {
                                assert(self.scroll_eligible(bars@[k as int], p));
                            }
                            return None;
                        }
                    },
                }
            }
            k = k + 1;
        }
        match owner {
            Some((id, _)) => Some(id),
            None => None,
        }
    }

    /// Resolves the unique splitter target at `p`.
    ///
    /// The frontmost occlusion at `p` selects the sole layer eligible for
    /// input; on it an exact junction takes precedence over an ordinary handle,
    /// and ambiguous geometry is rejected rather than resolved by order.
    pub fn splitter_resize_target_at(&self, p: LogicalPoint) -> (r: Result<
        Option<SplitterResizeTarget>,
        SplitterResizeHitError,
    >)
        ensures
            r == self.resize_target(p),
    {
        if !self.bounds.contains(p) {
            return Ok(None);
        }
        let layer = self.frontmost_layer_at(p);
        let ghost pred = |j: SplitterJunctionRecord| junction_claims(j, layer.0, p);
        let junctions = self.splitter_junction_records.as_slice();
        let mut first_junction: Option<SplitterJunctionId> = None;
        let mut junction_count: usize = 0;
        let mut k: usize = 0;
        while k < junctions.len()
            invariant
                k <= junctions@.len(),
                junctions@ == self.junctions_view(),
                forall|j: SplitterJunctionRecord| #[trigger] pred(j) == junction_claims(j, layer.0, p),
                junction_count == junctions@.take(k as int).filter(pred).len(),
                junction_count <= k,
                junction_count > 0 ==> first_junction == Some(
                    junctions@.take(k as int).filter(pred)[0].spec_id(),
                ),
                junction_count == 0 ==> first_junction is None,
            decreases junctions@.len() - k,
        {
            proof {
                reveal(Seq::filter);
                let next = junctions@.take(k + 1);
                assert(next.drop_last() =~= junctions@.take(k as int));
                assert(next.last() == junctions@[k as int]);
                assert(next.filter(pred) == if pred(next.last()) {
                    next.drop_last().filter(pred).push(next.last())
                } else {
                    next.drop_last().filter(pred)
                });
            }
            let junction = junctions[k];
            if junction.layer().0 == layer.0 && junction.hit().contains(p) {
                if first_junction.is_none() {
                    first_junction = Some(junction.id());
                }
                junction_count = junction_count + 1;
            }
            k = k + 1;
        }
        proof {
            assert(junctions@.take(k as int) =~= junctions@);
        }
        if junction_count > 1 {
            return Err(
                SplitterResizeHitError::AmbiguousJunctions {
                    surface: self.surface,
                    layer,
                    count: junction_count,
                },
            );
        }
        if let Some(junction) = first_junction {
            return Ok(Some(SplitterResizeTarget::Junction(junction)));
        }
        let ghost hpred = |s: SplitterRecord| handle_claims(s, layer.0, p);
        let splitters = self.splitter_records.as_slice();
        let mut first_handle: Option<SplitterSceneId> = None;
        let mut handle_count: usize = 0;
        let mut k: usize = 0;
        while k < splitters.len()
            invariant
                k <= splitters@.len(),
                splitters@ == self.splitters_view(),
                forall|s: SplitterRecord| #[trigger] hpred(s) == handle_claims(s, layer.0, p),
                handle_count == splitters@.take(k as int).filter(hpred).len(),
                handle_count <= k,
                handle_count > 0 ==> first_handle == Some(
                    splitters@.take(k as int).filter(hpred)[0].spec_id(),
                ),
                handle_count == 0 ==> first_handle is None,
            decreases splitters@.len() - k,
        {
            proof {
                reveal(Seq::filter);
                let next = splitters@.take(k + 1);
                assert(next.drop_last() =~= splitters@.take(k as int));
                assert(next.last() == splitters@[k as int]);
                assert(next.filter(hpred) == if hpred(next.last()) {
                    next.drop_last().filter(hpred).push(next.last())
                } else {
                    next.drop_last().filter(hpred)
                });
            }
            let splitter = &splitters[k];
            if splitter.operable() && splitter.layer().0 == layer.0 && splitter.hit().contains(p) {
                if first_handle.is_none() {
                    first_handle = Some(*splitter.id());
                }
                handle_count = handle_count + 1;
            }
            k = k + 1;
        }
        proof {
            assert(splitters@.take(k as int) =~= splitters@);
        }
        if handle_count > 1 {
            return Err(
                SplitterResizeHitError::AmbiguousHandles {
                    surface: self.surface,
                    layer,
                    count: handle_count,
                },
            );
        }
        match first_handle {
            Some(handle) => Ok(Some(SplitterResizeTarget::Handle(handle))),
            None => Ok(None),
        }
    }
}

/// Two splitter records agree in everything but operability.
pub open spec fn same_but_operability(a: SplitterRecord, b: SplitterRecord) -> bool {
    &&& a.spec_id() == b.spec_id()
    &&& a.draw_bounds() == b.draw_bounds()
    &&& a.hit() == b.hit()
    &&& a.axis() == b.axis()
    &&& a.before_bounds() == b.before_bounds()
    &&& a.after_bounds() == b.after_bounds()
    &&& a.before_minimum_extent() == b.before_minimum_extent()
    &&& a.after_minimum_extent() == b.after_minimum_extent()
    &&& a.before_maximum_extent() == b.before_maximum_extent()
    &&& a.after_maximum_extent() == b.after_maximum_extent()
    &&& a.child_extents_view() == b.child_extents_view()
    &&& a.central_index() == b.central_index()
    &&& a.weights_view() == b.weights_view()
    &&& a.layer() == b.layer()
}

impl PresentationPlan {
    /// Keeps each splitter operable only while some authoritative area of its
    /// hit region stays exposed on its layer.
    pub fn derive_splitter_operability(&mut self)
        ensures
            final(self).splitters_view().len() == old(self).splitters_view().len(),
            forall|i: int|
                0 <= i < old(self).splitters_view().len() ==> {
                    let before = old(self).splitters_view()[i];
                    let after = #[trigger] final(self).splitters_view()[i];
                    &&& same_but_operability(before, after)
                    &&& after.operable() == (before.operable() && has_authoritative_area(
                        before.hit().rect,
                        before.layer(),
                        old(self).occlusions_view(),
                    ))
                },
            final(self).occlusions_view() == old(self).occlusions_view(),
            final(self).junctions_view() == old(self).junctions_view(),
            final(self).spec_bounds() == old(self).spec_bounds(),
            final(self).spec_surface() == old(self).spec_surface(),
    {
        let ghost before = self.splitter_records@;
        let mut k: usize = 0;
        while k < self.splitter_records.len()
            invariant
                k <= self.splitter_records@.len(),
                self.splitter_records@.len() == before.len(),
                self.drop_occlusions@ == old(self).occlusions_view(),
                self.splitter_junction_records@ == old(self).junctions_view(),
                self.bounds == old(self).spec_bounds(),
                self.surface == old(self).spec_surface(),
                before == old(self).splitters_view(),
                forall|i: int| k <= i < before.len() ==> self.splitter_records@[i] == before[i],
                forall|i: int|
                    0 <= i < k ==> {
                        let after = #[trigger] self.splitter_records@[i];
                        &&& same_but_operability(before[i], after)
                        &&& after.operable() == (before[i].operable() && has_authoritative_area(
                            before[i].hit().rect,
                            before[i].layer(),
                            old(self).occlusions_view(),
                        ))
                    },
            decreases before.len() - k,
        {
            let exposed = region_has_authoritative_area(
                self.splitter_records[k].hit().rect(),
                self.splitter_records[k].layer(),
                self.drop_occlusions.as_slice(),
            );
            self.splitter_records[k].retain_operability(exposed);
            k = k + 1;
        }
    }
}

impl PresentationPlan {
    /// Returns the first splitter record with identity `id`, if any.
    pub fn splitter_record(&self, id: SplitterSceneId) -> (r: Option<&SplitterRecord>)
        ensures
            r is None <==> forall|i: int|
                0 <= i < self.splitters_view().len() ==> self.splitters_view()[i].spec_id() != id,
            r matches Some(record) ==> exists|i: int|
                0 <= i < self.splitters_view().len() && self.splitters_view()[i] == *record
                    && record.spec_id() == id && forall|j: int|
                    0 <= j < i ==> self.splitters_view()[j].spec_id() != id,
    {
        let records = self.splitter_records.as_slice();
        let mut k: usize = 0;
        while k < records.len()
            invariant
                k <= records@.len(),
                records@ == self.splitters_view(),
                forall|j: int| 0 <= j < k ==> records@[j].spec_id() != id,
            decreases records@.len() - k,
        {
            if *records[k].id() == id {
                return Some(&records[k]);
            }
            k = k + 1;
        }
        None
    }

    /// Returns the first contained record of presentation `floating`, if any.
    pub fn contained_record(&self, floating: FloatingPresentationId) -> (r: Option<&ContainedRecord>)
        ensures
            r is None <==> forall|i: int|
                0 <= i < self.contained_view().len() ==> self.contained_view()[i].floating()
                    != floating,
            r matches Some(record) ==> exists|i: int|
                0 <= i < self.contained_view().len() && self.contained_view()[i] == *record
                    && record.floating() == floating && forall|j: int|
                    0 <= j < i ==> self.contained_view()[j].floating() != floating,
    {
        let records = self.contained_records.as_slice();
        let mut k: usize = 0;
        while k < records.len()
            invariant
                k <= records@.len(),
                records@ == self.contained_view(),
                forall|j: int| 0 <= j < k ==> records@[j].floating() != floating,
            decreases records@.len() - k,
        {
            if records[k].floating() == floating {
                return Some(&records[k]);
            }
            k = k + 1;
        }
        None
    }
}

impl OrderedRecord for PaneRecord {
    type Order = PaneSceneId;

    open spec fn order_key(&self) -> PaneSceneId {
        self.spec_id()
    }

    fn record_order_key(&self) -> (r: PaneSceneId) {
        self.id()
    }
}

impl OrderedRecord for TabRecord {
    type Order = TabSceneId;

    open spec fn order_key(&self) -> TabSceneId {
        self.spec_id()
    }

    fn record_order_key(&self) -> (r: TabSceneId) {
        *self.id()
    }
}

impl OrderedRecord for TabBarRecord {
    type Order = TabBarSceneId;

    open spec fn order_key(&self) -> TabBarSceneId {
        self.spec_id()
    }

    fn record_order_key(&self) -> (r: TabBarSceneId) {
        *self.id()
    }
}

impl OrderedRecord for TabStripControlRecord {
    type Order = TabStripControlId;

    open spec fn order_key(&self) -> TabStripControlId {
        self.spec_id()
    }

    fn record_order_key(&self) -> (r: TabStripControlId) {
        self.id()
    }
}

impl OrderedRecord for TabListMenuRecord {
    type Order = TabListMenuSessionId;

    open spec fn order_key(&self) -> TabListMenuSessionId {
        self.spec_session()
    }

    fn record_order_key(&self) -> (r: TabListMenuSessionId) {
        self.session()
    }
}

impl OrderedRecord for SplitterGapRecord {
    type Order = SplitterSceneId;

    open spec fn order_key(&self) -> SplitterSceneId {
        self.spec_id()
    }

    fn record_order_key(&self) -> (r: SplitterSceneId) {
        self.id()
    }
}

impl OrderedRecord for SplitterRecord {
    type Order = SplitterSceneId;

    open spec fn order_key(&self) -> SplitterSceneId {
        self.spec_id()
    }

    fn record_order_key(&self) -> (r: SplitterSceneId) {
        *self.id()
    }
}

impl OrderedRecord for SplitterJunctionRecord {
    type Order = SplitterJunctionId;

    open spec fn order_key(&self) -> SplitterJunctionId {
        self.spec_id()
    }

    fn record_order_key(&self) -> (r: SplitterJunctionId) {
        self.id()
    }
}

impl OrderedRecord for ContainedRecord {
    type Order = usize;

    open spec fn order_key(&self) -> usize {
        self.spec_ordinal()
    }

    fn record_order_key(&self) -> (r: usize) {
        self.ordinal()
    }
}

impl OrderedRecord for ContainedMinimumMeasurement {
    type Order = FloatingPresentationId;

    open spec fn order_key(&self) -> FloatingPresentationId {
        self.spec_floating()
    }

    fn record_order_key(&self) -> (r: FloatingPresentationId) {
        self.floating()
    }
}

impl OrderedRecord for DropOcclusionRecord {
    type Order = FloatingPresentationId;

    open spec fn order_key(&self) -> FloatingPresentationId {
        self.spec_floating()
    }

    fn record_order_key(&self) -> (r: FloatingPresentationId) {
        self.floating()
    }
}

/// `s` holds the records of `t` in non-decreasing key order.
pub open spec fn reordered<T: OrderedRecord>(s: Seq<T>, t: Seq<T>) -> bool {
    records_sorted(s) && s.to_multiset() == t.to_multiset()
}

/// `after` is `before` with every record list in canonical key order.
pub open spec fn canonically_reordered(after: PresentationPlan, before: PresentationPlan) -> bool {
    &&& after.spec_surface() == before.spec_surface()
    &&& after.spec_ticket() == before.spec_ticket()
    &&& after.spec_popup() == before.spec_popup()
    &&& after.spec_bounds() == before.spec_bounds()
    &&& after.spec_popup_plane_bounds() == before.spec_popup_plane_bounds()
    &&& reordered(after.panes_view(), before.panes_view())
    &&& reordered(after.tabs_view(), before.tabs_view())
    &&& reordered(after.tab_bars_view(), before.tab_bars_view())
    &&& reordered(after.controls_view(), before.controls_view())
    &&& reordered(after.menus_view(), before.menus_view())
    &&& after.backdrops_view() == before.backdrops_view()
    &&& reordered(after.gaps_view(), before.gaps_view())
    &&& reordered(after.splitters_view(), before.splitters_view())
    &&& reordered(after.junctions_view(), before.junctions_view())
    &&& reordered(after.contained_view(), before.contained_view())
    &&& reordered(after.minimums_view(), before.minimums_view())
    &&& reordered(after.occlusions_view(), before.occlusions_view())
}

impl PresentationPlan {
    /// Orders every record list canonically: records by identity, menus by
    /// session, contained records by roster ordinal, and contained minimums
    /// and occlusions by presentation.
    pub fn canonicalize_ready(&mut self)
        ensures
            canonically_reordered(*final(self), *old(self)),
    {
        sort_records_in_place(&mut self.pane_records);
        sort_records_in_place(&mut self.tab_records);
        sort_records_in_place(&mut self.tab_bar_records);
        sort_records_in_place(&mut self.tab_strip_control_records);
        sort_records_in_place(&mut self.tab_list_menu_records);
        sort_records_in_place(&mut self.splitter_gap_records);
        sort_records_in_place(&mut self.splitter_records);
        sort_records_in_place(&mut self.splitter_junction_records);
        sort_records_in_place(&mut self.contained_records);
        sort_records_in_place(&mut self.contained_minimums);
        sort_records_in_place(&mut self.drop_occlusions);
    }
}

/// The splitter target at a point does not depend on the order of the plan's
/// junction and splitter records: ambiguous geometry is rejected rather than
/// resolved by order.
pub proof fn lemma_resize_target_ignores_record_order(
    a: PresentationPlan,
    b: PresentationPlan,
    p: LogicalPoint,
)
    requires
        a.spec_bounds() == b.spec_bounds(),
        a.spec_surface() == b.spec_surface(),
        a.occlusions_view() == b.occlusions_view(),
        a.junctions_view().to_multiset() == b.junctions_view().to_multiset(),
        a.splitters_view().to_multiset() == b.splitters_view().to_multiset(),
    ensures
        a.resize_target(p) == b.resize_target(p),
{
    let layer = top_layer(a.occlusions_view(), p);
    lemma_filter_respects_multiset(
        a.junctions_view(),
        b.junctions_view(),
        |j: SplitterJunctionRecord| junction_claims(j, layer, p),
    );
    lemma_filter_respects_multiset(
        a.splitters_view(),
        b.splitters_view(),
        |s: SplitterRecord| handle_claims(s, layer, p),
    );
}

proof fn lemma_some_match_filter<T>(s: Seq<T>, pred: spec_fn(T) -> bool)
    ensures
        (exists|i: int| 0 <= i < s.len() && pred(#[trigger] s[i])) <==> s.filter(pred).len() > 0,
{
    if exists|i: int| 0 <= i < s.len() && pred(#[trigger] s[i]) {
        let i = choose|i: int| 0 <= i < s.len() && pred(#[trigger] s[i]);
        s.lemma_filter_contains(pred, i);
    }
    if s.filter(pred).len() > 0 {
        let x = s.filter(pred)[0];
        assert(s.filter(pred).contains(x));
        s.lemma_filter_contains_rev(pred, x);
        s.lemma_filter_pred(pred, 0);
        let i = choose|i: int| 0 <= i < s.len() && s[i] == x;
        assert(pred(s[i]));
    }
}

/// The tab strip owning wheel input at a point does not depend on the order
/// of the plan's tab-bar and backdrop records: a sole eligible strip is found
/// in any order, and two eligible strips are never resolved by order.
pub proof fn lemma_scroll_owner_ignores_record_order(
    a: PresentationPlan,
    b: PresentationPlan,
    p: LogicalPoint,
)
    requires
        a.spec_bounds() == b.spec_bounds(),
        a.occlusions_view() == b.occlusions_view(),
        a.tab_bars_view().to_multiset() == b.tab_bars_view().to_multiset(),
        a.backdrops_view().to_multiset() == b.backdrops_view().to_multiset(),
    ensures
        a.scroll_owner(p) == b.scroll_owner(p),
{
    let eligible = |bar: TabBarRecord| a.scroll_eligible(bar, p);
    let covers = |backdrop: TabListMenuBackdropRecord| backdrop.bounds().contains_point(p);
    assert forall|bar: TabBarRecord| #[trigger] b.scroll_eligible(bar, p) == eligible(bar) by {}
    lemma_some_match_filter(a.backdrops_view(), covers);
    lemma_some_match_filter(b.backdrops_view(), covers);
    lemma_filter_respects_multiset(a.backdrops_view(), b.backdrops_view(), covers);
    lemma_sole_match_filter(a.tab_bars_view(), eligible);
    lemma_sole_match_filter(b.tab_bars_view(), eligible);
    lemma_filter_respects_multiset(a.tab_bars_view(), b.tab_bars_view(), eligible);
    let ab = a.tab_bars_view();
    let bb = b.tab_bars_view();
    assert((exists|i: int| sole_match(ab, eligible, i)) == (exists|i: int|
        0 <= i < ab.len() && a.scroll_eligible(ab[i], p) && forall|j: int|
            0 <= j < ab.len() && j != i ==> !a.scroll_eligible(ab[j], p)));
    assert((exists|i: int| sole_match(bb, eligible, i)) == (exists|i: int|
        0 <= i < bb.len() && b.scroll_eligible(bb[i], p) && forall|j: int|
            0 <= j < bb.len() && j != i ==> !b.scroll_eligible(bb[j], p)));
    if exists|i: int| sole_match(ab, eligible, i) {
        let i = choose|i: int|
            0 <= i < ab.len() && a.scroll_eligible(ab[i], p) && forall|j: int|
                0 <= j < ab.len() && j != i ==> !a.scroll_eligible(ab[j], p);
        let k = choose|k: int|
            0 <= k < bb.len() && b.scroll_eligible(bb[k], p) && forall|j: int|
                0 <= j < bb.len() && j != k ==> !b.scroll_eligible(bb[j], p);
        assert(sole_match(ab, eligible, i));
        assert(sole_match(bb, eligible, k));
        assert(ab[i] == bb[k]);
    }
}

} // verus!
