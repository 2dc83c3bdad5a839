//! Presentation-bound semantic input facts and the output-bound inventory of
//! semantic receivers.
//!
//! Semantic receivers are independent of pointer hit geometry: a menu row may
//! stay keyboard and accessibility reachable while clipped out of the pointer
//! viewport.

use vstd::prelude::*;

use crate::collections::{CanonicalKey, KeySet};
use crate::ids::{FloatingPresentationId, SurfaceId};
use crate::records::contained::{ContainedRecord, ContainedResizeDirection};
use crate::records::splitter::{SplitterRecord, SplitterSceneId};
use crate::records::tab::{TabListMenuRecord, TabRecord, TabSceneId, TabStripControlRecord};
use crate::tab_strip::{TabListMenuSessionId, TabStripControlId};

verus! {

/// Identity of one presented output of one surface.
#[derive(Debug, Clone, Copy, PartialEq, Eq, Structural, Hash)]
pub struct SurfacePresentationOutputTicket {
    /// Presenting surface.
    pub surface: SurfaceId,
    /// Output serial within the surface.
    pub serial: u64,
}

impl SurfacePresentationOutputTicket {
    /// Returns the presenting surface.
    pub fn surface(self) -> (r: SurfaceId)
        ensures
            r == self.surface,
    {
        self.surface
    }
}

/// Identity of one host frame emission.
#[derive(Debug, Clone, Copy, PartialEq, Eq, Structural, Hash)]
pub struct HostFrameKey(pub u64);

/// Identity of one native viewport incarnation.
#[derive(Debug, Clone, Copy, PartialEq, Eq, Structural, Hash)]
pub struct ViewportBinding(pub u64);

/// Exact presentation endpoint which delivered a semantic action.
#[derive(Debug, Clone, Copy, PartialEq, Eq, Structural, Hash)]
pub enum SemanticDelivery {
    /// A headless or framework-local presentation delivered the action.
    Headless,
    /// An exact native viewport incarnation delivered the action.
    Native(ViewportBinding),
}

/// Keyboard keys with renderer-neutral docking semantics.
#[derive(Debug, Clone, Copy, PartialEq, Eq, Structural, Hash)]
pub enum SemanticKey {
    /// Move or adjust toward the left.
    ArrowLeft,
    /// Move or adjust toward the right.
    ArrowRight,
    /// Move or adjust upward.
    ArrowUp,
    /// Move or adjust downward.
    ArrowDown,
    /// Move to the first ordered target.
    Home,
    /// Move to the last ordered target.
    End,
    /// Activate the focused target.
    Enter,
    /// Activate the focused target.
    Space,
}

/// Accessibility actions understood by the docking semantic reducer.
#[derive(Debug, Clone, Copy, PartialEq, Eq, Structural, Hash)]
pub enum SemanticAccessibilityAction {
    /// Activate the exact target.
    Click,
    /// Move semantic focus to the exact target.
    Focus,
    /// Increase the exact adjustable target.
    Increment,
    /// Decrease the exact adjustable target.
    Decrement,
    /// Scroll the exact target into view.
    ScrollIntoView,
}

/// One device-independent action delivered to a semantic receiver.
#[derive(Debug, Clone, Copy, PartialEq, Eq, Structural, Hash)]
pub enum SemanticReceiverAction {
    /// A physical keyboard press.
    Key(SemanticKey),
    /// An accessibility action request.
    Accessibility(SemanticAccessibilityAction),
}

/// A semantic receiver of one presented output.
#[derive(Debug, Clone, Copy, PartialEq, Eq, Structural, Hash)]
pub enum PresentationHitRegionKind {
    /// A tab body.
    TabBody(TabSceneId),
    /// A tab's close control.
    TabClose(TabSceneId),
    /// A tab-strip control.
    TabStripControl(TabStripControlId),
    /// The scroll range of an open tab-list menu.
    TabListMenuScroll(TabListMenuSessionId),
    /// One row of an open tab-list menu.
    TabListMenuRow {
        /// Open menu session.
        menu: TabListMenuSessionId,
        /// Tab the row stands for.
        tab: TabSceneId,
    },
    /// A splitter handle.
    SplitterHandle(SplitterSceneId),
    /// A contained presentation's close control.
    ContainedClose(FloatingPresentationId),
    /// A contained presentation's resize edge.
    ContainedResize {
        /// Contained presentation.
        floating: FloatingPresentationId,
        /// Resized edge or corner.
        direction: ContainedResizeDirection,
    },
}

/// Rank of a resize direction in its declaration order.
pub open spec fn direction_rank(d: ContainedResizeDirection) -> u64 {
    match d {
        ContainedResizeDirection::North => 0,
        ContainedResizeDirection::NorthEast => 1,
        ContainedResizeDirection::East => 2,
        ContainedResizeDirection::SouthEast => 3,
        ContainedResizeDirection::South => 4,
        ContainedResizeDirection::SouthWest => 5,
        ContainedResizeDirection::West => 6,
        ContainedResizeDirection::NorthWest => 7,
    }
}

fn direction_rank_exec(d: ContainedResizeDirection) -> (r: u64)
    ensures
        r == direction_rank(d),
{
    match d {
        ContainedResizeDirection::North => 0,
        ContainedResizeDirection::NorthEast => 1,
        ContainedResizeDirection::East => 2,
        ContainedResizeDirection::SouthEast => 3,
        ContainedResizeDirection::South => 4,
        ContainedResizeDirection::SouthWest => 5,
        ContainedResizeDirection::West => 6,
        ContainedResizeDirection::NorthWest => 7,
    }
}

/// The fields of a receiver as one fixed-width key: variant, then fields.
pub open spec fn receiver_code(k: PresentationHitRegionKind) -> (
    u64,
    u64,
    u64,
    u64,
    u64,
    u64,
    u64,
    u64,
) {
    match k {
        PresentationHitRegionKind::TabBody(t) => (0, t.root.0, t.tabs.0, t.item.0, 0, 0, 0, 0),
        PresentationHitRegionKind::TabClose(t) => (1, t.root.0, t.tabs.0, t.item.0, 0, 0, 0, 0),
        PresentationHitRegionKind::TabStripControl(c) => match c {
            TabStripControlId::ScrollBackward(b) => (2, 0, b.root.0, b.tabs.0, 0, 0, 0, 0),
            TabStripControlId::ScrollForward(b) => (2, 1, b.root.0, b.tabs.0, 0, 0, 0, 0),
            TabStripControlId::TabListMenu(b) => (2, 2, b.root.0, b.tabs.0, 0, 0, 0, 0),
        },
        PresentationHitRegionKind::TabListMenuScroll(s) => (
            3,
            s.key.surface.0,
            s.key.bar.root.0,
            s.key.bar.tabs.0,
            s.serial,
            0,
            0,
            0,
        ),
        PresentationHitRegionKind::TabListMenuRow { menu, tab } => (
            4,
            menu.key.surface.0,
            menu.key.bar.root.0,
            menu.key.bar.tabs.0,
            menu.serial,
            tab.root.0,
            tab.tabs.0,
            tab.item.0,
        ),
        PresentationHitRegionKind::SplitterHandle(id) => (
            5,
            id.root.0,
            id.split.0,
            id.index as u64,
            0,
            0,
            0,
            0,
        ),
        PresentationHitRegionKind::ContainedClose(f) => (6, f.0, 0, 0, 0, 0, 0, 0),
        PresentationHitRegionKind::ContainedResize { floating, direction } => (
            7,
            floating.0,
            direction_rank(direction),
            0,
            0,
            0,
            0,
            0,
        ),
    }
}

fn receiver_code_exec(k: PresentationHitRegionKind) -> (r: (
    u64,
    u64,
    u64,
    u64,
    u64,
    u64,
    u64,
    u64,
))
    ensures
        r == receiver_code(k),
{
    match k {
        PresentationHitRegionKind::TabBody(t) => (0, t.root.0, t.tabs.0, t.item.0, 0, 0, 0, 0),
        PresentationHitRegionKind::TabClose(t) => (1, t.root.0, t.tabs.0, t.item.0, 0, 0, 0, 0),
        PresentationHitRegionKind::TabStripControl(c) => match c {
            TabStripControlId::ScrollBackward(b) => (2, 0, b.root.0, b.tabs.0, 0, 0, 0, 0),
            TabStripControlId::ScrollForward(b) => (2, 1, b.root.0, b.tabs.0, 0, 0, 0, 0),
            TabStripControlId::TabListMenu(b) => (2, 2, b.root.0, b.tabs.0, 0, 0, 0, 0),
        },
        PresentationHitRegionKind::TabListMenuScroll(s) => (
            3,
            s.key.surface.0,
            s.key.bar.root.0,
            s.key.bar.tabs.0,
            s.serial,
            0,
            0,
            0,
        ),
        PresentationHitRegionKind::TabListMenuRow { menu, tab } => (
            4,
            menu.key.surface.0,
            menu.key.bar.root.0,
            menu.key.bar.tabs.0,
            menu.serial,
            tab.root.0,
            tab.tabs.0,
            tab.item.0,
        ),
        PresentationHitRegionKind::SplitterHandle(id) => (
            5,
            id.root.0,
            id.split.0,
            id.index as u64,
            0,
            0,
            0,
            0,
        ),
        PresentationHitRegionKind::ContainedClose(f) => (6, f.0, 0, 0, 0, 0, 0, 0),
        PresentationHitRegionKind::ContainedResize { floating, direction } => (
            7,
            floating.0,
            direction_rank_exec(direction),
            0,
            0,
            0,
            0,
            0,
        ),
    }
}

/// Lexicographic order of fixed-width receiver keys.
pub open spec fn code_lt(
    a: (u64, u64, u64, u64, u64, u64, u64, u64),
    b: (u64, u64, u64, u64, u64, u64, u64, u64),
) -> bool {
    ||| a.0 < b.0
    ||| a.0 == b.0 && a.1 < b.1
    ||| a.0 == b.0 && a.1 == b.1 && a.2 < b.2
    ||| a.0 == b.0 && a.1 == b.1 && a.2 == b.2 && a.3 < b.3
    ||| a.0 == b.0 && a.1 == b.1 && a.2 == b.2 && a.3 == b.3 && a.4 < b.4
    ||| a.0 == b.0 && a.1 == b.1 && a.2 == b.2 && a.3 == b.3 && a.4 == b.4 && a.5 < b.5
    ||| a.0 == b.0 && a.1 == b.1 && a.2 == b.2 && a.3 == b.3 && a.4 == b.4 && a.5 == b.5 && a.6
        < b.6
    ||| a.0 == b.0 && a.1 == b.1 && a.2 == b.2 && a.3 == b.3 && a.4 == b.4 && a.5 == b.5 && a.6
        == b.6 && a.7 < b.7
}

fn code_less(
    a: (u64, u64, u64, u64, u64, u64, u64, u64),
    b: (u64, u64, u64, u64, u64, u64, u64, u64),
) -> (r: bool)
    ensures
        r == code_lt(a, b),
{
    if a.0 != b.0 {
        return a.0 < b.0;
    }
    if a.1 != b.1 {
        return a.1 < b.1;
    }
    if a.2 != b.2 {
        return a.2 < b.2;
    }
    if a.3 != b.3 {
        return a.3 < b.3;
    }
    if a.4 != b.4 {
        return a.4 < b.4;
    }
    if a.5 != b.5 {
        return a.5 < b.5;
    }
    if a.6 != b.6 {
        return a.6 < b.6;
    }
    a.7 < b.7
}

/// Distinct receivers have distinct keys.
proof fn lemma_receiver_code_injective(a: PresentationHitRegionKind, b: PresentationHitRegionKind)
    ensures
        receiver_code(a) == receiver_code(b) ==> a == b,
{
    if receiver_code(a) == receiver_code(b) {
        match (a, b) {
            (
                PresentationHitRegionKind::ContainedResize { floating: f1, direction: d1 },
                PresentationHitRegionKind::ContainedResize { floating: f2, direction: d2 },
            ) => {
                assert(d1 == d2);
            },
            (
                PresentationHitRegionKind::TabStripControl(c1),
                PresentationHitRegionKind::TabStripControl(c2),
            ) => {
                assert(c1 == c2);
            },
            (
                PresentationHitRegionKind::SplitterHandle(s1),
                PresentationHitRegionKind::SplitterHandle(s2),
            ) => {
                assert(s1.index == s2.index);
            },
            _ => {},
        }
    }
}

impl CanonicalKey for PresentationHitRegionKind {
    open spec fn key_lt(self, other: Self) -> bool {
        code_lt(receiver_code(self), receiver_code(other))
    }

    proof fn lemma_key_order(a: Self, b: Self, c: Self) {
        lemma_receiver_code_injective(a, b);
    }

    fn key_less(&self, other: &Self) -> (r: bool) {
        code_less(receiver_code_exec(*self), receiver_code_exec(*other))
    }

    fn key_same(&self, other: &Self) -> (r: bool) {
        *self == *other
    }
}

/// Exact presented receiver fact supplied by a UI adapter.
///
/// The adapter can name only core-minted output and emission identities; the
/// reducer rechecks both and the receiver roster before applying the action.
#[derive(Debug, Clone, Copy, PartialEq, Eq, Structural, Hash)]
pub struct SemanticReceiverEvent {
    output: SurfacePresentationOutputTicket,
    emission: HostFrameKey,
    delivery: SemanticDelivery,
    target: PresentationHitRegionKind,
    action: SemanticReceiverAction,
}

impl SemanticReceiverEvent {
    /// Exact output behind [`Self::output`].
    pub closed spec fn spec_output(self) -> SurfacePresentationOutputTicket {
        self.output
    }

    /// Exact emission behind [`Self::emission`].
    pub closed spec fn spec_emission(self) -> HostFrameKey {
        self.emission
    }

    /// Exact endpoint behind [`Self::delivery`].
    pub closed spec fn spec_delivery(self) -> SemanticDelivery {
        self.delivery
    }

    /// Exact receiver behind [`Self::target`].
    pub closed spec fn spec_target(self) -> PresentationHitRegionKind {
        self.target
    }

    /// Exact action behind [`Self::action`].
    pub closed spec fn spec_action(self) -> SemanticReceiverAction {
        self.action
    }

    /// Creates one presentation-bound semantic receiver event.
    pub fn new(
        output: SurfacePresentationOutputTicket,
        emission: HostFrameKey,
        delivery: SemanticDelivery,
        target: PresentationHitRegionKind,
        action: SemanticReceiverAction,
    ) -> (r: Self)
        ensures
            r.output() == output,
            r.emission() == emission,
            r.delivery() == delivery,
            r.target() == target,
            r.action() == action,
    {
        SemanticReceiverEvent { output, emission, delivery, target, action }
    }

    /// Returns the exact semantic output targeted by the event.
    #[verifier::when_used_as_spec(spec_output)]
    pub fn output(self) -> (r: SurfacePresentationOutputTicket)
        ensures
            r == self.spec_output(),
    {
        self.output
    }

    /// Returns the exact presented emission targeted by the event.
    #[verifier::when_used_as_spec(spec_emission)]
    pub fn emission(self) -> (r: HostFrameKey)
        ensures
            r == self.spec_emission(),
    {
        self.emission
    }

    /// Returns the exact endpoint which delivered this action.
    #[verifier::when_used_as_spec(spec_delivery)]
    pub fn delivery(self) -> (r: SemanticDelivery)
        ensures
            r == self.spec_delivery(),
    {
        self.delivery
    }

    /// Returns the stable receiver identity delivered by the host.
    #[verifier::when_used_as_spec(spec_target)]
    pub fn target(self) -> (r: PresentationHitRegionKind)
        ensures
            r == self.spec_target(),
    {
        self.target
    }

    /// Returns the device-independent action delivered to the receiver.
    #[verifier::when_used_as_spec(spec_action)]
    pub fn action(self) -> (r: SemanticReceiverAction)
        ensures
            r == self.spec_action(),
    {
        self.action
    }
}

/// Whether a resize direction is an edge rather than a corner.
pub open spec fn is_cardinal(d: ContainedResizeDirection) -> bool {
    d == ContainedResizeDirection::North || d == ContainedResizeDirection::East || d
        == ContainedResizeDirection::South || d == ContainedResizeDirection::West
}

fn is_cardinal_resize(d: ContainedResizeDirection) -> (r: bool)
    ensures
        r == is_cardinal(d),
{
    match d {
        ContainedResizeDirection::North | ContainedResizeDirection::East
        | ContainedResizeDirection::South | ContainedResizeDirection::West => true,
        _ => false,
    }
}

/// Receivers of the first `n` tabs: every body, and the close control of
/// each closable tab.
pub open spec fn tab_receiver(k: PresentationHitRegionKind, tabs: Seq<TabRecord>, n: int) -> bool {
    match k {
        PresentationHitRegionKind::TabBody(t) => exists|i: int| 0 <= i < n && tabs[i].spec_id() == t,
        PresentationHitRegionKind::TabClose(t) => exists|i: int|
            0 <= i < n && tabs[i].spec_id() == t && tabs[i].close_bounds() is Some,
        _ => false,
    }
}

/// Receivers of the first `n` tab-strip controls: the enabled ones.
pub open spec fn control_receiver(
    k: PresentationHitRegionKind,
    controls: Seq<TabStripControlRecord>,
    n: int,
) -> bool {
    match k {
        PresentationHitRegionKind::TabStripControl(c) => exists|i: int|
            0 <= i < n && controls[i].id() == c && controls[i].enabled(),
        _ => false,
    }
}

/// Receivers of the first `n` tab-list menus: the scroll range of each
/// scrollable menu and every row.
pub open spec fn menu_receiver(
    k: PresentationHitRegionKind,
    menus: Seq<TabListMenuRecord>,
    n: int,
) -> bool {
    match k {
        PresentationHitRegionKind::TabListMenuScroll(session) => exists|i: int|
            0 <= i < n && menus[i].session() == session && menus[i].maximum_scroll_offset() > 0,
        PresentationHitRegionKind::TabListMenuRow { menu, tab } => exists|i: int, j: int|
            0 <= i < n && 0 <= j < menus[i].rows_view().len() && menus[i].session() == menu
                && menus[i].rows_view()[j].tab() == tab,
        _ => false,
    }
}

/// Receivers of the first `n` splitters: the handles of operable splitters.
pub open spec fn splitter_receiver(
    k: PresentationHitRegionKind,
    splitters: Seq<SplitterRecord>,
    n: int,
) -> bool {
    match k {
        PresentationHitRegionKind::SplitterHandle(id) => exists|i: int|
            0 <= i < n && splitters[i].spec_id() == id && splitters[i].operable(),
        _ => false,
    }
}

/// Receivers of the first `n` contained presentations: each close control,
/// and each edge resize region.
pub open spec fn contained_receiver(
    k: PresentationHitRegionKind,
    contained: Seq<ContainedRecord>,
    n: int,
) -> bool {
    match k {
        PresentationHitRegionKind::ContainedClose(f) => exists|i: int|
            0 <= i < n && contained[i].floating() == f && contained[i].close_bounds() is Some,
        PresentationHitRegionKind::ContainedResize { floating, direction } => exists|i: int, j: int|
            0 <= i < n && 0 <= j < 8 && contained[i].floating() == floating
                && contained[i].spec_resize()@[j].direction() == direction && is_cardinal(direction),
        _ => false,
    }
}

/// Whether a presented plan exposes `k` as a semantic receiver.
pub open spec fn is_receiver(
    k: PresentationHitRegionKind,
    tabs: Seq<TabRecord>,
    controls: Seq<TabStripControlRecord>,
    menus: Seq<TabListMenuRecord>,
    splitters: Seq<SplitterRecord>,
    contained: Seq<ContainedRecord>,
) -> bool {
    ||| tab_receiver(k, tabs, tabs.len() as int)
    ||| control_receiver(k, controls, controls.len() as int)
    ||| menu_receiver(k, menus, menus.len() as int)
    ||| splitter_receiver(k, splitters, splitters.len() as int)
    ||| contained_receiver(k, contained, contained.len() as int)
}

/// Whether core defines `action` for the receiver `target`.
pub open spec fn supported_action(
    target: PresentationHitRegionKind,
    action: SemanticReceiverAction,
) -> bool {
    match target {
        PresentationHitRegionKind::TabBody(_) => match action {
            SemanticReceiverAction::Key(key) => key == SemanticKey::ArrowLeft || key
                == SemanticKey::ArrowRight || key == SemanticKey::Home || key == SemanticKey::End
                || key == SemanticKey::Enter || key == SemanticKey::Space,
            SemanticReceiverAction::Accessibility(a) => a == SemanticAccessibilityAction::Click
                || a == SemanticAccessibilityAction::Focus,
        },
        PresentationHitRegionKind::TabClose(_)
        | PresentationHitRegionKind::ContainedClose(_)
        | PresentationHitRegionKind::TabStripControl(_) => match action {
            SemanticReceiverAction::Key(key) => key == SemanticKey::Enter || key
                == SemanticKey::Space,
            SemanticReceiverAction::Accessibility(a) => a == SemanticAccessibilityAction::Click,
        },
        PresentationHitRegionKind::SplitterHandle(_) => match action {
            SemanticReceiverAction::Key(key) => key == SemanticKey::ArrowLeft || key
                == SemanticKey::ArrowRight || key == SemanticKey::ArrowUp || key
                == SemanticKey::ArrowDown,
            SemanticReceiverAction::Accessibility(a) => a == SemanticAccessibilityAction::Increment
                || a == SemanticAccessibilityAction::Decrement,
        },
        PresentationHitRegionKind::TabListMenuRow { .. } => match action {
            SemanticReceiverAction::Key(key) => key == SemanticKey::ArrowUp || key
                == SemanticKey::ArrowDown || key == SemanticKey::Home || key == SemanticKey::End
                || key == SemanticKey::Enter || key == SemanticKey::Space,
            SemanticReceiverAction::Accessibility(a) => a == SemanticAccessibilityAction::Click
                || a == SemanticAccessibilityAction::Focus || a
                == SemanticAccessibilityAction::ScrollIntoView,
        },
        PresentationHitRegionKind::TabListMenuScroll(_) => match action {
            SemanticReceiverAction::Key(_) => false,
            SemanticReceiverAction::Accessibility(a) => a == SemanticAccessibilityAction::Increment
                || a == SemanticAccessibilityAction::Decrement,
        },
        PresentationHitRegionKind::ContainedResize { direction, .. } => {
            let horizontal = direction == ContainedResizeDirection::East || direction
                == ContainedResizeDirection::West;
            let vertical = direction == ContainedResizeDirection::North || direction
                == ContainedResizeDirection::South;
            match action {
                SemanticReceiverAction::Key(key) => (horizontal && (key == SemanticKey::ArrowLeft
                    || key == SemanticKey::ArrowRight)) || (vertical && (key == SemanticKey::ArrowUp
                    || key == SemanticKey::ArrowDown)),
                SemanticReceiverAction::Accessibility(a) => (horizontal || vertical) && (a
                    == SemanticAccessibilityAction::Increment || a
                    == SemanticAccessibilityAction::Decrement),
            }
        },
    }
}

/// A splitter handle moves its split along either axis: it takes all four
/// arrow keys and the increment and decrement requests, and nothing else.
pub proof fn lemma_splitter_handle_actions(id: SplitterSceneId, action: SemanticReceiverAction)
    ensures
        supported_action(PresentationHitRegionKind::SplitterHandle(id), action) <==> (action
            == SemanticReceiverAction::Key(SemanticKey::ArrowLeft) || action
            == SemanticReceiverAction::Key(SemanticKey::ArrowRight) || action
            == SemanticReceiverAction::Key(SemanticKey::ArrowUp) || action
            == SemanticReceiverAction::Key(SemanticKey::ArrowDown) || action
            == SemanticReceiverAction::Accessibility(SemanticAccessibilityAction::Increment)
            || action == SemanticReceiverAction::Accessibility(
            SemanticAccessibilityAction::Decrement,
        )),
{
}

/// A tab body moves along its strip with the horizontal arrows, Home and
/// End, is activated by Enter and Space or a click, and takes focus; it takes
/// nothing else.
pub proof fn lemma_tab_body_actions(tab: TabSceneId, action: SemanticReceiverAction)
    ensures
        supported_action(PresentationHitRegionKind::TabBody(tab), action) <==> (action
            == SemanticReceiverAction::Key(SemanticKey::ArrowLeft) || action
            == SemanticReceiverAction::Key(SemanticKey::ArrowRight) || action
            == SemanticReceiverAction::Key(SemanticKey::Home) || action == SemanticReceiverAction::Key(
            SemanticKey::End,
        ) || action == SemanticReceiverAction::Key(SemanticKey::Enter) || action
            == SemanticReceiverAction::Key(SemanticKey::Space) || action
            == SemanticReceiverAction::Accessibility(SemanticAccessibilityAction::Click) || action
            == SemanticReceiverAction::Accessibility(SemanticAccessibilityAction::Focus)),
{
}

/// Close buttons and tab-strip controls are buttons: Enter, Space, or a
/// click activates them, and they take nothing else.
pub proof fn lemma_button_actions(target: PresentationHitRegionKind, action: SemanticReceiverAction)
    requires
        target is TabClose || target is ContainedClose || target is TabStripControl,
    ensures
        supported_action(target, action) <==> (action == SemanticReceiverAction::Key(
            SemanticKey::Enter,
        ) || action == SemanticReceiverAction::Key(SemanticKey::Space) || action
            == SemanticReceiverAction::Accessibility(SemanticAccessibilityAction::Click)),
{
}

/// A tab-list menu row moves along the menu with the vertical arrows, Home
/// and End, is activated by Enter, Space, or a click, takes focus, and can
/// be scrolled into view; it takes nothing else.
pub proof fn lemma_menu_row_actions(menu: TabListMenuSessionId, tab: TabSceneId, action: SemanticReceiverAction)
    ensures
        supported_action(PresentationHitRegionKind::TabListMenuRow { menu, tab }, action) <==> (
        action == SemanticReceiverAction::Key(SemanticKey::ArrowUp) || action
            == SemanticReceiverAction::Key(SemanticKey::ArrowDown) || action
            == SemanticReceiverAction::Key(SemanticKey::Home) || action == SemanticReceiverAction::Key(
            SemanticKey::End,
        ) || action == SemanticReceiverAction::Key(SemanticKey::Enter) || action
            == SemanticReceiverAction::Key(SemanticKey::Space) || action
            == SemanticReceiverAction::Accessibility(SemanticAccessibilityAction::Click) || action
            == SemanticReceiverAction::Accessibility(SemanticAccessibilityAction::Focus) || action
            == SemanticReceiverAction::Accessibility(SemanticAccessibilityAction::ScrollIntoView)),
{
}

/// A menu's scroll range takes no key; it is adjusted by the increment and
/// decrement requests only.
pub proof fn lemma_menu_scroll_actions(menu: TabListMenuSessionId, action: SemanticReceiverAction)
    ensures
        supported_action(PresentationHitRegionKind::TabListMenuScroll(menu), action) <==> (action
            == SemanticReceiverAction::Accessibility(SemanticAccessibilityAction::Increment)
            || action == SemanticReceiverAction::Accessibility(
            SemanticAccessibilityAction::Decrement,
        )),
{
}

/// A contained presentation's east or west edge is resized with the
/// horizontal arrows, its north or south edge with the vertical arrows, each
/// edge also by increment and decrement; a corner takes nothing.
pub proof fn lemma_contained_resize_actions(
    floating: FloatingPresentationId,
    direction: ContainedResizeDirection,
    action: SemanticReceiverAction,
)
    ensures
        (direction == ContainedResizeDirection::East || direction == ContainedResizeDirection::West)
            ==> (supported_action(PresentationHitRegionKind::ContainedResize { floating, direction }, action)
            <==> (action == SemanticReceiverAction::Key(SemanticKey::ArrowLeft) || action
            == SemanticReceiverAction::Key(SemanticKey::ArrowRight) || action
            == SemanticReceiverAction::Accessibility(SemanticAccessibilityAction::Increment)
            || action == SemanticReceiverAction::Accessibility(
            SemanticAccessibilityAction::Decrement,
        ))),
        (direction == ContainedResizeDirection::North || direction == ContainedResizeDirection::South)
            ==> (supported_action(PresentationHitRegionKind::ContainedResize { floating, direction }, action)
            <==> (action == SemanticReceiverAction::Key(SemanticKey::ArrowUp) || action
            == SemanticReceiverAction::Key(SemanticKey::ArrowDown) || action
            == SemanticReceiverAction::Accessibility(SemanticAccessibilityAction::Increment)
            || action == SemanticReceiverAction::Accessibility(
            SemanticAccessibilityAction::Decrement,
        ))),
        (direction == ContainedResizeDirection::NorthEast || direction
            == ContainedResizeDirection::SouthEast || direction == ContainedResizeDirection::SouthWest
            || direction == ContainedResizeDirection::NorthWest) ==> !supported_action(
            PresentationHitRegionKind::ContainedResize { floating, direction },
            action,
        ),
{
}

/// Enter and Space activate alike, and whatever can be increased can be
/// decreased: on every receiver each of these pairs is supported together.
pub proof fn lemma_paired_actions(target: PresentationHitRegionKind)
    ensures
        supported_action(target, SemanticReceiverAction::Key(SemanticKey::Enter))
            == supported_action(target, SemanticReceiverAction::Key(SemanticKey::Space)),
        supported_action(target, SemanticReceiverAction::Accessibility(SemanticAccessibilityAction::Increment))
            == supported_action(
            target,
            SemanticReceiverAction::Accessibility(SemanticAccessibilityAction::Decrement),
        ),
        supported_action(target, SemanticReceiverAction::Key(SemanticKey::ArrowLeft))
            == supported_action(target, SemanticReceiverAction::Key(SemanticKey::ArrowRight)),
        supported_action(target, SemanticReceiverAction::Key(SemanticKey::ArrowUp))
            == supported_action(target, SemanticReceiverAction::Key(SemanticKey::ArrowDown)),
{
}

/// Who receives semantic input in an inventory: a splitter handle exactly
/// for an operable splitter, a strip control exactly for an enabled control,
/// a tab's close control exactly for a tab that shows one, and every tab body.
pub proof fn lemma_receivers_are_live(
    tabs: Seq<TabRecord>,
    controls: Seq<TabStripControlRecord>,
    menus: Seq<TabListMenuRecord>,
    splitters: Seq<SplitterRecord>,
    contained: Seq<ContainedRecord>,
    k: PresentationHitRegionKind,
)
    ensures
        k matches PresentationHitRegionKind::SplitterHandle(id) ==> (is_receiver(
            k,
            tabs,
            controls,
            menus,
            splitters,
            contained,
        ) <==> exists|i: int|
            0 <= i < splitters.len() && (#[trigger] splitters[i]).spec_id() == id && splitters[i].operable()),
        k matches PresentationHitRegionKind::TabStripControl(c) ==> (is_receiver(
            k,
            tabs,
            controls,
            menus,
            splitters,
            contained,
        ) <==> exists|i: int|
            0 <= i < controls.len() && (#[trigger] controls[i]).id() == c && controls[i].enabled()),
        k matches PresentationHitRegionKind::TabClose(t) ==> (is_receiver(
            k,
            tabs,
            controls,
            menus,
            splitters,
            contained,
        ) <==> exists|i: int|
            0 <= i < tabs.len() && (#[trigger] tabs[i]).spec_id() == t && tabs[i].close_bounds() is Some),
        k matches PresentationHitRegionKind::TabBody(t) ==> (is_receiver(
            k,
            tabs,
            controls,
            menus,
            splitters,
            contained,
        ) <==> exists|i: int| 0 <= i < tabs.len() && (#[trigger] tabs[i]).spec_id() == t),
{
}

/// Decides whether core defines `action` for the receiver `target`.
pub fn receiver_supports(target: PresentationHitRegionKind, action: SemanticReceiverAction) -> (r:
    bool)
    ensures
        r == supported_action(target, action),
{
    match (target, action) {
        (
            PresentationHitRegionKind::TabBody(_),
            SemanticReceiverAction::Key(
                SemanticKey::ArrowLeft
                | SemanticKey::ArrowRight
                | SemanticKey::Home
                | SemanticKey::End
                | SemanticKey::Enter
                | SemanticKey::Space,
            )
            | SemanticReceiverAction::Accessibility(
                SemanticAccessibilityAction::Click | SemanticAccessibilityAction::Focus,
            ),
        ) => true,
        (
            PresentationHitRegionKind::TabClose(_)
            | PresentationHitRegionKind::ContainedClose(_)
            | PresentationHitRegionKind::TabStripControl(_),
            SemanticReceiverAction::Key(SemanticKey::Enter | SemanticKey::Space)
            | SemanticReceiverAction::Accessibility(SemanticAccessibilityAction::Click),
        ) => true,
        (
            PresentationHitRegionKind::SplitterHandle(_),
            SemanticReceiverAction::Key(
                SemanticKey::ArrowLeft
                | SemanticKey::ArrowRight
                | SemanticKey::ArrowUp
                | SemanticKey::ArrowDown,
            )
            | SemanticReceiverAction::Accessibility(
                SemanticAccessibilityAction::Increment | SemanticAccessibilityAction::Decrement,
            ),
        ) => true,
        (
            PresentationHitRegionKind::TabListMenuRow { .. },
            SemanticReceiverAction::Key(
                SemanticKey::ArrowUp
                | SemanticKey::ArrowDown
                | SemanticKey::Home
                | SemanticKey::End
                | SemanticKey::Enter
                | SemanticKey::Space,
            )
            | SemanticReceiverAction::Accessibility(
                SemanticAccessibilityAction::Click
                | SemanticAccessibilityAction::Focus
                | SemanticAccessibilityAction::ScrollIntoView,
            ),
        ) => true,
        (
            PresentationHitRegionKind::TabListMenuScroll(_),
            SemanticReceiverAction::Accessibility(
                SemanticAccessibilityAction::Increment | SemanticAccessibilityAction::Decrement,
            ),
        ) => true,
        (
            PresentationHitRegionKind::ContainedResize {
                direction: ContainedResizeDirection::East | ContainedResizeDirection::West,
                ..
            },
            SemanticReceiverAction::Key(SemanticKey::ArrowLeft | SemanticKey::ArrowRight)
            | SemanticReceiverAction::Accessibility(
                SemanticAccessibilityAction::Increment | SemanticAccessibilityAction::Decrement,
            ),
        ) => true,
        (
            PresentationHitRegionKind::ContainedResize {
                direction: ContainedResizeDirection::North | ContainedResizeDirection::South,
                ..
            },
            SemanticReceiverAction::Key(SemanticKey::ArrowUp | SemanticKey::ArrowDown)
            | SemanticReceiverAction::Accessibility(
                SemanticAccessibilityAction::Increment | SemanticAccessibilityAction::Decrement,
            ),
        ) => true,
        _ => false,
    }
}

fn add_tab_receivers(set: &mut KeySet<PresentationHitRegionKind>, tabs: &[TabRecord])
    ensures
        forall|k: PresentationHitRegionKind|
            #[trigger] final(set).view_seq().contains(k) <==> (old(set).view_seq().contains(k)
                || tab_receiver(k, tabs@, tabs@.len() as int)),
{
    let ghost start = set.view_seq();
    let mut i: usize = 0;
    while i < tabs.len()
        invariant
            i <= tabs@.len(),
            forall|k: PresentationHitRegionKind|
                #[trigger] set.view_seq().contains(k) <==> (start.contains(k) || tab_receiver(
                    k,
                    tabs@,
                    i as int,
                )),
        decreases tabs@.len() - i,
    {
        let id = *tabs[i].id();
        let closable = tabs[i].close_bounds().is_some();
        set.insert(PresentationHitRegionKind::TabBody(id));
        if closable {
            set.insert(PresentationHitRegionKind::TabClose(id));
        }
        proof {
            assert forall|k: PresentationHitRegionKind|
                tab_receiver(k, tabs@, i + 1) <==> (tab_receiver(k, tabs@, i as int) || k
                    == PresentationHitRegionKind::TabBody(id) || (closable && k
                    == PresentationHitRegionKind::TabClose(id))) by {
                match k {
                    PresentationHitRegionKind::TabBody(t) => {
                        if exists|j: int| 0 <= j < i + 1 && tabs@[j].spec_id() == t {
                            let j = choose|j: int| 0 <= j < i + 1 && tabs@[j].spec_id() == t;
                            if j < i {
                                assert(tab_receiver(k, tabs@, i as int));
                            }
                        }
                        if t == id {
                            assert(tabs@[i as int].spec_id() == t);
                        }
                    },
                    PresentationHitRegionKind::TabClose(t) => {
                        if exists|j: int|
                            0 <= j < i + 1 && tabs@[j].spec_id() == t && tabs@[j].close_bounds() is Some {
                            let j = choose|j: int|
                                0 <= j < i + 1 && tabs@[j].spec_id() == t
                                    && tabs@[j].close_bounds() is Some;
                            if j < i {
                                assert(tab_receiver(k, tabs@, i as int));
                            }
                        }
                        if closable && t == id {
                            assert(tabs@[i as int].spec_id() == t);
                        }
                    },
                    _ => {},
                }
            }
        }
        i = i + 1;
    }
}

fn add_control_receivers(
    set: &mut KeySet<PresentationHitRegionKind>,
    controls: &[TabStripControlRecord],
)
    ensures
        forall|k: PresentationHitRegionKind|
            #[trigger] final(set).view_seq().contains(k) <==> (old(set).view_seq().contains(k)
                || control_receiver(k, controls@, controls@.len() as int)),
{
    let ghost start = set.view_seq();
    let mut i: usize = 0;
    while i < controls.len()
        invariant
            i <= controls@.len(),
            forall|k: PresentationHitRegionKind|
                #[trigger] set.view_seq().contains(k) <==> (start.contains(k) || control_receiver(
                    k,
                    controls@,
                    i as int,
                )),
        decreases controls@.len() - i,
    {
        let control = controls[i];
        let id = control.id();
        let enabled = control.enabled();
        if enabled {
            set.insert(PresentationHitRegionKind::TabStripControl(id));
        }
        proof {
            assert forall|k: PresentationHitRegionKind|
                control_receiver(k, controls@, i + 1) <==> (control_receiver(k, controls@, i as int)
                    || (enabled && k == PresentationHitRegionKind::TabStripControl(id))) by {
                if let PresentationHitRegionKind::TabStripControl(c) = k {
                    if exists|j: int|
                        0 <= j < i + 1 && controls@[j].id() == c && controls@[j].enabled() {
                        let j = choose|j: int|
                            0 <= j < i + 1 && controls@[j].id() == c && controls@[j].enabled();
                        if j < i {
                            assert(control_receiver(k, controls@, i as int));
                        }
                    }
                }
            }
        }
        i = i + 1;
    }
}

/// `k` is the row receiver of one of the first `r` rows of menu `session`.
pub open spec fn rows_named(
    k: PresentationHitRegionKind,
    session: TabListMenuSessionId,
    rows: Seq<crate::records::tab::TabListMenuRowRecord>,
    r: int,
) -> bool {
    exists|j: int|
        0 <= j < r && k == (PresentationHitRegionKind::TabListMenuRow {
            menu: session,
            tab: rows[j].tab(),
        })
}

/// `k` is the resize receiver of one of the first `r` edge regions of `floating`.
pub open spec fn resizes_named(
    k: PresentationHitRegionKind,
    floating: FloatingPresentationId,
    resize: Seq<crate::records::contained::ContainedResizeRecord>,
    r: int,
) -> bool {
    exists|j: int|
        0 <= j < r && is_cardinal(resize[j].direction()) && k == (
        PresentationHitRegionKind::ContainedResize { floating, direction: resize[j].direction() })
}

fn add_menu_receivers(set: &mut KeySet<PresentationHitRegionKind>, menus: &[TabListMenuRecord])
    ensures
        forall|k: PresentationHitRegionKind|
            #[trigger] final(set).view_seq().contains(k) <==> (old(set).view_seq().contains(k)
                || menu_receiver(k, menus@, menus@.len() as int)),
{
    let ghost start = set.view_seq();
    let mut i: usize = 0;
    while i < menus.len()
        invariant
            i <= menus@.len(),
            forall|k: PresentationHitRegionKind|
                #[trigger] set.view_seq().contains(k) <==> (start.contains(k) || menu_receiver(
                    k,
                    menus@,
                    i as int,
                )),
        decreases menus@.len() - i,
    {
        let menu = &menus[i];
        let session = menu.session();
        let scrollable = menu.maximum_scroll_offset() > 0;
        if scrollable {
            set.insert(PresentationHitRegionKind::TabListMenuScroll(session));
        }
        let rows = menu.rows();
        let ghost before_rows = set.view_seq();
        let mut r: usize = 0;
        while r < rows.len()
            invariant
                r <= rows@.len(),
                rows@ == menus@[i as int].rows_view(),
                forall|k: PresentationHitRegionKind|
                    #[trigger] set.view_seq().contains(k) <==> (before_rows.contains(k)
                        || rows_named(k, session, rows@, r as int)),
            decreases rows@.len() - r,
        {
            let tab = rows[r].tab();
            set.insert(PresentationHitRegionKind::TabListMenuRow { menu: session, tab });
            proof {
                assert forall|k: PresentationHitRegionKind|
                    #[trigger] rows_named(k, session, rows@, r + 1) <==> (rows_named(
                        k,
                        session,
                        rows@,
                        r as int,
                    ) || k == (PresentationHitRegionKind::TabListMenuRow { menu: session, tab })) by {
                    if rows_named(k, session, rows@, r + 1) {
                        let j = choose|j: int|
                            0 <= j < r + 1 && k == (PresentationHitRegionKind::TabListMenuRow {
                                menu: session,
                                tab: rows@[j].tab(),
                            });
                        if j < r {
                            assert(rows_named(k, session, rows@, r as int));
                        }
                    }
                    if k == (PresentationHitRegionKind::TabListMenuRow { menu: session, tab }) {
                        assert(k == (PresentationHitRegionKind::TabListMenuRow {
                            menu: session,
                            tab: rows@[r as int].tab(),
                        }));
                    }
                }
            }
            r = r + 1;
        }
        proof {
            assert forall|k: PresentationHitRegionKind|
                menu_receiver(k, menus@, i + 1) <==> (menu_receiver(k, menus@, i as int) || (
                scrollable && k == PresentationHitRegionKind::TabListMenuScroll(session))
                    || rows_named(k, session, rows@, rows@.len() as int)) by {
                match k {
                    PresentationHitRegionKind::TabListMenuScroll(x) => {
                        if exists|a: int|
                            0 <= a < i + 1 && menus@[a].session() == x
                                && menus@[a].maximum_scroll_offset() > 0 {
                            let a = choose|a: int|
                                0 <= a < i + 1 && menus@[a].session() == x
                                    && menus@[a].maximum_scroll_offset() > 0;
                            if a < i {
                                assert(menu_receiver(k, menus@, i as int));
                            }
                        }
                    },
                    PresentationHitRegionKind::TabListMenuRow { menu: m, tab: t } => {
                        if exists|a: int, b: int|
                            0 <= a < i + 1 && 0 <= b < menus@[a].rows_view().len()
                                && menus@[a].session() == m && menus@[a].rows_view()[b].tab() == t {
                            let (a, b) = choose|a: int, b: int|
                                0 <= a < i + 1 && 0 <= b < menus@[a].rows_view().len()
                                    && menus@[a].session() == m && menus@[a].rows_view()[b].tab()
                                    == t;
                            if a < i {
                                assert(menu_receiver(k, menus@, i as int));
                            } else {
                                assert(k == (PresentationHitRegionKind::TabListMenuRow {
                                    menu: session,
                                    tab: rows@[b].tab(),
                                }));
                            }
                        }
                        if exists|j: int|
                            0 <= j < rows@.len() && k == (PresentationHitRegionKind::TabListMenuRow {
                                menu: session,
                                tab: rows@[j].tab(),
                            }) {
                            let j = choose|j: int|
                                0 <= j < rows@.len() && k == (
                                PresentationHitRegionKind::TabListMenuRow {
                                    menu: session,
                                    tab: rows@[j].tab(),
                                });
                            assert(0 <= j < menus@[i as int].rows_view().len()
                                && menus@[i as int].session() == m
                                && menus@[i as int].rows_view()[j].tab() == t);
                        }
                    },
                    _ => {},
                }
            }
        }
        i = i + 1;
    }
}

fn add_splitter_receivers(set: &mut KeySet<PresentationHitRegionKind>, splitters: &[SplitterRecord])
    ensures
        forall|k: PresentationHitRegionKind|
            #[trigger] final(set).view_seq().contains(k) <==> (old(set).view_seq().contains(k)
                || splitter_receiver(k, splitters@, splitters@.len() as int)),
{
    let ghost start = set.view_seq();
    let mut i: usize = 0;
    while i < splitters.len()
        invariant
            i <= splitters@.len(),
            forall|k: PresentationHitRegionKind|
                #[trigger] set.view_seq().contains(k) <==> (start.contains(k) || splitter_receiver(
                    k,
                    splitters@,
                    i as int,
                )),
        decreases splitters@.len() - i,
    {
        let id = *splitters[i].id();
        let operable = splitters[i].operable();
        if operable {
            set.insert(PresentationHitRegionKind::SplitterHandle(id));
        }
        proof {
            assert forall|k: PresentationHitRegionKind|
                splitter_receiver(k, splitters@, i + 1) <==> (splitter_receiver(
                    k,
                    splitters@,
                    i as int,
                ) || (operable && k == PresentationHitRegionKind::SplitterHandle(id))) by {
                if let PresentationHitRegionKind::SplitterHandle(x) = k {
                    if exists|j: int|
                        0 <= j < i + 1 && splitters@[j].spec_id() == x && splitters@[j].operable() {
                        let j = choose|j: int|
                            0 <= j < i + 1 && splitters@[j].spec_id() == x
                                && splitters@[j].operable();
                        if j < i {
                            assert(splitter_receiver(k, splitters@, i as int));
                        }
                    }
                }
            }
        }
        i = i + 1;
    }
}

fn add_contained_receivers(set: &mut KeySet<PresentationHitRegionKind>, contained: &[ContainedRecord])
    ensures
        forall|k: PresentationHitRegionKind|
            #[trigger] final(set).view_seq().contains(k) <==> (old(set).view_seq().contains(k)
                || contained_receiver(k, contained@, contained@.len() as int)),
{
    let ghost start = set.view_seq();
    let mut i: usize = 0;
    while i < contained.len()
        invariant
            i <= contained@.len(),
            forall|k: PresentationHitRegionKind|
                #[trigger] set.view_seq().contains(k) <==> (start.contains(k) || contained_receiver(
                    k,
                    contained@,
                    i as int,
                )),
        decreases contained@.len() - i,
    {
        let record = &contained[i];
        let floating = record.floating();
        let closable = record.close_bounds().is_some();
        if closable {
            set.insert(PresentationHitRegionKind::ContainedClose(floating));
        }
        let resize = record.resize();
        let ghost before_resize = set.view_seq();
        let mut r: usize = 0;
        while r < 8
            invariant
                r <= 8,
                *resize == contained@[i as int].spec_resize(),
                forall|k: PresentationHitRegionKind|
                    #[trigger] set.view_seq().contains(k) <==> (before_resize.contains(k)
                        || resizes_named(k, floating, resize@, r as int)),
            decreases 8 - r,
        {
            let direction = resize[r].direction();
            let cardinal = is_cardinal_resize(direction);
            if cardinal {
                set.insert(PresentationHitRegionKind::ContainedResize { floating, direction });
            }
            proof {
                assert forall|k: PresentationHitRegionKind|
                    #[trigger] resizes_named(k, floating, resize@, r + 1) <==> (resizes_named(
                        k,
                        floating,
                        resize@,
                        r as int,
                    ) || (cardinal && k == (PresentationHitRegionKind::ContainedResize {
                        floating,
                        direction,
                    }))) by {
                    if resizes_named(k, floating, resize@, r + 1) {
                        let j = choose|j: int|
                            0 <= j < r + 1 && is_cardinal(resize@[j].direction()) && k == (
                            PresentationHitRegionKind::ContainedResize {
                                floating,
                                direction: resize@[j].direction(),
                            });
                        if j < r {
                            assert(resizes_named(k, floating, resize@, r as int));
                        }
                    }
                    if cardinal && k == (PresentationHitRegionKind::ContainedResize {
                        floating,
                        direction,
                    }) {
                        assert(resize@[r as int].direction() == direction);
                    }
                }
            }
            r = r + 1;
        }
        proof {
            assert forall|k: PresentationHitRegionKind|
                contained_receiver(k, contained@, i + 1) <==> (contained_receiver(
                    k,
                    contained@,
                    i as int,
                ) || (closable && k == PresentationHitRegionKind::ContainedClose(floating))
                    || resizes_named(k, floating, resize@, 8)) by {
                match k {
                    PresentationHitRegionKind::ContainedClose(f) => {
                        if exists|a: int|
                            0 <= a < i + 1 && contained@[a].floating() == f
                                && contained@[a].close_bounds() is Some {
                            let a = choose|a: int|
                                0 <= a < i + 1 && contained@[a].floating() == f
                                    && contained@[a].close_bounds() is Some;
                            if a < i {
                                assert(contained_receiver(k, contained@, i as int));
                            }
                        }
                    },
                    PresentationHitRegionKind::ContainedResize { floating: f, direction: d } => {
                        if exists|a: int, b: int|
                            0 <= a < i + 1 && 0 <= b < 8 && contained@[a].floating() == f
                                && contained@[a].spec_resize()@[b].direction() == d
                                && is_cardinal(d) {
                            let (a, b) = choose|a: int, b: int|
                                0 <= a < i + 1 && 0 <= b < 8 && contained@[a].floating() == f
                                    && contained@[a].spec_resize()@[b].direction() == d
                                    && is_cardinal(d);
                            if a < i {
                                assert(contained_receiver(k, contained@, i as int));
                            } else {
                                assert(k == (PresentationHitRegionKind::ContainedResize {
                                    floating,
                                    direction: resize@[b].direction(),
                                }));
                            }
                        }
                        if exists|j: int|
                            0 <= j < 8 && is_cardinal(resize@[j].direction()) && k == (
                            PresentationHitRegionKind::ContainedResize {
                                floating,
                                direction: resize@[j].direction(),
                            }) {
                            let j = choose|j: int|
                                0 <= j < 8 && is_cardinal(resize@[j].direction()) && k == (
                                PresentationHitRegionKind::ContainedResize {
                                    floating,
                                    direction: resize@[j].direction(),
                                });
                            assert(contained@[i as int].spec_resize()@[j].direction() == d);
                        }
                    },
                    _ => {},
                }
            }
        }
        i = i + 1;
    }
}

/// The semantic receiver roster of one presented output, in canonical order.
#[derive(Debug, PartialEq, Eq)]
pub struct PresentationSemanticManifest {
    output: SurfacePresentationOutputTicket,
    receivers: KeySet<PresentationHitRegionKind>,
}

impl PresentationSemanticManifest {
    /// Exact output behind [`Self::output`].
    pub closed spec fn spec_output(&self) -> SurfacePresentationOutputTicket {
        self.output
    }

    /// Receivers in canonical order.
    pub closed spec fn receivers_view(&self) -> Seq<PresentationHitRegionKind> {
        self.receivers.view_seq()
    }

    /// Inventories the semantic receivers of one presented plan: every tab
    /// body, each closable tab's close control, each enabled strip control,
    /// each scrollable menu and every menu row, each operable splitter handle,
    /// and each contained presentation's close control and edge resize regions.
    pub fn compile(
        output: SurfacePresentationOutputTicket,
        tabs: &[TabRecord],
        controls: &[TabStripControlRecord],
        menus: &[TabListMenuRecord],
        splitters: &[SplitterRecord],
        contained: &[ContainedRecord],
    ) -> (r: Self)
        ensures
            r.output() == output,
            forall|k: PresentationHitRegionKind|
                #[trigger] r.receivers_view().contains(k) <==> is_receiver(
                    k,
                    tabs@,
                    controls@,
                    menus@,
                    splitters@,
                    contained@,
                ),
    {
        let mut receivers = KeySet::new();
        add_tab_receivers(&mut receivers, tabs);
        add_control_receivers(&mut receivers, controls);
        add_menu_receivers(&mut receivers, menus);
        add_splitter_receivers(&mut receivers, splitters);
        add_contained_receivers(&mut receivers, contained);
        PresentationSemanticManifest { output, receivers }
    }

    /// Returns the exact output which minted this roster.
    #[verifier::when_used_as_spec(spec_output)]
    pub fn output(&self) -> (r: SurfacePresentationOutputTicket)
        ensures
            r == self.spec_output(),
    {
        self.output
    }

    /// Returns every semantic receiver in canonical order.
    pub fn receivers(&self) -> (r: &[PresentationHitRegionKind])
        ensures
            r@ == self.receivers_view(),
            crate::collections::canonical(r@),
    {
        self.receivers.as_slice()
    }

    /// Returns whether the output exposes this semantic receiver.
    pub fn contains(&self, target: PresentationHitRegionKind) -> (r: bool)
        ensures
            r == self.receivers_view().contains(target),
    {
        self.receivers.contains(&target)
    }

    /// Returns whether the output exposes `target` and core defines `action` for it.
    pub fn supports(&self, target: PresentationHitRegionKind, action: SemanticReceiverAction) -> (r:
        bool)
        ensures
            r == (self.receivers_view().contains(target) && supported_action(target, action)),
    {
        self.contains(target) && receiver_supports(target, action)
    }
}

} // verus!
