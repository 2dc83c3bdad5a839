//! Tab-strip state identities, popup sessions, and popup-plane requirements.

use vstd::prelude::*;

use crate::ids::SurfaceId;
use crate::records::tab::TabBarSceneId;

verus! {

/// Identity of one tab strip's core-owned state: a tab bar on one surface.
#[derive(Debug, Clone, Copy, PartialEq, Eq, Structural, PartialOrd, Ord, Hash)]
pub struct TabStripStateKey {
    /// Surface presenting the strip.
    pub surface: SurfaceId,
    /// Tab bar owning the strip.
    pub bar: TabBarSceneId,
}

impl TabStripStateKey {
    /// Creates one strip key.
    pub fn new(surface: SurfaceId, bar: TabBarSceneId) -> (r: Self)
        ensures
            r.surface == surface,
            r.bar == bar,
    {
        TabStripStateKey { surface, bar }
    }

    /// Returns the surface presenting the strip.
    pub fn surface(self) -> (r: SurfaceId)
        ensures
            r == self.surface,
    {
        self.surface
    }

    /// Returns the tab bar owning the strip.
    pub fn bar(self) -> (r: TabBarSceneId)
        ensures
            r == self.bar,
    {
        self.bar
    }
}

/// Identity of one tab-list menu session opened from one strip.
#[derive(Debug, Clone, Copy, PartialEq, Eq, Structural, PartialOrd, Ord, Hash)]
pub struct TabListMenuSessionId {
    /// Strip that opened the session.
    pub key: TabStripStateKey,
    /// Serial distinguishing successive sessions of one strip.
    pub serial: u64,
}

impl TabListMenuSessionId {
    /// Creates one session identity.
    pub fn new(key: TabStripStateKey, serial: u64) -> (r: Self)
        ensures
            r.key == key,
            r.serial == serial,
    {
        TabListMenuSessionId { key, serial }
    }

    /// Returns the strip that opened the session.
    pub fn key(self) -> (r: TabStripStateKey)
        ensures
            r == self.key,
    {
        self.key
    }
}

/// Monotonic revision of popup routing state.
#[derive(Debug, Clone, Copy, PartialEq, Eq, Structural, PartialOrd, Ord, Hash, Default)]
pub struct PopupRoutingRevision(pub u64);

impl PopupRoutingRevision {
    /// Creates a routing revision from its raw value.
    pub fn new(value: u64) -> (r: Self)
        ensures
            r.0 == value,
    {
        PopupRoutingRevision(value)
    }
}

/// Identity of one tab-strip control.
#[derive(Debug, Clone, Copy, PartialEq, Eq, Structural, PartialOrd, Ord, Hash)]
pub enum TabStripControlId {
    /// Scrolls the strip toward its first tab.
    ScrollBackward(TabBarSceneId),
    /// Scrolls the strip toward its last tab.
    ScrollForward(TabBarSceneId),
    /// Opens the tab-list menu.
    TabListMenu(TabBarSceneId),
}

/// Whether the scene must reserve a popup plane for an open tab-list menu.
#[derive(Debug, Clone, Copy, PartialEq, Eq, Structural, Hash)]
pub enum PopupPlaneRequirement {
    /// No popup is open.
    Inactive {
        /// Routing revision observed when the requirement was derived.
        revision: PopupRoutingRevision,
    },
    /// One tab-list menu is open.
    Active {
        /// Routing revision observed when the requirement was derived.
        revision: PopupRoutingRevision,
        /// Open menu session.
        session: TabListMenuSessionId,
        /// Strip that owns the open menu.
        owner: TabStripStateKey,
    },
}

impl PopupPlaneRequirement {
    /// Returns the default requirement: no popup, initial routing revision.
    pub fn inactive() -> (r: Self)
        ensures
            r == (PopupPlaneRequirement::Inactive { revision: PopupRoutingRevision(0) }),
    {
        PopupPlaneRequirement::Inactive { revision: PopupRoutingRevision(0) }
    }

    /// Returns whether a popup is open.
    pub fn is_active(self) -> (r: bool)
        ensures
            r == (self is Active),
    {
        match self {
            PopupPlaneRequirement::Active { .. } => true,
            PopupPlaneRequirement::Inactive { .. } => false,
        }
    }
}

impl Default for PopupPlaneRequirement {
    /// No popup is open, at the initial routing revision.
    fn default() -> (r: Self)
        ensures
            r == (PopupPlaneRequirement::Inactive { revision: PopupRoutingRevision(0) }),
    {
        PopupPlaneRequirement::Inactive { revision: PopupRoutingRevision(0) }
    }
}

} // verus!
