//! Frozen tab-bar policy facts consumed by requirement manifests.

use vstd::prelude::*;

verus! {

/// Whether a tab bar is presented.
#[derive(Debug, Clone, Copy, PartialEq, Eq, Structural, PartialOrd, Ord, Hash)]
pub enum TabBarVisibility {
    /// The tab bar is presented.
    Visible,
    /// The tab bar is omitted from presentation.
    Hidden,
}

/// Whether a presented tab bar accepts interaction.
#[derive(Debug, Clone, Copy, PartialEq, Eq, Structural, PartialOrd, Ord, Hash)]
pub enum TabBarInteraction {
    /// Tabs, controls, and menus accept interaction.
    Enabled,
    /// The tab bar is presented but inert.
    Disabled,
}

/// Frozen presentation and interaction policy of one tab bar.
#[derive(Debug, Clone, Copy, PartialEq, Eq, Structural, PartialOrd, Ord, Hash)]
pub struct TabBarPolicy {
    visibility: TabBarVisibility,
    interaction: TabBarInteraction,
}

impl TabBarPolicy {
    /// Exact visibility behind [`Self::visibility`].
    pub closed spec fn spec_visibility(self) -> TabBarVisibility {
        self.visibility
    }

    /// Exact interaction behind [`Self::interaction`].
    pub closed spec fn spec_interaction(self) -> TabBarInteraction {
        self.interaction
    }

    /// Creates one tab-bar policy.
    pub fn new(visibility: TabBarVisibility, interaction: TabBarInteraction) -> (r: Self)
        ensures
            r.visibility() == visibility,
            r.interaction() == interaction,
    {
        TabBarPolicy { visibility, interaction }
    }

    /// Returns whether the tab bar is presented.
    #[verifier::when_used_as_spec(spec_visibility)]
    pub fn visibility(self) -> (r: TabBarVisibility)
        ensures
            r == self.spec_visibility(),
    {
        self.visibility
    }

    /// Returns whether the tab bar accepts interaction.
    #[verifier::when_used_as_spec(spec_interaction)]
    pub fn interaction(self) -> (r: TabBarInteraction)
        ensures
            r == self.spec_interaction(),
    {
        self.interaction
    }
}

/// Frozen close permission of one item in a tab bar.
#[derive(Debug, Clone, Copy, PartialEq, Eq, Structural, PartialOrd, Ord, Hash)]
pub enum CloseCapability {
    /// The item may be closed from its tab.
    Closable,
    /// Policy forbids closing the item.
    Pinned,
}

} // verus!
