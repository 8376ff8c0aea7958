//! The inspector at the bottom of the window: details of the inspected entity,
//! shown on one of two tabs.
use vstd::prelude::*;

verus! {

#[derive(Debug, Clone, Copy, PartialEq, Eq, Structural)]
pub enum InspectorTab {
    InternalRouting,
    Info,
}

impl Default for InspectorTab {
    /// The info tab comes first.
    fn default() -> (t: Self)
        ensures
            t == InspectorTab::Info,
    {
        InspectorTab::Info
    }
}

/// The state of the inspector: which of its tabs is active.
#[derive(Debug, Clone, Copy, PartialEq, Eq, Structural)]
pub struct Inspector {
    pub active_tab: InspectorTab,
}

impl Inspector {
    /// A new inspector, on the info tab.
    pub fn new() -> (i: Self)
        ensures
            i.active_tab == InspectorTab::Info,
    {
        Inspector { active_tab: InspectorTab::Info }
    }

    /// The tabs in the order they are shown.
    pub fn tabs() -> (t: Vec<InspectorTab>)
        ensures
            t@ == seq![InspectorTab::InternalRouting, InspectorTab::Info],
    {
        vec![InspectorTab::InternalRouting, InspectorTab::Info]
    }

    /// Switches to `tab`.
    pub fn activate(&mut self, tab: InspectorTab)
        ensures
            final(self).active_tab == tab,
    {
        self.active_tab = tab;
    }

    /// What the inspector shows: nothing while no entity is inspected,
    /// otherwise the active tab.
    pub fn view(&self, inspected_object: Option<u32>) -> (v: Option<InspectorTab>)
        ensures
            v == (if inspected_object is Some {
                Some(self.active_tab)
            } else {
                None
            }),
    {
        match inspected_object {
            Some(_) => Some(self.active_tab),
            None => None,
        }
    }
}

} // verus!
