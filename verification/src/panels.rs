//! The dockable tabs of the main window.

use vstd::prelude::*;

verus! {

/// One main-window tab.
#[derive(Clone, Debug, PartialEq, Eq, Hash)]
pub enum AppTab {
    Projects,
    Snapshots,
    SnapshotFiles,
    SnapshotAggregates,
    ScanSnapshot,
}

impl AppTab {
    /// The fixed title shown on the tab.
    pub fn title(&self) -> (r: &'static str)
        ensures
            r@ == match self {
                AppTab::Projects => "Projects"@,
                AppTab::Snapshots => "Snapshots"@,
                AppTab::SnapshotFiles => "Snapshot Files"@,
                AppTab::SnapshotAggregates => "Snapshot Aggregates"@,
                AppTab::ScanSnapshot => "Scan Snapshot"@,
            },
    {
        match self {
            AppTab::Projects => "Projects",
            AppTab::Snapshots => "Snapshots",
            AppTab::SnapshotFiles => "Snapshot Files",
            AppTab::SnapshotAggregates => "Snapshot Aggregates",
            AppTab::ScanSnapshot => "Scan Snapshot",
        }
    }
}

} // verus!
