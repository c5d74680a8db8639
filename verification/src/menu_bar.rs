//! The menu bar's state: each menu latches at most one pending action, which
//! the host reads and clears once per frame.

use vstd::prelude::*;

verus! {

#[derive(Debug, Clone, Copy, PartialEq)]
pub enum FileAction {
    Exit,
}

#[derive(Debug, Clone, Copy, PartialEq)]
pub enum EditAction {
    Undo,
    Redo,
    Cut,
    Copy,
    Paste,
}

#[derive(Debug, Clone, Copy, PartialEq)]
pub enum ViewAction {
    ToggleNavbar,
    ToggleFullscreen,
}

#[derive(Debug, Clone, Copy, PartialEq)]
pub enum SettingsAction {
    ZoomIn,
    ZoomOut,
    ZoomReset,
    OpenSettingsForm,
}

#[derive(Debug, Clone, Copy, PartialEq)]
pub enum HelpAction {
    About,
    Documentation,
}

#[derive(Debug, Clone, Copy, PartialEq)]
pub enum AggregatesAction {
    Projects,
    Snapshots,
    SnapshotFiles,
    SnapshotAggregates,
}

#[derive(Debug, Clone, Copy, PartialEq)]
pub enum UseCasesAction {
    ScanSnapshot,
}

/// The pending action of each menu, plus whether the navigation bar is
/// shown.
pub struct MenuBar {
    pub file_action: Option<FileAction>,
    pub edit_action: Option<EditAction>,
    pub view_action: Option<ViewAction>,
    pub settings_action: Option<SettingsAction>,
    pub help_action: Option<HelpAction>,
    pub aggregates_action: Option<AggregatesAction>,
    pub usecases_action: Option<UseCasesAction>,
    pub navbar_visible: bool,
}

impl MenuBar {
    /// A menu bar with no pending actions and the navigation bar shown.
    pub fn new() -> (r: MenuBar)
        ensures
            r.file_action is None,
            r.edit_action is None,
            r.view_action is None,
            r.settings_action is None,
            r.help_action is None,
            r.aggregates_action is None,
            r.usecases_action is None,
            r.navbar_visible,
    {
        MenuBar {
            file_action: None,
            edit_action: None,
            view_action: None,
            settings_action: None,
            help_action: None,
            aggregates_action: None,
            usecases_action: None,
            navbar_visible: true,
        }
    }

    /// Drops every pending action; the navigation bar's visibility is kept.
    pub fn clear_actions(&mut self)
        ensures
            final(self).file_action is None,
            final(self).edit_action is None,
            final(self).view_action is None,
            final(self).settings_action is None,
            final(self).help_action is None,
            final(self).aggregates_action is None,
            final(self).usecases_action is None,
            final(self).navbar_visible == old(self).navbar_visible,
    {
        self.file_action = None;
        self.edit_action = None;
        self.view_action = None;
        self.settings_action = None;
        self.help_action = None;
        self.aggregates_action = None;
        self.usecases_action = None;
    }
}

impl Default for MenuBar {
    /// The same state `new` builds.
    fn default() -> (r: MenuBar)
        ensures
            r.file_action is None,
            r.edit_action is None,
            r.view_action is None,
            r.settings_action is None,
            r.help_action is None,
            r.aggregates_action is None,
            r.usecases_action is None,
            r.navbar_visible,
    {
        MenuBar::new()
    }
}

} // verus!
