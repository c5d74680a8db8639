//! The snapshot aggregate: one named inventory of a project tree with its
//! summary statistics, and the interface state used to list, edit, and pick
//! snapshots.

use vstd::prelude::*;
use vstd::string::StringExecFns;

verus! {

/// A snapshot: a named inventory of a project's tree, carrying the aggregate
/// figures recomputed at the end of each scan.
pub struct Snapshot {
    pub id: i64,
    pub name: String,
    pub project_id: i64,
    pub comment: Option<String>,
    pub files_count: i64,
    pub dirs_count: i64,
    pub files_size_bytes: i64,
    pub loc_count: i64,
    pub scanned_at: String,
}

impl Snapshot {
    /// Builds a snapshot holding exactly the given fields.
    pub fn new(
        id: i64,
        name: String,
        project_id: i64,
        comment: Option<String>,
        files_count: i64,
        dirs_count: i64,
        files_size_bytes: i64,
        loc_count: i64,
        scanned_at: String,
    ) -> (r: Snapshot)
        ensures
            r.id == id,
            r.name == name,
            r.project_id == project_id,
            r.comment == comment,
            r.files_count == files_count,
            r.dirs_count == dirs_count,
            r.files_size_bytes == files_size_bytes,
            r.loc_count == loc_count,
            r.scanned_at == scanned_at,
    {
        Snapshot {
            id,
            name,
            project_id,
            comment,
            files_count,
            dirs_count,
            files_size_bytes,
            loc_count,
            scanned_at,
        }
    }
}

/// The form state for one snapshot's fields.
pub struct SnapshotDetailsState {
    pub name: String,
    pub project_id: i64,
    pub comment: String,
    pub files_count: i64,
    pub dirs_count: i64,
    pub files_size_bytes: i64,
    pub loc_count: i64,
    pub scanned_at: String,
}

impl SnapshotDetailsState {
    /// Fills the form from field values; a missing comment becomes the empty
    /// string.
    pub fn from_snapshot(
        name: &str,
        project_id: i64,
        comment: Option<&str>,
        files_count: i64,
        dirs_count: i64,
        files_size_bytes: i64,
        loc_count: i64,
        scanned_at: &str,
    ) -> (r: SnapshotDetailsState)
        ensures
            r.name@ == name@,
            r.project_id == project_id,
            r.comment@ == match comment {
                Some(c) => c@,
                None => Seq::<char>::empty(),
            },
            r.files_count == files_count,
            r.dirs_count == dirs_count,
            r.files_size_bytes == files_size_bytes,
            r.loc_count == loc_count,
            r.scanned_at@ == scanned_at@,
    {
        let comment_text = match comment {
            Some(c) => String::from_str(c),
            None => String::new(),
        };
        SnapshotDetailsState {
            name: String::from_str(name),
            project_id,
            comment: comment_text,
            files_count,
            dirs_count,
            files_size_bytes,
            loc_count,
            scanned_at: String::from_str(scanned_at),
        }
    }
}

impl Default for SnapshotDetailsState {
    /// An empty form.
    fn default() -> (r: SnapshotDetailsState)
        ensures
            r.name@ == Seq::<char>::empty(),
            r.project_id == 0,
            r.comment@ == Seq::<char>::empty(),
            r.files_count == 0,
            r.dirs_count == 0,
            r.files_size_bytes == 0,
            r.loc_count == 0,
            r.scanned_at@ == Seq::<char>::empty(),
    {
        SnapshotDetailsState {
            name: String::new(),
            project_id: 0,
            comment: String::new(),
            files_count: 0,
            dirs_count: 0,
            files_size_bytes: 0,
            loc_count: 0,
            scanned_at: String::new(),
        }
    }
}

/// The state of the modal snapshot picker.
pub struct SnapshotPickerState {
    pub open: bool,
    pub search: String,
    pub selected_id: Option<i64>,
    pub status: String,
}

impl SnapshotPickerState {
    /// Opens the picker with no selection and a cleared status; the search
    /// text is kept.
    pub fn open(&mut self)
        ensures
            final(self).open,
            final(self).selected_id is None,
            final(self).status@ == Seq::<char>::empty(),
            final(self).search == old(self).search,
    {
        self.open = true;
        self.selected_id = None;
        self.status = String::new();
    }
}

impl Default for SnapshotPickerState {
    /// A closed picker with nothing selected.
    fn default() -> (r: SnapshotPickerState)
        ensures
            !r.open,
            r.search@ == Seq::<char>::empty(),
            r.selected_id is None,
            r.status@ == Seq::<char>::empty(),
    {
        SnapshotPickerState {
            open: false,
            search: String::new(),
            selected_id: None,
            status: String::new(),
        }
    }
}

/// The state of the snapshots list screen: which modal is open, which row is
/// being edited, the three detail forms, and the inline project picker.
pub struct SnapshotsListState {
    pub show_create: bool,
    pub show_edit: bool,
    pub show_view: bool,
    pub editing_id: Option<i64>,
    pub create_details: SnapshotDetailsState,
    pub edit_details: SnapshotDetailsState,
    pub view_details: SnapshotDetailsState,
    pub project_picker: crate::project::ProjectPickerState,
    pub status: String,
}

impl Default for SnapshotsListState {
    /// No modal open, nothing being edited, empty forms, closed picker.
    fn default() -> (r: SnapshotsListState)
        ensures
            !r.show_create,
            !r.show_edit,
            !r.show_view,
            r.editing_id is None,
            !r.project_picker.open,
            r.status@ == Seq::<char>::empty(),
    {
        SnapshotsListState {
            show_create: false,
            show_edit: false,
            show_view: false,
            editing_id: None,
            create_details: Default::default(),
            edit_details: Default::default(),
            view_details: Default::default(),
            project_picker: Default::default(),
            status: String::new(),
        }
    }
}

} // verus!
