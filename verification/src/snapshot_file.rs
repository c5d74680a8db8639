//! The persisted node record: one file or directory of a snapshot, linked to
//! its parent by identifier and tagged with derived metadata.

use vstd::prelude::*;
use crate::snapshot::SnapshotPickerState;

verus! {

/// One file-or-directory record of a snapshot.
pub struct SnapshotFile {
    pub id: i64,
    pub snapshot_id: i64,
    pub parent_id: Option<i64>,
    pub name: String,
    pub path: String,
    pub size_bytes: i64,
    pub is_directory: bool,
    pub file_extension: Option<String>,
    pub crate_layer: Option<String>,
    pub artifact_type: Option<String>,
    pub artifact_id: Option<String>,
    pub artifact_name: Option<String>,
    pub role: Option<String>,
}

/// The mathematical model of a node record.
pub struct NodeModel {
    pub id: int,
    pub snapshot_id: int,
    pub parent_id: Option<int>,
    pub name: Seq<char>,
    pub path: Seq<char>,
    pub size_bytes: int,
    pub is_directory: bool,
    pub file_extension: Option<Seq<char>>,
    pub crate_layer: Option<Seq<char>>,
    pub artifact_type: Option<Seq<char>>,
    pub artifact_id: Option<Seq<char>>,
    pub artifact_name: Option<Seq<char>>,
    pub role: Option<Seq<char>>,
}

/// The view of an optional owned string.
pub open spec fn opt_str_view(o: Option<String>) -> Option<Seq<char>> {
    match o {
        None => None,
        Some(s) => Some(s@),
    }
}

/// The view of an optional identifier.
pub open spec fn opt_id_view(o: Option<i64>) -> Option<int> {
    match o {
        None => None,
        Some(i) => Some(i as int),
    }
}

impl View for SnapshotFile {
    type V = NodeModel;

    open spec fn view(&self) -> NodeModel {
        NodeModel {
            id: self.id as int,
            snapshot_id: self.snapshot_id as int,
            parent_id: opt_id_view(self.parent_id),
            name: self.name@,
            path: self.path@,
            size_bytes: self.size_bytes as int,
            is_directory: self.is_directory,
            file_extension: opt_str_view(self.file_extension),
            crate_layer: opt_str_view(self.crate_layer),
            artifact_type: opt_str_view(self.artifact_type),
            artifact_id: opt_str_view(self.artifact_id),
            artifact_name: opt_str_view(self.artifact_name),
            role: opt_str_view(self.role),
        }
    }
}

impl SnapshotFile {
    /// Builds a record holding exactly the given fields.
    pub fn new(
        id: i64,
        snapshot_id: i64,
        parent_id: Option<i64>,
        name: String,
        path: String,
        size_bytes: i64,
        is_directory: bool,
        file_extension: Option<String>,
        crate_layer: Option<String>,
        artifact_type: Option<String>,
        artifact_id: Option<String>,
        artifact_name: Option<String>,
        role: Option<String>,
    ) -> (r: SnapshotFile)
        ensures
            r.id == id,
            r.snapshot_id == snapshot_id,
            r.parent_id == parent_id,
            r.name == name,
            r.path == path,
            r.size_bytes == size_bytes,
            r.is_directory == is_directory,
            r.file_extension == file_extension,
            r.crate_layer == crate_layer,
            r.artifact_type == artifact_type,
            r.artifact_id == artifact_id,
            r.artifact_name == artifact_name,
            r.role == role,
    {
        SnapshotFile {
            id,
            snapshot_id,
            parent_id,
            name,
            path,
            size_bytes,
            is_directory,
            file_extension,
            crate_layer,
            artifact_type,
            artifact_id,
            artifact_name,
            role,
        }
    }
}

/// The views of a sequence of node records.
pub open spec fn node_views(s: Seq<SnapshotFile>) -> Seq<NodeModel> {
    s.map_values(|r: SnapshotFile| r@)
}


/// The column a snapshot-file list is sorted by.
#[derive(Debug, Clone, Copy, PartialEq, Eq, Structural)]
pub enum SortColumn {
    Name,
    Path,
    Size,
    Extension,
    CrateLayer,
    ArtifactType,
    ArtifactId,
    ArtifactName,
    Role,
}

/// The direction a list is sorted in.
#[derive(Debug, Clone, Copy, PartialEq, Eq, Structural)]
pub enum SortDirection {
    Ascending,
    Descending,
}

impl Default for SortDirection {
    /// Lists sort ascending until asked otherwise.
    fn default() -> (r: SortDirection)
        ensures
            r == SortDirection::Ascending,
    {
        SortDirection::Ascending
    }
}

/// The state of the snapshot-files list screen.
pub struct ListState {
    pub snapshot_id: Option<i64>,
    pub snapshot_name: String,
    pub snapshot_picker: SnapshotPickerState,
    pub status: String,
    pub filter: String,
    pub sort_column: Option<SortColumn>,
    pub sort_direction: SortDirection,
}

impl ListState {
    /// Opens the snapshot picker; everything else is kept.
    pub fn open_picker(&mut self)
        ensures
            final(self).snapshot_picker.open,
            final(self).snapshot_picker.selected_id is None,
            final(self).snapshot_picker.status@ == Seq::<char>::empty(),
            final(self).snapshot_picker.search == old(self).snapshot_picker.search,
            final(self).snapshot_id == old(self).snapshot_id,
            final(self).snapshot_name == old(self).snapshot_name,
            final(self).status == old(self).status,
            final(self).filter == old(self).filter,
            final(self).sort_column == old(self).sort_column,
            final(self).sort_direction == old(self).sort_direction,
    {
        self.snapshot_picker.open();
    }
}

impl Default for ListState {
    /// No snapshot selected, closed picker, no filter, unsorted.
    fn default() -> (r: ListState)
        ensures
            r.snapshot_id is None,
            r.snapshot_name@ == Seq::<char>::empty(),
            !r.snapshot_picker.open,
            r.status@ == Seq::<char>::empty(),
            r.filter@ == Seq::<char>::empty(),
            r.sort_column is None,
            r.sort_direction == SortDirection::Ascending,
    {
        ListState {
            snapshot_id: None,
            snapshot_name: String::new(),
            snapshot_picker: Default::default(),
            status: String::new(),
            filter: String::new(),
            sort_column: None,
            sort_direction: SortDirection::Ascending,
        }
    }
}

/// Clicking a column header sorts by it: a repeated click flips the
/// direction, a new column starts ascending.
pub fn toggle_sort(state: &mut ListState, column: SortColumn)
    ensures
        final(state).sort_column == Some(column),
        final(state).sort_direction == (if old(state).sort_column == Some(column) {
            if old(state).sort_direction == SortDirection::Ascending {
                SortDirection::Descending
            } else {
                SortDirection::Ascending
            }
        } else {
            SortDirection::Ascending
        }),
        final(state).snapshot_id == old(state).snapshot_id,
        final(state).snapshot_name == old(state).snapshot_name,
        final(state).snapshot_picker == old(state).snapshot_picker,
        final(state).status == old(state).status,
        final(state).filter == old(state).filter,
{
    let same = match state.sort_column {
        Some(c) => c == column,
        None => false,
    };
    if same {
        state.sort_direction = match state.sort_direction {
            SortDirection::Ascending => SortDirection::Descending,
            SortDirection::Descending => SortDirection::Ascending,
        };
        state.sort_column = Some(column);
    } else {
        state.sort_column = Some(column);
        state.sort_direction = SortDirection::Ascending;
    }
}

/// The state of the snapshot-files tree screen.
pub struct TreeViewState {
    pub snapshot_id: Option<i64>,
    pub snapshot_name: String,
    pub snapshot_picker: SnapshotPickerState,
    pub status: String,
}

impl TreeViewState {
    /// Opens the snapshot picker; everything else is kept.
    pub fn open_picker(&mut self)
        ensures
            final(self).snapshot_picker.open,
            final(self).snapshot_picker.selected_id is None,
            final(self).snapshot_picker.status@ == Seq::<char>::empty(),
            final(self).snapshot_picker.search == old(self).snapshot_picker.search,
            final(self).snapshot_id == old(self).snapshot_id,
            final(self).snapshot_name == old(self).snapshot_name,
            final(self).status == old(self).status,
    {
        self.snapshot_picker.open();
    }
}

impl Default for TreeViewState {
    /// No snapshot selected, closed picker.
    fn default() -> (r: TreeViewState)
        ensures
            r.snapshot_id is None,
            r.snapshot_name@ == Seq::<char>::empty(),
            !r.snapshot_picker.open,
            r.status@ == Seq::<char>::empty(),
    {
        TreeViewState {
            snapshot_id: None,
            snapshot_name: String::new(),
            snapshot_picker: Default::default(),
            status: String::new(),
        }
    }
}

} // verus!
