//! The snapshot-aggregate record: a named grouping of files within one
//! snapshot with its own counters, and the interface state of its list
//! screen.

use vstd::prelude::*;
use crate::snapshot::SnapshotPickerState;

verus! {

/// One aggregate row: a coded grouping within a snapshot.
pub struct SnapshotAggregate {
    pub id: i64,
    pub snapshot_id: i64,
    pub code: String,
    pub name: String,
    pub description: Option<String>,
    pub file_count: i64,
    pub total_size_bytes: i64,
    pub created_at: String,
    pub updated_at: String,
}

impl SnapshotAggregate {
    /// Builds an aggregate holding exactly the given fields.
    pub fn new(
        id: i64,
        snapshot_id: i64,
        code: String,
        name: String,
        description: Option<String>,
        file_count: i64,
        total_size_bytes: i64,
        created_at: String,
        updated_at: String,
    ) -> (r: SnapshotAggregate)
        ensures
            r.id == id,
            r.snapshot_id == snapshot_id,
            r.code == code,
            r.name == name,
            r.description == description,
            r.file_count == file_count,
            r.total_size_bytes == total_size_bytes,
            r.created_at == created_at,
            r.updated_at == updated_at,
    {
        SnapshotAggregate {
            id,
            snapshot_id,
            code,
            name,
            description,
            file_count,
            total_size_bytes,
            created_at,
            updated_at,
        }
    }
}

/// The column an aggregate list is sorted by.
#[derive(Debug, Clone, Copy, PartialEq, Eq, Structural)]
pub enum SortColumn {
    Code,
    Name,
    Description,
    FileCount,
    TotalSize,
    CreatedAt,
    UpdatedAt,
}

/// The direction a list is sorted in.
#[derive(Debug, Clone, Copy, PartialEq, Eq, Structural)]
pub enum SortDirection {
    Ascending,
    Descending,
}

impl Default for SortDirection {
    /// Lists sort ascending until asked otherwise.
    fn default() -> (r: SortDirection)
        ensures
            r == SortDirection::Ascending,
    {
        SortDirection::Ascending
    }
}

/// The state of the aggregates list screen.
pub struct ListState {
    pub snapshot_id: Option<i64>,
    pub snapshot_name: String,
    pub snapshot_picker: SnapshotPickerState,
    pub status: String,
    pub filter: String,
    pub sort_column: Option<SortColumn>,
    pub sort_direction: SortDirection,
}

impl ListState {
    /// Opens the snapshot picker; everything else is kept.
    pub fn open_picker(&mut self)
        ensures
            final(self).snapshot_picker.open,
            final(self).snapshot_picker.selected_id is None,
            final(self).snapshot_picker.status@ == Seq::<char>::empty(),
            final(self).snapshot_picker.search == old(self).snapshot_picker.search,
            final(self).snapshot_id == old(self).snapshot_id,
            final(self).snapshot_name == old(self).snapshot_name,
            final(self).status == old(self).status,
            final(self).filter == old(self).filter,
            final(self).sort_column == old(self).sort_column,
            final(self).sort_direction == old(self).sort_direction,
    {
        self.snapshot_picker.open();
    }
}

impl Default for ListState {
    /// No snapshot selected, closed picker, no filter, unsorted.
    fn default() -> (r: ListState)
        ensures
            r.snapshot_id is None,
            r.snapshot_name@ == Seq::<char>::empty(),
            !r.snapshot_picker.open,
            r.status@ == Seq::<char>::empty(),
            r.filter@ == Seq::<char>::empty(),
            r.sort_column is None,
            r.sort_direction == SortDirection::Ascending,
    {
        ListState {
            snapshot_id: None,
            snapshot_name: String::new(),
            snapshot_picker: Default::default(),
            status: String::new(),
            filter: String::new(),
            sort_column: None,
            sort_direction: SortDirection::Ascending,
        }
    }
}

/// Clicking a column header sorts by it: a repeated click flips the
/// direction, a new column starts ascending.
pub fn toggle_sort(state: &mut ListState, column: SortColumn)
    ensures
        final(state).sort_column == Some(column),
        final(state).sort_direction == (if old(state).sort_column == Some(column) {
            if old(state).sort_direction == SortDirection::Ascending {
                SortDirection::Descending
            } else {
                SortDirection::Ascending
            }
        } else {
            SortDirection::Ascending
        }),
        final(state).snapshot_id == old(state).snapshot_id,
        final(state).snapshot_name == old(state).snapshot_name,
        final(state).snapshot_picker == old(state).snapshot_picker,
        final(state).status == old(state).status,
        final(state).filter == old(state).filter,
{
    let same = match state.sort_column {
        Some(c) => c == column,
        None => false,
    };
    if same {
        state.sort_direction = match state.sort_direction {
            SortDirection::Ascending => SortDirection::Descending,
            SortDirection::Descending => SortDirection::Ascending,
        };
        state.sort_column = Some(column);
    } else {
        state.sort_column = Some(column);
        state.sort_direction = SortDirection::Ascending;
    }
}

} // verus!
