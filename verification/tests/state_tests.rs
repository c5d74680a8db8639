use navigator::menu_bar::{FileAction, MenuBar, SettingsAction};
use navigator::panels::AppTab;
use navigator::project::{Project, ProjectDetailsState, ProjectPickerState, ProjectsListState};
use navigator::scanner::{ScanProgress, ScanSnapshotState};
use navigator::settings::Theme;
use navigator::snapshot::{Snapshot, SnapshotDetailsState, SnapshotPickerState, SnapshotsListState};
use navigator::snapshot_aggregate::SnapshotAggregate;
use navigator::snapshot_file::{ListState, SortColumn, SortDirection, TreeViewState, toggle_sort};

#[test]
fn project_new_and_details() {
    let p = Project::new(4, "/tmp/x".to_string(), "x".to_string(), None);
    assert_eq!(p.id, 4);
    assert_eq!(p.root_path, "/tmp/x");
    assert_eq!(p.name, "x");
    assert!(p.description.is_none());

    let d = ProjectDetailsState::from_values("x", "/tmp/x", Some("a project"));
    assert_eq!(d.name, "x");
    assert_eq!(d.root_path, "/tmp/x");
    assert_eq!(d.description, "a project");
    let d = ProjectDetailsState::from_values("x", "/tmp/x", None);
    assert_eq!(d.description, "");
}

#[test]
fn snapshot_new_and_details() {
    let s = Snapshot::new(1, "v1".to_string(), 4, None, 10, 2, 300, 0, "now".to_string());
    assert_eq!(s.id, 1);
    assert_eq!(s.files_count, 10);
    assert_eq!(s.dirs_count, 2);
    assert_eq!(s.files_size_bytes, 300);

    let d = SnapshotDetailsState::from_snapshot("v1", 4, None, 10, 2, 300, 0, "now");
    assert_eq!(d.name, "v1");
    assert_eq!(d.comment, "");
    assert_eq!(d.scanned_at, "now");
}

#[test]
fn aggregate_new_keeps_fields() {
    let a = SnapshotAggregate::new(
        9,
        1,
        "A1".to_string(),
        "core".to_string(),
        Some("d".to_string()),
        3,
        77,
        "t0".to_string(),
        "t1".to_string(),
    );
    assert_eq!(a.id, 9);
    assert_eq!(a.code, "A1");
    assert_eq!(a.file_count, 3);
    assert_eq!(a.total_size_bytes, 77);
}

#[test]
fn pickers_open() {
    let mut p = ProjectPickerState::default();
    p.search = "abc".to_string();
    p.selected_id = Some(3);
    p.status = "old".to_string();
    p.open();
    assert!(p.open);
    assert_eq!(p.selected_id, None);
    assert_eq!(p.status, "");
    assert_eq!(p.search, "abc");

    let mut s = SnapshotPickerState::default();
    s.open();
    assert!(s.open);
}

#[test]
fn list_states_open_their_picker() {
    let mut l = ListState::default();
    l.open_picker();
    assert!(l.snapshot_picker.open);

    let mut t = TreeViewState::default();
    t.open_picker();
    assert!(t.snapshot_picker.open);

    let mut a = navigator::snapshot_aggregate::ListState::default();
    a.open_picker();
    assert!(a.snapshot_picker.open);

    let mut sc = ScanSnapshotState::default();
    assert!(!sc.is_scanning);
    assert_eq!(sc.progress_files, 0);
    sc.open_picker();
    assert!(sc.snapshot_picker.open);

    let pl = ProjectsListState::default();
    assert!(!pl.show_create && !pl.show_edit && !pl.show_view);
    let sl = SnapshotsListState::default();
    assert!(sl.editing_id.is_none());
}

#[test]
fn toggle_sort_flips_direction() {
    let mut l = ListState::default();
    toggle_sort(&mut l, SortColumn::Size);
    assert_eq!(l.sort_column, Some(SortColumn::Size));
    assert_eq!(l.sort_direction, SortDirection::Ascending);
    toggle_sort(&mut l, SortColumn::Size);
    assert_eq!(l.sort_direction, SortDirection::Descending);
    toggle_sort(&mut l, SortColumn::Size);
    assert_eq!(l.sort_direction, SortDirection::Ascending);
    toggle_sort(&mut l, SortColumn::Name);
    assert_eq!(l.sort_column, Some(SortColumn::Name));
    assert_eq!(l.sort_direction, SortDirection::Ascending);

    let mut a = navigator::snapshot_aggregate::ListState::default();
    navigator::snapshot_aggregate::toggle_sort(
        &mut a,
        navigator::snapshot_aggregate::SortColumn::Code,
    );
    navigator::snapshot_aggregate::toggle_sort(
        &mut a,
        navigator::snapshot_aggregate::SortColumn::Code,
    );
    assert_eq!(a.sort_direction, navigator::snapshot_aggregate::SortDirection::Descending);
}

#[test]
fn scan_screen_transitions() {
    let mut s = ScanSnapshotState::default();
    assert!(!s.begin_scan());
    assert!(!s.is_scanning);
    assert_eq!(s.status, "");

    s.selected_snapshot_id = Some(9);
    s.progress_files = 5;
    assert!(s.begin_scan());
    assert!(s.is_scanning);
    assert_eq!(s.progress_files, 0);
    assert_eq!(s.status, "Starting scan...");

    s.record_progress(ScanProgress {
        files_scanned: 3,
        dirs_scanned: 1,
        current_path: "a/b".to_string(),
    });
    assert_eq!(s.progress_files, 3);
    assert_eq!(s.progress_dirs, 1);
    assert_eq!(s.progress_current, "a/b");

    s.finish_scan("Completed!".to_string());
    assert!(!s.is_scanning);
    assert_eq!(s.status, "Completed!");
    assert_eq!(s.progress_files, 3);
}

#[test]
fn menu_bar_actions() {
    let mut m = MenuBar::new();
    assert!(m.navbar_visible);
    assert!(m.file_action.is_none());
    m.file_action = Some(FileAction::Exit);
    m.settings_action = Some(SettingsAction::ZoomIn);
    m.navbar_visible = false;
    m.clear_actions();
    assert!(m.file_action.is_none());
    assert!(m.settings_action.is_none());
    assert!(!m.navbar_visible);
    let d = MenuBar::default();
    assert!(d.usecases_action.is_none());
}

#[test]
fn app_tab_titles() {
    assert_eq!(AppTab::Projects.title(), "Projects");
    assert_eq!(AppTab::Snapshots.title(), "Snapshots");
    assert_eq!(AppTab::SnapshotFiles.title(), "Snapshot Files");
    assert_eq!(AppTab::SnapshotAggregates.title(), "Snapshot Aggregates");
    assert_eq!(AppTab::ScanSnapshot.title(), "Scan Snapshot");
}

#[test]
fn theme_values() {
    let t = Theme::Light;
    assert_eq!(t, Theme::Light);
    assert_ne!(Theme::Dark, Theme::Light);
}
