//! The project aggregate: a named root directory on disk, and the interface
//! state used to list, edit, and pick projects.

use vstd::prelude::*;
use vstd::string::StringExecFns;

verus! {

/// A project: an identified root path with a name and a description.
pub struct Project {
    pub id: i64,
    pub root_path: String,
    pub name: String,
    pub description: Option<String>,
}

impl Project {
    /// Builds a project holding exactly the given fields.
    pub fn new(id: i64, root_path: String, name: String, description: Option<String>) -> (r:
        Project)
        ensures
            r.id == id,
            r.root_path == root_path,
            r.name == name,
            r.description == description,
    {
        Project { id, root_path, name, description }
    }
}

/// The form state for one project's fields.
pub struct ProjectDetailsState {
    pub name: String,
    pub root_path: String,
    pub description: String,
}

impl ProjectDetailsState {
    /// Fills the form from field values; a missing description becomes the
    /// empty string.
    pub fn from_values(name: &str, root_path: &str, description: Option<&str>) -> (r:
        ProjectDetailsState)
        ensures
            r.name@ == name@,
            r.root_path@ == root_path@,
            r.description@ == match description {
                Some(d) => d@,
                None => Seq::<char>::empty(),
            },
    {
        let description_text = match description {
            Some(d) => String::from_str(d),
            None => String::new(),
        };
        ProjectDetailsState {
            name: String::from_str(name),
            root_path: String::from_str(root_path),
            description: description_text,
        }
    }
}

impl Default for ProjectDetailsState {
    /// An empty form.
    fn default() -> (r: ProjectDetailsState)
        ensures
            r.name@ == Seq::<char>::empty(),
            r.root_path@ == Seq::<char>::empty(),
            r.description@ == Seq::<char>::empty(),
    {
        ProjectDetailsState {
            name: String::new(),
            root_path: String::new(),
            description: String::new(),
        }
    }
}

/// The state of the projects list screen: which modal is open, which row is
/// being edited, and the three detail forms.
pub struct ProjectsListState {
    pub show_create: bool,
    pub show_edit: bool,
    pub show_view: bool,
    pub editing_id: Option<i64>,
    pub create_details: ProjectDetailsState,
    pub edit_details: ProjectDetailsState,
    pub view_details: ProjectDetailsState,
    pub status: String,
}

impl Default for ProjectsListState {
    /// No modal open, nothing being edited, empty forms.
    fn default() -> (r: ProjectsListState)
        ensures
            !r.show_create,
            !r.show_edit,
            !r.show_view,
            r.editing_id is None,
            r.status@ == Seq::<char>::empty(),
    {
        ProjectsListState {
            show_create: false,
            show_edit: false,
            show_view: false,
            editing_id: None,
            create_details: Default::default(),
            edit_details: Default::default(),
            view_details: Default::default(),
            status: String::new(),
        }
    }
}

/// The state of the modal project picker.
pub struct ProjectPickerState {
    pub open: bool,
    pub search: String,
    pub selected_id: Option<i64>,
    pub status: String,
}

impl ProjectPickerState {
    /// Opens the picker with no selection and a cleared status; the search
    /// text is kept.
    pub fn open(&mut self)
        ensures
            final(self).open,
            final(self).selected_id is None,
            final(self).status@ == Seq::<char>::empty(),
            final(self).search == old(self).search,
    {
        self.open = true;
        self.selected_id = None;
        self.status = String::new();
    }
}

impl Default for ProjectPickerState {
    /// A closed picker with nothing selected.
    fn default() -> (r: ProjectPickerState)
        ensures
            !r.open,
            r.search@ == Seq::<char>::empty(),
            r.selected_id is None,
            r.status@ == Seq::<char>::empty(),
    {
        ProjectPickerState {
            open: false,
            search: String::new(),
            selected_id: None,
            status: String::new(),
        }
    }
}

} // verus!
