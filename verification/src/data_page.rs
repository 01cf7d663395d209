//! The state of the employee data page and how each user action or server
//! reply changes it, with the request to send to the server.

use vstd::prelude::*;
use crate::api::Employee;
use crate::table::{apply_update, first_with_id, id_differs, remove_id};

verus! {

/// What happens on the data page: a user action or the outcome of a request.
pub enum DataEvent {
    /// The outcome of loading the rows.
    Loaded(Result<Vec<Employee>, String>),
    /// The edit dialog is opened for an employee.
    OpenEdit(Employee),
    /// The edit dialog is closed without saving.
    CloseEdit,
    /// The edit dialog saves an employee.
    Save(Employee),
    /// The add dialog is opened.
    OpenAdd,
    /// The add dialog is closed without saving.
    CloseAdd,
    /// The add dialog saves a new employee.
    AddSave(Employee),
    /// The outcome of creating an employee: the row the server stored.
    Created(Result<Employee, String>),
    /// The delete button of a row asks for confirmation.
    AskDelete(Employee),
    /// The deletion is cancelled.
    CancelDelete,
    /// The deletion is confirmed.
    ConfirmDelete,
}

/// What the page asks the server to do after an event.
pub enum DataRequest {
    Nothing,
    SaveEmployee(Employee),
    CreateEmployee(Employee),
    DeleteEmployee(i32),
}

/// The state of the data page.
pub struct DataPage {
    /// The loaded rows, as edited in the page.
    pub rows: Vec<Employee>,
    /// The rows are still being loaded.
    pub loading: bool,
    /// The message of a failed load.
    pub fetch_error: Option<String>,
    /// The employee open in the edit dialog.
    pub editing: Option<Employee>,
    /// The add dialog is open.
    pub adding: bool,
    /// The employee whose deletion awaits confirmation.
    pub confirm_delete: Option<Employee>,
}

/// The dialogs of `a` and `b` are in the same state.
pub open spec fn dialogs_same(a: &DataPage, b: &DataPage) -> bool {
    &&& a.editing == b.editing
    &&& a.adding == b.adding
    &&& a.confirm_delete == b.confirm_delete
}

/// The loading state of `a` and `b` is the same.
pub open spec fn load_same(a: &DataPage, b: &DataPage) -> bool {
    a.loading == b.loading && a.fetch_error == b.fetch_error
}

/// `new` is `old` with its rows updated by `updated`, as `apply_update` does:
/// the first row with its id replaced, or no change without such a row.
pub open spec fn rows_updated(old: Seq<Employee>, new: Seq<Employee>, updated: Employee) -> bool {
    &&& forall|k: int| first_with_id(old, updated.id, k) ==> new == old.update(k, updated)
    &&& (forall|k: int| 0 <= k < old.len() ==> (#[trigger] old[k]).id != updated.id) ==> new == old
}

impl DataPage {
    /// The page as it opens: no rows yet, loading, no dialog open.
    pub fn new() -> (p: Self)
        ensures
            p.rows@.len() == 0,
            p.loading,
            p.fetch_error is None,
            p.editing is None,
            !p.adding,
            p.confirm_delete is None,
    {
        DataPage {
            rows: Vec::new(),
            loading: true,
            fetch_error: None,
            editing: None,
            adding: false,
            confirm_delete: None,
        }
    }

    /// Applies an event to the page and returns the request it calls for.
    pub fn step(&mut self, event: DataEvent) -> (req: DataRequest)
        ensures
            match event {
                DataEvent::Loaded(Ok(data)) => {
                    &&& final(self).rows@ == data@
                    &&& !final(self).loading
                    &&& final(self).fetch_error == old(self).fetch_error
                    &&& dialogs_same(final(self), old(self))
                    &&& req is Nothing
                },
                DataEvent::Loaded(Err(e)) => {
                    &&& final(self).rows@ == old(self).rows@
                    &&& !final(self).loading
                    &&& final(self).fetch_error == Some(e)
                    &&& dialogs_same(final(self), old(self))
                    &&& req is Nothing
                },
                DataEvent::OpenEdit(e) => {
                    &&& final(self).rows@ == old(self).rows@
                    &&& load_same(final(self), old(self))
                    &&& final(self).editing == Some(e)
                    &&& final(self).adding == old(self).adding
                    &&& final(self).confirm_delete == old(self).confirm_delete
                    &&& req is Nothing
                },
                DataEvent::CloseEdit => {
                    &&& final(self).rows@ == old(self).rows@
                    &&& load_same(final(self), old(self))
                    &&& final(self).editing is None
                    &&& final(self).adding == old(self).adding
                    &&& final(self).confirm_delete == old(self).confirm_delete
                    &&& req is Nothing
                },
                DataEvent::Save(updated) => {
                    &&& rows_updated(old(self).rows@, final(self).rows@, updated)
                    &&& load_same(final(self), old(self))
                    &&& final(self).editing is None
                    &&& final(self).adding == old(self).adding
                    &&& final(self).confirm_delete == old(self).confirm_delete
                    &&& req == DataRequest::SaveEmployee(updated)
                },
                DataEvent::OpenAdd => {
                    &&& final(self).rows@ == old(self).rows@
                    &&& load_same(final(self), old(self))
                    &&& final(self).editing == old(self).editing
                    &&& final(self).adding
                    &&& final(self).confirm_delete == old(self).confirm_delete
                    &&& req is Nothing
                },
                DataEvent::CloseAdd => {
                    &&& final(self).rows@ == old(self).rows@
                    &&& load_same(final(self), old(self))
                    &&& final(self).editing == old(self).editing
                    &&& !final(self).adding
                    &&& final(self).confirm_delete == old(self).confirm_delete
                    &&& req is Nothing
                },
                DataEvent::AddSave(new_emp) => {
                    &&& final(self).rows@ == old(self).rows@
                    &&& load_same(final(self), old(self))
                    &&& final(self).editing == old(self).editing
                    &&& !final(self).adding
                    &&& final(self).confirm_delete == old(self).confirm_delete
                    &&& req == DataRequest::CreateEmployee(new_emp)
                },
                DataEvent::Created(Ok(created)) => {
                    &&& final(self).rows@ == old(self).rows@.push(created)
                    &&& load_same(final(self), old(self))
                    &&& dialogs_same(final(self), old(self))
                    &&& req is Nothing
                },
                DataEvent::Created(Err(_)) => {
                    &&& final(self).rows@ == old(self).rows@
                    &&& load_same(final(self), old(self))
                    &&& dialogs_same(final(self), old(self))
                    &&& req is Nothing
                },
                DataEvent::AskDelete(e) => {
                    &&& final(self).rows@ == old(self).rows@
                    &&& load_same(final(self), old(self))
                    &&& final(self).editing == old(self).editing
                    &&& final(self).adding == old(self).adding
                    &&& final(self).confirm_delete == Some(e)
                    &&& req is Nothing
                },
                DataEvent::CancelDelete => {
                    &&& final(self).rows@ == old(self).rows@
                    &&& load_same(final(self), old(self))
                    &&& final(self).editing == old(self).editing
                    &&& final(self).adding == old(self).adding
                    &&& final(self).confirm_delete is None
                    &&& req is Nothing
                },
                DataEvent::ConfirmDelete => match old(self).confirm_delete {
                    Some(emp) => {
                        &&& final(self).rows@ == old(self).rows@.filter(id_differs(emp.id))
                        &&& load_same(final(self), old(self))
                        &&& final(self).editing == old(self).editing
                        &&& final(self).adding == old(self).adding
                        &&& final(self).confirm_delete is None
                        &&& req == DataRequest::DeleteEmployee(emp.id)
                    },
                    None => {
                        &&& final(self).rows@ == old(self).rows@
                        &&& load_same(final(self), old(self))
                        &&& dialogs_same(final(self), old(self))
                        &&& req is Nothing
                    },
                },
            },
    {
        match event {
            DataEvent::Loaded(Ok(data)) => {
                self.rows = data;
                self.loading = false;
                DataRequest::Nothing
            },
            DataEvent::Loaded(Err(e)) => {
                self.fetch_error = Some(e);
                self.loading = false;
                DataRequest::Nothing
            },
            DataEvent::OpenEdit(e) => {
                self.editing = Some(e);
                DataRequest::Nothing
            },
            DataEvent::CloseEdit => {
                self.editing = None;
                DataRequest::Nothing
            },
            DataEvent::Save(updated) => {
                apply_update(&mut self.rows, updated.clone());
                self.editing = None;
                DataRequest::SaveEmployee(updated)
            },
            DataEvent::OpenAdd => {
                self.adding = true;
                DataRequest::Nothing
            },
            DataEvent::CloseAdd => {
                self.adding = false;
                DataRequest::Nothing
            },
            DataEvent::AddSave(new_emp) => {
                self.adding = false;
                DataRequest::CreateEmployee(new_emp)
            },
            DataEvent::Created(Ok(created)) => {
                self.rows.push(created);
                DataRequest::Nothing
            },
            DataEvent::Created(Err(_)) => DataRequest::Nothing,
            DataEvent::AskDelete(e) => {
                self.confirm_delete = Some(e);
                DataRequest::Nothing
            },
            DataEvent::CancelDelete => {
                self.confirm_delete = None;
                DataRequest::Nothing
            },
            DataEvent::ConfirmDelete => {
                match self.confirm_delete.take() {
                    Some(emp) => {
                        let id = emp.id;
                        remove_id(&mut self.rows, id);
                        DataRequest::DeleteEmployee(id)
                    },
                    None => DataRequest::Nothing,
                }
            },
        }
    }
}


/// Dialogs in the same state have the same employee in the edit dialog, the
/// same add dialog, and the same deletion waiting for confirmation; the same
/// loading state has the same flag and message.
pub proof fn lemma_same_state_meaning(a: &DataPage, b: &DataPage)
    ensures
        dialogs_same(a, b) <==> (a.editing == b.editing && a.adding == b.adding
            && a.confirm_delete == b.confirm_delete),
        load_same(a, b) <==> (a.loading == b.loading && a.fetch_error == b.fetch_error),
{
}

/// A save replaces the first row with the edited employee's id by that
/// employee, and leaves every other row and the number of rows as they were;
/// without such a row nothing changes.
pub proof fn lemma_rows_updated_meaning(old: Seq<Employee>, new: Seq<Employee>, updated: Employee)
    requires
        rows_updated(old, new, updated),
    ensures
        forall|k: int|
            0 <= k < old.len() && (#[trigger] old[k]).id == updated.id
                && (forall|j: int| 0 <= j < k ==> old[j].id != updated.id)
                ==> new.len() == old.len() && new[k] == updated
                    && (forall|j: int| 0 <= j < old.len() && j != k ==> new[j] == old[j]),
        (forall|k: int| 0 <= k < old.len() ==> (#[trigger] old[k]).id != updated.id) ==> new == old,
{
    assert forall|k: int|
        0 <= k < old.len() && (#[trigger] old[k]).id == updated.id
            && (forall|j: int| 0 <= j < k ==> old[j].id != updated.id)
        implies new.len() == old.len() && new[k] == updated
            && (forall|j: int| 0 <= j < old.len() && j != k ==> new[j] == old[j]) by {
        assert(first_with_id(old, updated.id, k));
        assert(new == old.update(k, updated));
        assert forall|j: int| 0 <= j < old.len() && j != k implies new[j] == old[j] by {
            assert(old.update(k, updated)[j] == old[j]);
        }
    }
}

} // verus!
