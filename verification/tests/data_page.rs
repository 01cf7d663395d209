use rustwebapp::api::Employee;
use rustwebapp::data_page::{DataEvent, DataPage, DataRequest};
use rustwebapp::table::{filter_rows, visible_rows, SortCol};

fn emp(id: i32, name: &str, department: &str, salary: i32) -> Employee {
    Employee {
        id,
        name: name.to_string(),
        department: department.to_string(),
        role: "Staff".to_string(),
        salary,
        active: true,
    }
}

fn loaded() -> DataPage {
    let mut p = DataPage::new();
    let req = p.step(DataEvent::Loaded(Ok(vec![emp(1, "Ann", "HR", 10), emp(2, "Bob", "Sales", 20)])));
    assert!(matches!(req, DataRequest::Nothing));
    p
}

#[test]
fn page_starts_loading_and_empty() {
    let p = DataPage::new();
    assert!(p.loading);
    assert!(p.rows.is_empty());
    assert!(p.fetch_error.is_none() && p.editing.is_none() && !p.adding && p.confirm_delete.is_none());
}

#[test]
fn load_success_and_failure() {
    let p = loaded();
    assert!(!p.loading);
    assert_eq!(p.rows.len(), 2);
    let mut q = DataPage::new();
    q.step(DataEvent::Loaded(Err("db down".to_string())));
    assert!(!q.loading);
    assert_eq!(q.fetch_error.as_deref(), Some("db down"));
    assert!(q.rows.is_empty());
}

#[test]
fn save_updates_row_closes_dialog_and_asks_server() {
    let mut p = loaded();
    p.step(DataEvent::OpenEdit(p.rows[1].clone()));
    assert_eq!(p.editing.as_ref().map(|e| e.id), Some(2));
    let updated = emp(2, "Bobby", "Sales", 25);
    let req = p.step(DataEvent::Save(updated.clone()));
    assert!(p.editing.is_none());
    assert_eq!(p.rows[1], updated);
    match req {
        DataRequest::SaveEmployee(e) => assert_eq!(e, updated),
        _ => panic!("expected a save request"),
    }
}

#[test]
fn close_edit_changes_nothing_else() {
    let mut p = loaded();
    p.step(DataEvent::OpenEdit(p.rows[0].clone()));
    let req = p.step(DataEvent::CloseEdit);
    assert!(matches!(req, DataRequest::Nothing));
    assert!(p.editing.is_none());
    assert_eq!(p.rows.len(), 2);
}

#[test]
fn add_asks_server_and_appends_created_row() {
    let mut p = loaded();
    p.step(DataEvent::OpenAdd);
    assert!(p.adding);
    let new_emp = emp(0, "Cy", "Design", 30);
    let req = p.step(DataEvent::AddSave(new_emp.clone()));
    assert!(!p.adding);
    assert_eq!(p.rows.len(), 2);
    match req {
        DataRequest::CreateEmployee(e) => assert_eq!(e, new_emp),
        _ => panic!("expected a create request"),
    }
    p.step(DataEvent::Created(Ok(emp(3, "Cy", "Design", 30))));
    assert_eq!(p.rows.len(), 3);
    assert_eq!(p.rows[2].id, 3);
    p.step(DataEvent::Created(Err("refused".to_string())));
    assert_eq!(p.rows.len(), 3);
}

#[test]
fn cancel_add_closes_dialog() {
    let mut p = loaded();
    p.step(DataEvent::OpenAdd);
    p.step(DataEvent::CloseAdd);
    assert!(!p.adding);
}

#[test]
fn delete_only_after_confirmation() {
    let mut p = loaded();
    let req = p.step(DataEvent::ConfirmDelete);
    assert!(matches!(req, DataRequest::Nothing));
    assert_eq!(p.rows.len(), 2);
    p.step(DataEvent::AskDelete(p.rows[0].clone()));
    p.step(DataEvent::CancelDelete);
    assert!(p.confirm_delete.is_none());
    assert_eq!(p.rows.len(), 2);
    p.step(DataEvent::AskDelete(p.rows[0].clone()));
    let req = p.step(DataEvent::ConfirmDelete);
    assert!(matches!(req, DataRequest::DeleteEmployee(1)));
    assert!(p.confirm_delete.is_none());
    assert_eq!(p.rows.iter().map(|e| e.id).collect::<Vec<_>>(), vec![2]);
}

#[test]
fn empty_search_shows_every_row() {
    let p = loaded();
    assert_eq!(filter_rows(&p.rows, ""), p.rows);
    assert_eq!(visible_rows(&p.rows, "", SortCol::Name, false).len(), 2);
}

#[test]
fn narrower_search_keeps_fewer_rows() {
    let rows = vec![emp(1, "Ann", "HR", 10), emp(2, "Annabel", "Sales", 20), emp(3, "Bob", "Hanna", 5)];
    let wide = filter_rows(&rows, "an");
    let narrow = filter_rows(&rows, "ANNA");
    assert_eq!(wide.len(), 3);
    assert_eq!(narrow.iter().map(|e| e.id).collect::<Vec<_>>(), vec![2, 3]);
    assert!(narrow.iter().all(|e| wide.contains(e)));
}
