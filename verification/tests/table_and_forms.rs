use rustwebapp::api::Employee;
use rustwebapp::edit::{new_employee_template, EditForm};
use rustwebapp::table::{
    apply_update, fields_match, filter_rows, header_label, next_sort, remove_id, row_matches_query,
    sort_arrow, sort_rows, visible_rows, SortCol,
};
use rustwebapp::theme::{initial_dark, theme_name, toggle_label};

fn emp(id: i32, name: &str, department: &str, role: &str, salary: i32, active: bool) -> Employee {
    Employee {
        id,
        name: name.to_string(),
        department: department.to_string(),
        role: role.to_string(),
        salary,
        active,
    }
}

fn sample() -> Vec<Employee> {
    vec![
        emp(3, "Carol", "Engineering", "Backend Developer", 95000, true),
        emp(1, "Alice", "Design", "UX Lead", 88000, true),
        emp(4, "Dave", "Sales", "Account Manager", 70000, false),
        emp(2, "Bob", "Engineering", "Frontend Developer", 88000, true),
        emp(5, "Eve", "HR", "Recruiter", 60000, true),
    ]
}

fn ids(rows: &[Employee]) -> Vec<i32> {
    rows.iter().map(|e| e.id).collect()
}

#[test]
fn sort_by_id_ascending_and_descending() {
    let rows = sample();
    assert_eq!(ids(&visible_rows(&rows, "", SortCol::Id, true)), vec![1, 2, 3, 4, 5]);
    assert_eq!(ids(&visible_rows(&rows, "", SortCol::Id, false)), vec![5, 4, 3, 2, 1]);
}

#[test]
fn sort_by_name() {
    let rows = sample();
    assert_eq!(ids(&visible_rows(&rows, "", SortCol::Name, true)), vec![1, 2, 3, 4, 5]);
}

#[test]
fn sort_by_department_is_stable() {
    let rows = sample();
    // Carol (3) comes before Bob (2) in the loaded rows; both are in Engineering.
    assert_eq!(ids(&visible_rows(&rows, "", SortCol::Department, true)), vec![1, 3, 2, 5, 4]);
    // descending is the ascending order reversed
    assert_eq!(ids(&visible_rows(&rows, "", SortCol::Department, false)), vec![4, 5, 2, 3, 1]);
}

#[test]
fn sort_by_salary_is_stable() {
    let rows = sample();
    assert_eq!(ids(&visible_rows(&rows, "", SortCol::Salary, true)), vec![5, 4, 1, 2, 3]);
}

#[test]
fn sort_matches_std_stable_sort() {
    let rows = sample();
    let mut expected = rows.clone();
    expected.sort_by(|a, b| a.name.cmp(&b.name));
    assert_eq!(sort_rows(&rows, SortCol::Name), expected);
    let mut expected = rows.clone();
    expected.sort_by_key(|e| e.salary);
    assert_eq!(sort_rows(&rows, SortCol::Salary), expected);
    assert_eq!(sort_rows(&Vec::new(), SortCol::Id), Vec::<Employee>::new());
}

#[test]
fn filter_is_case_insensitive() {
    let rows = sample();
    // the filter text and the fields are both lower-cased
    assert_eq!(ids(&filter_rows(&rows, "ENG")), vec![3, 2]);
    assert_eq!(ids(&filter_rows(&rows, "developer")), vec![3, 2]);
    assert_eq!(ids(&filter_rows(&rows, "eve")), vec![3, 2, 5]);
    assert_eq!(ids(&filter_rows(&rows, "RECRUIT")), vec![5]);
    assert_eq!(ids(&filter_rows(&rows, "zzz")), Vec::<i32>::new());
}

#[test]
fn empty_filter_shows_every_row() {
    let rows = sample();
    assert_eq!(filter_rows(&rows, ""), rows);
    assert_eq!(visible_rows(&rows, "", SortCol::Id, true).len(), rows.len());
}

#[test]
fn filter_then_sort() {
    let rows = sample();
    assert_eq!(ids(&visible_rows(&rows, "e", SortCol::Salary, false)), vec![3, 2, 1, 4, 5]);
    assert_eq!(ids(&visible_rows(&rows, "Lead", SortCol::Id, true)), vec![1]);
}

#[test]
fn row_match_uses_name_department_role() {
    let e = emp(9, "Zoë", "Design", "Illustrator", 1, true);
    assert!(row_matches_query(&e, "zoë"));
    assert!(row_matches_query(&e, "design"));
    assert!(row_matches_query(&e, "illus"));
    assert!(row_matches_query(&e, ""));
    assert!(!row_matches_query(&e, "9"));
    assert!(!row_matches_query(&e, "Design"));
}

#[test]
fn fields_match_on_lowered_text() {
    assert!(fields_match("ann", "hr", "lead", "ea"));
    assert!(fields_match("ann", "hr", "lead", ""));
    assert!(!fields_match("ann", "hr", "lead", "x"));
}

#[test]
fn clicking_headers() {
    assert_eq!(next_sort(SortCol::Id, true, SortCol::Id), (SortCol::Id, false));
    assert_eq!(next_sort(SortCol::Id, false, SortCol::Id), (SortCol::Id, true));
    assert_eq!(next_sort(SortCol::Id, false, SortCol::Salary), (SortCol::Salary, true));
    let (c, a) = next_sort(SortCol::Name, true, SortCol::Name);
    assert_eq!(next_sort(c, a, SortCol::Name), (SortCol::Name, true));
}

#[test]
fn arrows_and_headers() {
    assert_eq!(sort_arrow(SortCol::Id, true, SortCol::Id), " ▲");
    assert_eq!(sort_arrow(SortCol::Id, false, SortCol::Id), " ▼");
    assert_eq!(sort_arrow(SortCol::Id, true, SortCol::Name), "");
    assert_eq!(header_label(SortCol::Salary, false, SortCol::Salary), "Salary ▼");
    assert_eq!(header_label(SortCol::Salary, false, SortCol::Department), "Department");
    assert_eq!(header_label(SortCol::Id, true, SortCol::Id), "ID ▲");
}

#[test]
fn update_replaces_first_row_with_id() {
    let mut rows = sample();
    let updated = emp(4, "David", "Sales", "Director", 99000, true);
    apply_update(&mut rows, updated.clone());
    assert_eq!(rows[2], updated);
    assert_eq!(rows.len(), 5);
    assert_eq!(rows[0], sample()[0]);
}

#[test]
fn update_only_first_duplicate() {
    let mut rows = vec![emp(1, "A", "HR", "x", 1, true), emp(1, "B", "HR", "y", 2, true)];
    apply_update(&mut rows, emp(1, "C", "HR", "z", 3, false));
    assert_eq!(rows[0].name, "C");
    assert_eq!(rows[1].name, "B");
}

#[test]
fn update_unknown_id_changes_nothing() {
    let mut rows = sample();
    apply_update(&mut rows, emp(42, "Nobody", "HR", "x", 1, true));
    assert_eq!(rows, sample());
}

#[test]
fn delete_removes_every_row_with_id() {
    let mut rows = sample();
    rows.push(emp(2, "Bob again", "HR", "x", 1, true));
    remove_id(&mut rows, 2);
    assert_eq!(ids(&rows), vec![3, 1, 4, 5]);
    remove_id(&mut rows, 77);
    assert_eq!(ids(&rows), vec![3, 1, 4, 5]);
}

#[test]
fn edit_form_load_and_save_unchanged() {
    let e = emp(7, "Gus", "Design", "Painter", 5100, false);
    let f = EditForm::load(&e);
    assert_eq!(f.to_employee(e.id), e);
}

#[test]
fn edit_form_keeps_id_of_opened_employee() {
    let e = emp(7, "Gus", "Design", "Painter", 5100, false);
    let mut f = EditForm::load(&e);
    f.name = "Gustav".to_string();
    let saved = f.to_employee(e.id);
    assert_eq!(saved.id, 7);
    assert_eq!(saved.name, "Gustav");
}

#[test]
fn salary_input_parses_or_is_ignored() {
    let mut f = EditForm::blank();
    assert_eq!(f.salary, 0);
    assert!(f.active);
    f.set_salary_input("5200");
    assert_eq!(f.salary, 5200);
    f.set_salary_input("52a");
    assert_eq!(f.salary, 5200);
    f.set_salary_input("");
    assert_eq!(f.salary, 5200);
    f.set_salary_input("-3");
    assert_eq!(f.salary, -3);
    f.set_salary_input("3000000000");
    assert_eq!(f.salary, -3);
}

#[test]
fn salary_field_text_reads_back() {
    let mut f = EditForm::blank();
    f.salary = 123456;
    let shown = f.salary.to_string();
    f.set_salary_input(&shown);
    assert_eq!(f.salary, 123456);
}

#[test]
fn new_employee_defaults() {
    let e = new_employee_template();
    assert_eq!(e, emp(0, "", "Engineering", "", 0, true));
}

#[test]
fn theme_is_remembered() {
    assert!(initial_dark(Some(theme_name(true).to_string())));
    assert!(!initial_dark(Some(theme_name(false).to_string())));
    assert!(!initial_dark(None));
    assert!(!initial_dark(Some("Dark".to_string())));
    assert_eq!(theme_name(true), "dark");
    assert_eq!(theme_name(false), "light");
}

#[test]
fn theme_button_offers_the_other_theme() {
    assert_eq!(toggle_label(true), "☀ Day");
    assert_eq!(toggle_label(false), "🌙 Night");
}
