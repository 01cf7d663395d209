//! The form of the dialog that edits or adds an employee.

use vstd::prelude::*;
use crate::api::Employee;
use crate::text::{decimal, lemma_parse_decimal_roundtrip, parse_i32, parsed_i32};

verus! {

broadcast use vstd::string::group_string_axioms;

/// The values being edited in the dialog.
#[derive(Debug)]
pub struct EditForm {
    pub name: String,
    pub department: String,
    pub role: String,
    pub salary: i32,
    pub active: bool,
}

/// The salary after the salary field reads `text`: its value when it is a
/// well-formed `i32`, else the salary unchanged.
pub open spec fn salary_after_input(current: i32, text: Seq<char>) -> i32 {
    match parsed_i32(text) {
        Some(v) => v,
        None => current,
    }
}

/// The employee a form describes, under the id `id`.
pub open spec fn form_employee(f: EditForm, id: i32) -> Employee {
    Employee {
        id: id,
        name: f.name,
        department: f.department,
        role: f.role,
        salary: f.salary,
        active: f.active,
    }
}

impl EditForm {
    /// The form before any employee is loaded: empty texts, no salary, active.
    pub fn blank() -> (f: Self)
        ensures
            f.name@.len() == 0,
            f.department@.len() == 0,
            f.role@.len() == 0,
            f.salary == 0,
            f.active,
    {
        EditForm {
            name: String::new(),
            department: String::new(),
            role: String::new(),
            salary: 0,
            active: true,
        }
    }

    /// The form filled with the fields of `e`.
    pub fn load(e: &Employee) -> (f: Self)
        ensures
            form_employee(f, e.id) == *e,
    {
        EditForm {
            name: e.name.clone(),
            department: e.department.clone(),
            role: e.role.clone(),
            salary: e.salary,
            active: e.active,
        }
    }

    /// Takes the text of the salary field: a well-formed `i32` becomes the
    /// salary, anything else is ignored.
    pub fn set_salary_input(&mut self, text: &str)
        ensures
            final(self).salary == salary_after_input(old(self).salary, text@),
            parsed_i32(text@) matches Some(v) ==> final(self).salary == v,
            parsed_i32(text@) is None ==> final(self).salary == old(self).salary,
            final(self).name == old(self).name,
            final(self).department == old(self).department,
            final(self).role == old(self).role,
            final(self).active == old(self).active,
    {
        match parse_i32(text) {
            Some(v) => self.salary = v,
            None => {},
        }
    }

    /// The employee saved from the form: the edited fields under the id of
    /// the employee that was opened.
    pub fn to_employee(&self, id: i32) -> (e: Employee)
        ensures
            e == form_employee(*self, id),
    {
        Employee {
            id: id,
            name: self.name.clone(),
            department: self.department.clone(),
            role: self.role.clone(),
            salary: self.salary,
            active: self.active,
        }
    }
}

/// The employee the add dialog starts from: no id yet, empty name and role,
/// the Engineering department, no salary, active.
pub fn new_employee_template() -> (e: Employee)
    ensures
        e.id == 0,
        e.name@.len() == 0,
        e.department@ == "Engineering"@,
        e.role@.len() == 0,
        e.salary == 0,
        e.active,
{
    Employee {
        id: 0,
        name: String::new(),
        department: String::from_str("Engineering"),
        role: String::new(),
        salary: 0,
        active: true,
    }
}

/// The salary field takes any well-formed `i32`, negative ones included,
/// and ignores every other text.
pub proof fn lemma_salary_input_meaning(current: i32, text: Seq<char>)
    ensures
        parsed_i32(text) matches Some(v) ==> salary_after_input(current, text) == v,
        parsed_i32(text) is None ==> salary_after_input(current, text) == current,
{
}

/// The salary field shows the salary as decimal text; reading that text
/// back leaves the salary as it was.
pub proof fn lemma_salary_field_roundtrip(salary: i32)
    ensures
        salary_after_input(salary, decimal(salary as int)) == salary,
{
    lemma_parse_decimal_roundtrip(salary);
}


/// The employee a form describes has the form's fields under the same names,
/// and the id it is saved under.
pub proof fn lemma_form_employee_fields(f: EditForm, id: i32)
    ensures
        form_employee(f, id).id == id,
        form_employee(f, id).name == f.name,
        form_employee(f, id).department == f.department,
        form_employee(f, id).role == f.role,
        form_employee(f, id).salary == f.salary,
        form_employee(f, id).active == f.active,
{
}

} // verus!
