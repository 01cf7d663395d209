use rustwebapp::api::{ApiResponse, CounterState, Employee};

fn emp(id: i32, name: &str, department: &str, role: &str, salary: i32, active: bool) -> Employee {
    Employee {
        id,
        name: name.to_string(),
        department: department.to_string(),
        role: role.to_string(),
        salary,
        active,
    }
}

#[test]
fn success_carries_data() {
    let r = ApiResponse::success(7);
    assert!(r.ok);
    assert_eq!(r.data, Some(7));
    assert_eq!(r.error, None);
}

#[test]
fn error_carries_message() {
    let r: ApiResponse<i32> = ApiResponse::error("boom".to_string());
    assert!(!r.ok);
    assert_eq!(r.data, None);
    assert_eq!(r.error.as_deref(), Some("boom"));
}

#[test]
fn reply_roundtrip_success() {
    let e = emp(1, "Ann", "HR", "Lead", 1000, true);
    let r = ApiResponse::from_result(Ok(e.clone()));
    assert_eq!(r.into_data(), Ok(e));
}

#[test]
fn reply_roundtrip_error() {
    let r: ApiResponse<Vec<Employee>> = ApiResponse::from_result(Err("db down".to_string()));
    assert_eq!(r.into_data(), Err("db down".to_string()));
}

#[test]
fn status_reply_echoes_value_on_success() {
    let e = emp(3, "Bo", "Sales", "Rep", 20, false);
    let r = ApiResponse::from_status(e.clone(), Ok::<u64, String>(1));
    assert!(r.ok);
    assert_eq!(r.clone().into_status(), Ok(()));
    assert_eq!(r.into_data(), Ok(e));
}

#[test]
fn status_reply_error() {
    let r: ApiResponse<()> = ApiResponse::from_status((), Err::<u64, String>("no row".to_string()));
    assert_eq!(r.into_status(), Err("no row".to_string()));
}

#[test]
fn missing_message_reads_as_empty() {
    let r: ApiResponse<i32> = ApiResponse { ok: false, data: None, error: None };
    assert_eq!(r.clone().into_data(), Err(String::new()));
    assert_eq!(r.into_status(), Err(String::new()));
}

#[test]
fn data_wins_over_ok_flag() {
    let r: ApiResponse<i32> = ApiResponse { ok: false, data: Some(4), error: Some("x".to_string()) };
    assert_eq!(r.into_data(), Ok(4));
}

#[test]
fn ok_flag_decides_status() {
    let r: ApiResponse<i32> = ApiResponse { ok: true, data: None, error: Some("x".to_string()) };
    assert_eq!(r.into_status(), Ok(()));
}

#[test]
fn counter_state_equality() {
    let a = CounterState { value: 1, label: "x".to_string() };
    let b = a.clone();
    assert_eq!(a, b);
    assert_ne!(a, CounterState { value: 2, label: "x".to_string() });
}

#[test]
fn employee_equality_compares_every_field() {
    let a = emp(1, "Ann", "HR", "Lead", 1000, true);
    assert_eq!(a, a.clone());
    let mut b = a.clone();
    b.active = false;
    assert_ne!(a, b);
    let mut c = a.clone();
    c.role = "Other".to_string();
    assert_ne!(a, c);
}
