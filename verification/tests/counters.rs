use rustwebapp::api::CounterState;
use rustwebapp::counter::{local_increment, CounterPage, ServerCounter};

#[test]
fn server_counter_starts_at_zero() {
    let c = ServerCounter::new();
    assert_eq!(c.value(), 0);
    let r = c.get();
    assert!(r.ok);
    assert_eq!(r.error, None);
    assert_eq!(r.data, Some(CounterState { value: 0, label: "Server counter".to_string() }));
}

#[test]
fn increment_replies_new_value() {
    let mut c = ServerCounter::new();
    let r = c.increment();
    assert_eq!(c.value(), 1);
    assert_eq!(r.data.unwrap().value, 1);
    let r = c.increment();
    assert_eq!(r.data.unwrap().value, 2);
}

#[test]
fn decrement_goes_below_zero() {
    let mut c = ServerCounter::new();
    let r = c.decrement();
    assert_eq!(c.value(), -1);
    let s = r.data.unwrap();
    assert_eq!(s.value, -1);
    assert_eq!(s.label, "Server counter");
}

#[test]
fn increment_then_decrement_restores() {
    let mut c = ServerCounter::new();
    c.increment();
    c.increment();
    c.decrement();
    c.decrement();
    assert_eq!(c.value(), 0);
    c.decrement();
    c.increment();
    assert_eq!(c.value(), 0);
}

#[test]
fn get_does_not_change_the_counter() {
    let mut c = ServerCounter::new();
    c.increment();
    let a = c.get();
    let b = c.get();
    assert_eq!(a.data, b.data);
    assert_eq!(c.value(), 1);
}

#[test]
fn counter_page_loading_until_state() {
    let mut p = CounterPage::new();
    assert!(p.is_loading());
    p.receive(Err("offline".to_string()));
    assert!(p.is_loading());
    assert_eq!(p.error.as_deref(), Some("offline"));
    p.receive(Ok(CounterState { value: 5, label: "Server counter".to_string() }));
    assert!(!p.is_loading());
    assert_eq!(p.state.as_ref().unwrap().value, 5);
    // the earlier error stays shown
    assert_eq!(p.error.as_deref(), Some("offline"));
}

#[test]
fn local_counter_counts_up() {
    assert_eq!(local_increment(0), 1);
    assert_eq!(local_increment(-1), 0);
    assert_eq!(local_increment(i32::MAX - 1), i32::MAX);
}
