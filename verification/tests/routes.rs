use rusty_counter::counter::{Counter, ReadOutcome};
use rusty_counter::routes::{decrement, get_value, increment};

#[test]
fn test_get_value_reports_current_value() {
    let mut counter = Counter::new("data.bin", "backup.bin");
    counter.adopt_primary(&ReadOutcome::Content(b"9".to_vec()));
    let response = get_value(&counter);
    assert_eq!(response.value, 9);
    // Reading has no side effect.
    assert_eq!(counter.get(), 9);
}

#[test]
fn test_increment_endpoint_returns_new_value() {
    let mut counter = Counter::new("data.bin", "backup.bin");
    let response = increment(&mut counter);
    assert_eq!(response.value, 1);
    assert_eq!(counter.get(), 1);
}

#[test]
fn test_decrement_endpoint_returns_new_value() {
    let mut counter = Counter::new("data.bin", "backup.bin");
    let response = decrement(&mut counter);
    assert_eq!(response.value, -1);
    assert_eq!(counter.get(), -1);
}

#[test]
fn test_endpoint_round_trip() {
    let mut counter = Counter::new("data.bin", "backup.bin");
    counter.adopt_primary(&ReadOutcome::Content(b"41".to_vec()));
    let up = increment(&mut counter);
    assert_eq!(up.value, 42);
    let down = decrement(&mut counter);
    assert_eq!(down.value, 41);
    assert_eq!(get_value(&counter).value, 41);
}
