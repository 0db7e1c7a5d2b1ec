use kryon::{signal, Signal};

#[test]
fn test_signal_basic() {
    let mut count = Signal::new(0);
    assert_eq!(count.get(), 0);

    count.set(5);
    assert_eq!(count.get(), 5);

    count.update(|c| *c += 10);
    assert_eq!(count.get(), 15);
}

#[test]
fn test_signal_clone() {
    let count1 = Signal::new(42);
    let count2 = count1.clone();

    assert_eq!(count1.get(), count2.get());

    assert_eq!(count1.get(), 42);
    assert_eq!(count2.get(), 42);
}

#[test]
fn test_signal_helper() {
    let count = signal(10);
    assert_eq!(count.get(), 10);
}

#[test]
fn test_signal_set_if_changed_reports_changes() {
    let mut count = Signal::new(0);
    assert!(count.set_if_changed(5));
    assert_eq!(count.get(), 5);
    assert!(!count.set_if_changed(5));
    assert_eq!(count.get(), 5);
    assert!(count.set_if_changed(10));
    assert_eq!(count.get(), 10);
}

#[test]
fn test_signal_derive_snapshot() {
    let mut count = Signal::new(5);
    let doubled = count.derive(|c| c * 2);
    assert_eq!(doubled.get(), 10);
}

#[test]
fn test_signal_map() {
    let count = Signal::new(21);
    let doubled = count.map(|c| c * 2);
    assert_eq!(doubled, 42);
}
