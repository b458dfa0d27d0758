use flight_controller::sync::{Mutex, OnceLock};

#[test]
fn lock_hands_out_the_protected_value() {
    let mut m = Mutex::new(5u32);
    let guard = m.lock().unwrap();
    assert_eq!(guard.value, 5);
    m.unlock(guard);
    let again = m.lock().unwrap();
    assert_eq!(again.value, 5);
    m.unlock(again);
}

#[test]
fn second_acquisition_while_held_yields_no_guard() {
    // The bounded probe for a held lock: while the first guard is out,
    // try_lock must come back empty instead of handing out a second
    // guard (a second blocking lock would spin forever on hardware).
    let mut m = Mutex::new(7u32);
    let guard = m.lock().unwrap();
    assert!(m.try_lock().is_none());
    assert!(m.try_lock().is_none());
    m.unlock(guard);
    let reacquired = m.try_lock();
    assert!(reacquired.is_some());
    m.unlock(reacquired.unwrap());
}

#[test]
fn writes_under_the_lock_are_published_on_release() {
    let mut m = Mutex::new(vec![1, 2]);
    let mut guard = m.lock().unwrap();
    guard.value.push(3);
    m.unlock(guard);
    let guard = m.lock().unwrap();
    assert_eq!(guard.value, vec![1, 2, 3]);
    m.unlock(guard);
}

#[test]
fn once_set_succeeds_exactly_once() {
    let mut cell = OnceLock::new();
    assert!(cell.get().is_none());
    assert_eq!(cell.set(41), Some(()));
    assert_eq!(cell.set(42), None);
    assert_eq!(cell.set(43), None);
    assert_eq!(cell.get(), Some(&41));
}

#[test]
fn once_keeps_the_first_value_through_many_writers() {
    let mut cell = OnceLock::new();
    let mut winners: u32 = 0;
    for i in 0..10 {
        if cell.set(i).is_some() {
            winners += 1;
        }
    }
    assert_eq!(winners, 1);
    assert_eq!(cell.get(), Some(&0));
}

#[test]
fn once_get_never_blocks_on_an_empty_cell() {
    let cell: OnceLock<String> = OnceLock::new();
    assert!(cell.get().is_none());
    assert!(cell.get().is_none());
}
