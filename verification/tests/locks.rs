use link_session::sync;
use std::sync::{Arc, Mutex, RwLock};

/// Runs a task that panics.
fn run_to_panic(task: impl FnOnce() + Send + 'static) {
    let runtime = tokio::runtime::Builder::new_current_thread().build().unwrap();
    let outcome = runtime.block_on(runtime.spawn(async move { task() }));
    assert!(outcome.is_err());
}

#[test]
fn lock_gives_access() {
    let mutex = Mutex::new(3);
    *sync::lock(&mutex) += 4;
    assert_eq!(*sync::lock(&mutex), 7);
}

#[test]
fn lock_takes_unsized_contents() {
    let mutex: Box<Mutex<[u8]>> = Box::new(Mutex::new([1, 2, 3]));
    assert_eq!(sync::lock(&mutex).len(), 3);
}

#[test]
fn lock_recovers_from_poison() {
    let mutex = Arc::new(Mutex::new(3));
    let held = Arc::clone(&mutex);
    run_to_panic(move || {
        let mut guard = held.lock().unwrap();
        *guard = 5;
        panic!("holder dies");
    });
    assert!(mutex.is_poisoned());
    assert_eq!(*sync::lock(&mutex), 5);
}

#[test]
fn read_and_write_recover_from_poison() {
    let cell = Arc::new(RwLock::new(1));
    *sync::write(&cell) = 2;
    assert_eq!(*sync::read(&cell), 2);
    let held = Arc::clone(&cell);
    run_to_panic(move || {
        let _guard = held.write().unwrap();
        panic!("holder dies");
    });
    assert!(cell.is_poisoned());
    assert_eq!(*sync::read(&cell), 2);
    *sync::write(&cell) = 3;
    assert_eq!(*sync::read(&cell), 3);
}
