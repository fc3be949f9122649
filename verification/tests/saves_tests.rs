use krun::prepared_saves::{PreparedSaves, Status};
use std::sync::atomic::{AtomicBool, Ordering};
use std::sync::Arc;

struct Held(Arc<AtomicBool>);

impl Drop for Held {
    fn drop(&mut self) {
        self.0.store(true, Ordering::SeqCst);
    }
}

#[test]
fn failed_preparation_and_wrong_identifiers_do_not_lose_a_generation() {
    let mut saves = PreparedSaves::new();
    let reservation = saves.reserve("first").unwrap();
    assert_eq!(saves.status("first"), Some(Status::Preparing));
    assert!(!saves.cancel("first"));
    saves.abandon(reservation);
    assert_eq!(saves.status("first"), None);
    let next = saves.reserve("next").unwrap();
    saves.publish(next, 9);
    assert!(!saves.cancel("wrong"));
    assert!(saves.finish("wrong", |_| ()).is_none());
    assert_eq!(saves.status("next"), Some(Status::Ready));
    assert_eq!(saves.finish("next", Err::<(), _>), Some(Err(9)));
    assert_eq!(saves.status("next"), None);
}

#[test]
fn cancellation_drops_the_generation_before_releasing_the_slot() {
    let mut saves = PreparedSaves::new();
    let dropped = Arc::new(AtomicBool::new(false));
    let first = saves.reserve("first").unwrap();
    saves.publish(first, Held(dropped.clone()));
    // The generation is taken out and dropped while the slot is held.
    let held = saves.begin_finish("first");
    assert!(held.is_some());
    assert!(!dropped.load(Ordering::SeqCst));
    drop(held);
    assert!(dropped.load(Ordering::SeqCst));
    assert_eq!(saves.status("first"), Some(Status::Finishing));
    assert!(saves.reserve("next").is_none());
    assert!(!saves.cancel("first"));
    saves.complete();
    assert_eq!(saves.status("first"), None);
    // Cancelling does all of it in one go.
    let again = saves.reserve("first").unwrap();
    dropped.store(false, Ordering::SeqCst);
    saves.publish(again, Held(dropped.clone()));
    assert!(saves.cancel("first"));
    assert!(dropped.load(Ordering::SeqCst));
    assert_eq!(saves.status("first"), None);
    assert!(saves.reserve("next").is_some());
}

#[test]
fn a_slot_is_held_while_its_save_finishes() {
    let mut saves = PreparedSaves::new();
    let first = saves.reserve("first").unwrap();
    saves.publish(first, 7);
    let value = saves.begin_finish("first").unwrap();
    let status = saves.status("first");
    assert!(saves.reserve("second").is_none());
    assert!(!saves.cancel("first"));
    assert!(saves.finish("first", |_| ()).is_none());
    assert_eq!(value + 1, 8);
    saves.complete();
    assert_eq!(status, Some(Status::Finishing));
    assert_eq!(saves.status("first"), None);
    assert!(saves.reserve("second").is_some());
}
