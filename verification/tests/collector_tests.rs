use epoch_reclaim::collector::Collector;
use epoch_reclaim::garbage::{SlotState, BAG_CAP};
use epoch_reclaim::participant::Status;

#[test]
fn pin_while_exiting() {
    let mut c = Collector::new();
    let t = 7u64;
    // Normal use: the thread's handle is created lazily and pinned once.
    let g = c.pin_thread(t);
    c.unpin(g);
    // At thread exit the handle is torn down first ...
    c.thread_exit(t);
    // ... and another per-thread resource's destructor pins afterwards.
    // This must not fail: a transient participant is registered.
    let g2 = c.pin_thread(t);
    assert!(c.is_pinned_thread(t));
    c.unpin(g2);
}

#[test]
fn nested_pins_share_snapshot() {
    let mut c = Collector::new();
    let i = c.register(1);
    let mut guards = Vec::new();
    for _ in 0..5 {
        guards.push(c.pin(i));
    }
    // All five nested pins observe the snapshot of the outermost pin.
    assert_eq!(c.participants[i].local_epoch, 0);
    assert_eq!(c.participants[i].pin_depth, 5);
    while let Some(g) = guards.pop() {
        assert!(c.is_pinned(i));
        c.unpin(g);
    }
    assert!(!c.is_pinned(i));
}

#[test]
fn grace_period_two_epochs() {
    let mut c = Collector::new();
    let slot = c.alloc_slot();
    let g = c.pin_thread(1);
    c.defer(&g, slot);
    c.unpin(g);
    // Retired at epoch 0: freeing before epoch 2 would be a bug.
    c.collect();
    assert_eq!(c.slots[slot], SlotState::Retired);
    assert!(c.try_advance());
    c.collect();
    assert_eq!(c.slots[slot], SlotState::Retired);
    assert!(c.try_advance());
    c.collect();
    assert_eq!(c.slots[slot], SlotState::Freed);
}

#[test]
fn pinned_reader_blocks_advance() {
    let mut c = Collector::new();
    let g = c.pin_thread(1);
    // The reader is pinned at the current epoch, so one advance succeeds.
    assert!(c.try_advance());
    assert_eq!(c.epoch, 1);
    // Now the reader's snapshot is one generation behind: no advance.
    assert!(!c.try_advance());
    assert_eq!(c.epoch, 1);
    c.unpin(g);
    assert!(c.try_advance());
    assert_eq!(c.epoch, 2);
}

#[test]
fn full_bag_flushes_to_collector() {
    let mut c = Collector::new();
    let g = c.pin_thread(5);
    for _ in 0..(BAG_CAP + 1) {
        let s = c.alloc_slot();
        c.defer(&g, s);
    }
    // The defer that found the bag full flushed it to the shared queue.
    assert_eq!(c.garbage.len(), BAG_CAP);
    c.unpin(g);
}

#[test]
fn exited_thread_garbage_survives() {
    let mut c = Collector::new();
    let g = c.pin_thread(1);
    let s = c.alloc_slot();
    c.defer(&g, s);
    c.unpin(g);
    c.thread_exit(1);
    // The exiting thread's bag was flushed to the collector, not lost.
    assert_eq!(c.garbage.len(), 1);
    assert!(c.participants.iter().any(|p| p.status == Status::Exited));
    c.try_advance();
    c.try_advance();
    c.collect();
    assert_eq!(c.slots[s], SlotState::Freed);
    // Once drained, the scan retires the detached entry.
    c.try_advance();
    assert!(c.participants.iter().all(|p| p.status == Status::Removed));
}

#[test]
fn churn_reclaims_everything() {
    let mut c = Collector::new();
    let total = 200u64;
    let mut slots = Vec::new();
    for t in 0..total {
        let g = c.pin_thread(t);
        let s = c.alloc_slot();
        slots.push(s);
        c.defer(&g, s);
        c.unpin(g);
        c.thread_exit(t);
        if t % 16 == 0 {
            c.try_advance();
            c.collect();
        }
    }
    for _ in 0..4 {
        c.try_advance();
        c.collect();
    }
    c.try_advance();
    // Every deferred action ran: a slot only leaves Retired through the
    // single Retired -> Freed transition, so none ran twice.
    for &s in &slots {
        assert_eq!(c.slots[s], SlotState::Freed);
    }
    assert!(c.garbage.is_empty());
    // The live-participant count converges to the number of threads
    // still running: none.
    assert!(c.participants.iter().all(|p| p.status != Status::Active));
    assert!(c.participants.iter().all(|p| p.bag.items.is_empty()));
}
