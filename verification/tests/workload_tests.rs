use epoch_reclaim::affinity::CpuPool;
use epoch_reclaim::channel;
use epoch_reclaim::garbage::SlotState;
use epoch_reclaim::message;
use epoch_reclaim::runtime::EpochRuntime;
use epoch_reclaim::workload;

#[test]
fn channel_fifo_order() {
    let mut c = channel::new(None);
    c.send(message::new(10));
    c.send(message::new(11));
    c.send(message::new(12));
    assert_eq!(c.len(), 3);
    assert_eq!(c.recv().tag, 10);
    assert_eq!(c.recv().tag, 11);
    assert_eq!(c.recv().tag, 12);
    assert_eq!(c.len(), 0);
}

#[test]
fn bounded_channel_tracks_capacity() {
    let mut c = channel::new(Some(2));
    c.send(message::new(0));
    c.send(message::new(1));
    assert_eq!(c.len(), 2);
    assert_eq!(c.recv().tag, 0);
    c.send(message::new(2));
    assert_eq!(c.recv().tag, 1);
    assert_eq!(c.recv().tag, 2);
}

#[test]
fn send_all_recv_all_roundtrip() {
    let mut c = channel::new(Some(8));
    epoch_reclaim::workload::send_all(&mut c, 5);
    let tags = epoch_reclaim::workload::recv_all(&mut c, 5);
    assert_eq!(tags, vec![0, 1, 2, 3, 4]);
    assert_eq!(c.len(), 0);
}

#[test]
fn seq_unbounded_and_bounded() {
    workload::seq(None);
    workload::seq(Some(workload::MESSAGES));
}

#[test]
fn core_pool_refills_when_empty() {
    let mut p = CpuPool::new();
    let fresh = vec![0usize, 1, 2];
    assert_eq!(p.core_id(&fresh), 2);
    assert_eq!(p.core_id(&fresh), 1);
    assert_eq!(p.core_id(&fresh), 0);
    // Empty again: the pool refills from the machine's list.
    assert_eq!(p.core_id(&fresh), 2);
}

#[test]
fn set_on_main_thread_reserves_once() {
    let mut p = CpuPool::new();
    let fresh = vec![0usize, 1];
    p.set_on_main_thread(&fresh);
    assert!(p.main_set);
    assert_eq!(p.ids, vec![0]);
    // A second call is a no-op.
    p.set_on_main_thread(&fresh);
    assert_eq!(p.ids, vec![0]);
}

#[test]
fn end_to_end_channel_reclamation() {
    // Four producers send 125_000 tagged messages each through a bounded
    // channel; one consumer drains all 500_000 and retires one queue
    // node per message.  Every retired node must be freed, none twice.
    let total = workload::MESSAGES;
    let per = total / workload::THREADS;
    let bound = 1024usize;
    let mut rt = EpochRuntime::initialize();
    let mut ch = channel::new(Some(bound));
    let consumer = 99u64;
    let mut sent = [0usize; 4];
    let mut received = 0usize;
    let mut retired = 0usize;
    while received < total {
        for p in 0..workload::THREADS {
            if sent[p] < per && ch.len() < bound {
                let g = rt.pin_in(0, p as u64);
                let s = rt.domains[0].alloc_slot();
                ch.send(message::new(s));
                rt.unpin_in(0, g);
                sent[p] += 1;
            }
        }
        while ch.len() > 0 {
            let m = ch.recv();
            let g = rt.pin_in(0, consumer);
            rt.domains[0].defer(&g, m.tag);
            rt.unpin_in(0, g);
            retired += 1;
            received += 1;
        }
        if received % 4096 == 0 {
            rt.domains[0].try_advance();
            rt.domains[0].collect();
        }
    }
    assert_eq!(retired, total);
    // Drive the epoch until everything pending has aged out.
    for _ in 0..4 {
        rt.domains[0].try_advance();
        rt.domains[0].collect();
    }
    assert!(rt.domains[0].garbage.is_empty());
    assert_eq!(rt.domains[0].slots.len(), total);
    // No leak and no double free: every slot reached Freed, a state a
    // slot enters exactly once.
    assert!(rt.domains[0].slots.iter().all(|s| *s == SlotState::Freed));
}
