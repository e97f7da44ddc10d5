use epoch_reclaim::default::{is_pinned, pin, CustomCollector, DefaultCollector, DynCustomCollector};
use epoch_reclaim::runtime::EpochRuntime;

#[test]
fn isolated_collectors() {
    let mut rt = EpochRuntime::initialize();
    let d2 = rt.new_domain();
    let g = rt.pin_in(0, 42);
    // Pinning in the default domain is invisible in the custom one.
    assert!(rt.is_pinned_in(0, 42));
    assert!(!rt.is_pinned_in(d2, 42));
    // Epoch advances in one domain are invisible in the other.
    rt.domains[d2].try_advance();
    rt.domains[d2].try_advance();
    assert_eq!(rt.domains[0].epoch, 0);
    assert_eq!(rt.domains[d2].epoch, 2);
    rt.unpin_in(0, g);
    assert!(!rt.is_pinned_in(0, 42));
    assert_eq!(rt.domains[d2].epoch, 2);
}

#[test]
fn default_collector_pins_domain_zero() {
    let mut rt = EpochRuntime::initialize();
    let g = pin::<DefaultCollector>(&mut rt, 3);
    assert!(is_pinned::<DefaultCollector>(&rt, 3));
    assert!(rt.is_pinned_in(0, 3));
    rt.unpin_in(0, g);
    assert!(!is_pinned::<DefaultCollector>(&rt, 3));
    assert_eq!(<DefaultCollector as CustomCollector>::collector(), 0);
    let dc = DefaultCollector;
    assert_eq!(DynCustomCollector::collector(&dc), 0);
}

#[test]
fn transient_pin_after_teardown_in_runtime() {
    let mut rt = EpochRuntime::initialize();
    let g = rt.pin_in(0, 9);
    rt.unpin_in(0, g);
    rt.domains[0].thread_exit(9);
    // The fallback path registers a transient participant.
    let before = rt.domains[0].participants.len();
    let g2 = rt.pin_in(0, 9);
    assert_eq!(rt.domains[0].participants.len(), before + 1);
    assert!(rt.is_pinned_in(0, 9));
    rt.unpin_in(0, g2);
}
