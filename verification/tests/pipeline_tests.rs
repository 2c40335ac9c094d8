use ricoterm::errors::Error;
use ricoterm::events::{NewPalm0, Palms};
use ricoterm::pipeline::{assemble_snapshot, ChainData, SharedStateStore};
use ricoterm::units::{RAY, WAD};

fn palm0_at(block: u64) -> Palms {
    Palms::NewPalm0(NewPalm0 { block_number: block, which: vec![], what: vec![] })
}

fn block_of(p: &Palms) -> u64 {
    match p {
        Palms::NewPalm0(q) => q.block_number,
        Palms::NewPalm2(q) => q.block_number,
    }
}

fn sample_snapshot(par: u128) -> ChainData {
    assemble_snapshot(
        vec![],
        par,
        2 * RAY,
        100,
        1_700_000_000,
        vec![],
        RAY,
        77,
        RAY,
        3 * RAY,
        vec![palm0_at(3), palm0_at(9), palm0_at(6)],
        10,
    )
}

#[test]
fn snapshot_carries_the_cycle_values() {
    let snap = sample_snapshot(RAY);
    assert_eq!(snap.par, RAY);
    assert_eq!(snap.mar, 2 * RAY);
    assert_eq!(snap.block, 100);
    assert_eq!(snap.last_refreshed, 1_700_000_000);
    assert_eq!(snap.way, RAY);
    assert_eq!(snap.tau, 77);
    assert_eq!(snap.how, RAY);
    assert_eq!(snap.xau, 3 * RAY);
    assert!(snap.urn_data.is_empty());
    assert!(snap.ilks.is_empty());
}

#[test]
fn snapshot_orders_events_newest_first_and_bounds_them() {
    let snap = sample_snapshot(RAY);
    let blocks: Vec<u64> = snap.logs.iter().map(block_of).collect();
    assert_eq!(blocks, vec![9, 6, 3]);

    let bounded = assemble_snapshot(
        vec![],
        RAY,
        RAY,
        1,
        2,
        vec![],
        0,
        0,
        0,
        0,
        vec![palm0_at(1), palm0_at(4), palm0_at(2), palm0_at(8)],
        2,
    );
    let blocks: Vec<u64> = bounded.logs.iter().map(block_of).collect();
    assert_eq!(blocks, vec![8, 4]);
}

#[test]
fn successful_cycle_replaces_the_snapshot_wholesale() {
    let mut store = SharedStateStore::new(sample_snapshot(RAY), 1000);
    let fresh = sample_snapshot(5 * RAY);
    store.apply_cycle(Ok(fresh.clone()), 1060);
    assert_eq!(store.snapshot, fresh);
    assert_eq!(store.last_success, 1060);
    assert_eq!(store.last_error, None);
}

#[test]
fn failed_cycle_leaves_the_snapshot_untouched() {
    let initial = sample_snapshot(RAY);
    let mut store = SharedStateStore::new(initial.clone(), 1000);
    store.apply_cycle(Err(Error::DataUnavailable), 1060);
    assert_eq!(store.snapshot, initial);
    assert_eq!(store.last_success, 1000);
    assert_eq!(store.last_error, Some(Error::DataUnavailable));
    // a later good cycle recovers
    let fresh = sample_snapshot(7 * WAD);
    store.apply_cycle(Ok(fresh.clone()), 1120);
    assert_eq!(store.snapshot, fresh);
    assert_eq!(store.last_success, 1120);
    assert_eq!(store.last_error, None);
}

#[test]
fn staleness_is_always_computable() {
    let mut store = SharedStateStore::new(sample_snapshot(RAY), 1000);
    assert_eq!(store.staleness(1000), 0);
    assert_eq!(store.staleness(1075), 75);
    // even after a failed cycle the age keeps counting from the last success
    store.apply_cycle(Err(Error::PriceUnavailable), 1100);
    assert_eq!(store.staleness(1100), 100);
    // a clock reading before the last success clamps at zero
    assert_eq!(store.staleness(999), 0);
}

#[test]
fn latest_borrows_the_published_snapshot() {
    let store = SharedStateStore::new(sample_snapshot(RAY), 1);
    assert_eq!(store.latest().par, RAY);
}
