use vstd::prelude::*;

use crate::errors::Error;
use crate::events::{limit_events, sort_events_desc, sorted_newest_first, Palms};
use crate::health::{Ilk, UrnData};

verus! {

/// One complete snapshot of everything the display shows: per-vault
/// metrics, market parameters, per-class details, system-rate
/// parameters, a reference price, and a bounded window of recent
/// state-change events. It is created wholesale each cycle and replaced
/// atomically, never patched in place.
#[derive(Clone, Debug, PartialEq, Eq)]
pub struct ChainData {
    /// One record per configured vault.
    pub urn_data: Vec<UrnData>,
    /// The system target price index.
    pub par: u128,
    /// The observed market price.
    pub mar: u128,
    /// Height of the block the cycle read.
    pub block: u64,
    /// Timestamp of that block.
    pub last_refreshed: u64,
    /// Per-class details for the currently selected classes.
    pub ilks: Vec<Ilk>,
    /// The per-second system rate.
    pub way: u128,
    /// Timestamp of the last system-rate update.
    pub tau: u128,
    /// The system-rate step factor.
    pub how: u128,
    /// The reference external asset price.
    pub xau: u128,
    /// Recent state-change events, newest first.
    pub logs: Vec<Palms>,
}

/// Assemble one cycle's results into a snapshot: the fetched values are
/// taken as they are, and the events are ordered newest-first and cut to
/// the bounded window.
#[verifier::loop_isolation(false)]
pub fn assemble_snapshot(
    urn_data: Vec<UrnData>,
    par: u128,
    mar: u128,
    block: u64,
    last_refreshed: u64,
    ilks: Vec<Ilk>,
    way: u128,
    tau: u128,
    how: u128,
    xau: u128,
    events: Vec<Palms>,
    max_events: usize,
) -> (r: ChainData)
    ensures
        r.urn_data == urn_data,
        r.par == par && r.mar == mar && r.block == block && r.last_refreshed == last_refreshed,
        r.ilks == ilks,
        r.way == way && r.tau == tau && r.how == how && r.xau == xau,
        sorted_newest_first(r.logs@),
        r.logs@.len() == if events@.len() <= max_events {
            events@.len() as int
        } else {
            max_events as int
        },
        (exists|s: Seq<Palms>|
            s.to_multiset() == events@.to_multiset() && sorted_newest_first(s) && r.logs@
                == s.subrange(0, r.logs@.len() as int)),
{
    let ghost n_events: int = events@.len() as int;
    let mut logs: Vec<Palms> = sort_events_desc(events);
    let ghost sorted: Seq<Palms> = logs@;
    proof {
        broadcast use vstd::seq_lib::group_to_multiset_ensures;

        assert(logs@.len() == logs@.to_multiset().len());
        assert(events@.len() == events@.to_multiset().len());
        assert(logs@.len() == n_events);
    }
    limit_events(&mut logs, max_events);
    proof {
        if sorted.len() <= max_events {
            assert(logs@ =~= sorted.subrange(0, logs@.len() as int));
        }
        assert(sorted.to_multiset() == events@.to_multiset() && sorted_newest_first(sorted)
            && logs@ == sorted.subrange(0, logs@.len() as int));
    }
    ChainData {
        urn_data,
        par,
        mar,
        block,
        last_refreshed,
        ilks,
        way,
        tau,
        how,
        xau,
        logs,
    }
}

/// The snapshot side of the concurrency boundary between the polling
/// producer and the presentation consumer, as a plain state machine: the
/// latest published snapshot, the moment it succeeded, and the last cycle
/// error. The producer replaces the snapshot as a whole; a failed cycle
/// leaves it, and its staleness clock, untouched. The view-selection
/// state (`crate::view::State`) is the independently-owned other piece;
/// the shell keeps each under its own lock, held only long enough to
/// copy or replace a whole value.
#[derive(Clone, Debug, PartialEq, Eq)]
pub struct SharedStateStore {
    /// The latest successfully published snapshot.
    pub snapshot: ChainData,
    /// When the snapshot was published.
    pub last_success: u64,
    /// The error of the most recent failed cycle, if the last cycle
    /// failed.
    pub last_error: Option<Error>,
}

impl SharedStateStore {
    /// Start from an initial (empty) snapshot.
    pub fn new(initial: ChainData, now: u64) -> (r: SharedStateStore)
        ensures
            r.snapshot == initial,
            r.last_success == now,
            r.last_error is None,
    {
        SharedStateStore { snapshot: initial, last_success: now, last_error: None }
    }

    /// Publish one cycle's outcome. A successful cycle replaces the
    /// snapshot as a whole and advances the staleness clock; a failed
    /// cycle records the error and leaves the published snapshot and its
    /// staleness timestamp exactly as they were.
    pub fn apply_cycle(&mut self, outcome: Result<ChainData, Error>, now: u64)
        ensures
            match outcome {
                Ok(snap) => {
                    &&& final(self).snapshot == snap
                    &&& final(self).last_success == now
                    &&& final(self).last_error is None
                },
                Err(e) => {
                    &&& final(self).snapshot == old(self).snapshot
                    &&& final(self).last_success == old(self).last_success
                    &&& final(self).last_error == Some(e)
                },
            },
    {
        match outcome {
            Ok(snap) => {
                self.snapshot = snap;
                self.last_success = now;
                self.last_error = None;
            },
            Err(e) => {
                self.last_error = Some(e);
            },
        }
    }

    /// Borrow the latest published snapshot.
    pub fn latest(&self) -> (r: &ChainData)
        ensures
            *r == self.snapshot,
    {
        &self.snapshot
    }

    /// The age of the last successful snapshot: always computable, also
    /// right after a failed cycle.
    pub fn staleness(&self, now: u64) -> (r: u64)
        ensures
            r == if now >= self.last_success {
                now - self.last_success
            } else {
                0
            },
    {
        if now >= self.last_success {
            now - self.last_success
        } else {
            0
        }
    }
}

} // verus!
