use vstd::prelude::*;

use crate::codec::{be_int256, decode_int256, P127int};
use crate::errors::Error;
use crate::keys::stripped_len;

verus! {

/// A raw state-change log as plain values: block height, 32-byte topic
/// words, and the data payload.
#[derive(Clone, Debug, PartialEq, Eq)]
pub struct RawLog {
    /// Height of the block that carries the event.
    pub block_number: u64,
    /// The topic words; the first selects the event kind.
    pub topics: Vec<Vec<u8>>,
    /// The data payload.
    pub data: Vec<u8>,
}

/// A per-vault state change: act, class key, user, signed amount.
#[derive(Clone, Debug, PartialEq, Eq)]
pub struct NewPalm2 {
    /// Height of the block that carries the event.
    pub block_number: u64,
    /// The action name, as a 32-byte key.
    pub act: Vec<u8>,
    /// The collateral class, as a 32-byte key.
    pub ilk: Vec<u8>,
    /// The user address, 20 bytes.
    pub usr: Vec<u8>,
    /// The signed amount moved.
    pub val: i128,
}

/// A system-parameter change: which parameter, and its new value word.
#[derive(Clone, Debug, PartialEq, Eq)]
pub struct NewPalm0 {
    /// Height of the block that carries the event.
    pub block_number: u64,
    /// The parameter name, as a 32-byte key.
    pub which: Vec<u8>,
    /// The new value, as a 32-byte word.
    pub what: Vec<u8>,
}

/// Either kind of state-change event.
#[derive(Clone, Debug, PartialEq, Eq)]
pub enum Palms {
    /// A system-parameter change.
    NewPalm0(NewPalm0),
    /// A per-vault state change.
    NewPalm2(NewPalm2),
}

/// The block height an event was observed at.
pub open spec fn palm_block(p: Palms) -> u64 {
    match p {
        Palms::NewPalm0(q) => q.block_number,
        Palms::NewPalm2(q) => q.block_number,
    }
}

/// Newest-first order: no later entry has a higher block than an earlier
/// one.
pub open spec fn sorted_newest_first(s: Seq<Palms>) -> bool {
    forall|i: int, j: int| 0 <= i < j < s.len() ==> palm_block(s[i]) >= palm_block(s[j])
}

/// Byte-for-byte equality of two byte vectors.
pub fn bytes_eq(a: &Vec<u8>, b: &Vec<u8>) -> (r: bool)
    ensures
        r <==> a@ == b@,
{
    if a.len() != b.len() {
        return false;
    }
    let mut i: usize = 0;
    while i < a.len()
        invariant
            i <= a@.len(),
            a@.len() == b@.len(),
            forall|j: int| 0 <= j < i ==> a@[j] == b@[j],
        decreases a@.len() - i,
    {
        if a[i] != b[i] {
            return false;
        }
        i = i + 1;
    }
    proof {
        assert(a@ =~= b@);
    }
    true
}

/// A fresh vector holding the same bytes.
pub fn bytes_copy(a: &Vec<u8>) -> (r: Vec<u8>)
    ensures
        r@ == a@,
{
    let mut r: Vec<u8> = Vec::new();
    let mut i: usize = 0;
    while i < a.len()
        invariant
            i <= a@.len(),
            r@ == a@.subrange(0, i as int),
        decreases a@.len() - i,
    {
        r.push(a[i]);
        proof {
            assert(a@.subrange(0, i + 1) =~= a@.subrange(0, i as int).push(a@[i as int]));
        }
        i = i + 1;
    }
    proof {
        assert(a@.subrange(0, a@.len() as int) =~= a@);
    }
    r
}

/// A fresh vector holding the first `n` bytes.
pub fn bytes_prefix(a: &Vec<u8>, n: usize) -> (r: Vec<u8>)
    requires
        n <= a@.len(),
    ensures
        r@ == a@.subrange(0, n as int),
{
    let mut r: Vec<u8> = Vec::new();
    let mut i: usize = 0;
    while i < n
        invariant
            i <= n <= a@.len(),
            r@ == a@.subrange(0, i as int),
        decreases n - i,
    {
        r.push(a[i]);
        proof {
            assert(a@.subrange(0, i + 1) =~= a@.subrange(0, i as int).push(a@[i as int]));
        }
        i = i + 1;
    }
    r
}

/// Whether a log carries the per-vault event's expected shape: the act,
/// class and user topics and a 32-byte signed amount.
pub open spec fn palm2_shape(log: RawLog) -> bool {
    &&& log.topics@.len() >= 4
    &&& log.topics@[3]@.len() >= 20
    &&& log.data@.len() == 32
}

/// Whether a log carries the system-parameter event's expected shape.
pub open spec fn palm0_shape(log: RawLog) -> bool {
    &&& log.topics@.len() >= 2
    &&& log.data@.len() >= 32
}

/// Whether a log's first topic selects the given event signature.
pub open spec fn has_signature(log: RawLog, sig: Vec<u8>) -> bool {
    log.topics@.len() > 0 && log.topics@[0]@ == sig@
}

/// Classify and decode a raw log against the two event signatures. A log
/// matching neither signature, or matching one with a malformed shape,
/// is unusable data; a per-vault amount beyond the signed 128-bit range
/// is an overflow.
pub fn try_into_palms(log: &RawLog, sig2: &Vec<u8>, sig0: &Vec<u8>) -> (r: Result<Palms, Error>)
    ensures
        match r {
            Ok(Palms::NewPalm2(p)) => {
                &&& has_signature(*log, *sig2)
                &&& palm2_shape(*log)
                &&& -(P127int()) <= be_int256(log.data@) < P127int()
                &&& p.block_number == log.block_number
                &&& p.act@ == log.topics@[1]@
                &&& p.ilk@ == log.topics@[2]@
                &&& p.usr@ == log.topics@[3]@.subrange(0, 20)
                &&& p.val == be_int256(log.data@)
            },
            Ok(Palms::NewPalm0(p)) => {
                &&& !has_signature(*log, *sig2)
                &&& has_signature(*log, *sig0)
                &&& palm0_shape(*log)
                &&& p.block_number == log.block_number
                &&& p.which@ == log.topics@[1]@
                &&& p.what@ == log.data@.subrange(0, 32)
            },
            Err(Error::ArithmeticOverflow) => has_signature(*log, *sig2) && palm2_shape(*log) && !(
            -(P127int()) <= be_int256(log.data@) < P127int()),
            Err(Error::DataUnavailable) => (has_signature(*log, *sig2) && !palm2_shape(*log)) || (
            !has_signature(*log, *sig2) && has_signature(*log, *sig0) && !palm0_shape(*log)) || (
            !has_signature(*log, *sig2) && !has_signature(*log, *sig0)),
            Err(_) => false,
        },
{
    if log.topics.len() == 0 {
        return Err(Error::DataUnavailable);
    }
    if bytes_eq(&log.topics[0], sig2) {
        if log.topics.len() < 4 || log.data.len() != 32 {
            return Err(Error::DataUnavailable);
        }
        if log.topics[3].len() < 20 {
            return Err(Error::DataUnavailable);
        }
        let val: i128 = match decode_int256(&log.data) {
            Ok(v) => v,
            Err(e) => {
                return Err(e);
            },
        };
        Ok(
            Palms::NewPalm2(
                NewPalm2 {
                    block_number: log.block_number,
                    act: bytes_copy(&log.topics[1]),
                    ilk: bytes_copy(&log.topics[2]),
                    usr: bytes_prefix(&log.topics[3], 20),
                    val,
                },
            ),
        )
    } else if bytes_eq(&log.topics[0], sig0) {
        if log.topics.len() < 2 || log.data.len() < 32 {
            return Err(Error::DataUnavailable);
        }
        Ok(
            Palms::NewPalm0(
                NewPalm0 {
                    block_number: log.block_number,
                    which: bytes_copy(&log.topics[1]),
                    what: bytes_prefix(&log.data, 32),
                },
            ),
        )
    } else {
        Err(Error::DataUnavailable)
    }
}

/// Whether a per-vault event passes the class filter: an empty selection
/// admits everything, otherwise the event's class key must strip to one
/// of the selected names.
pub open spec fn palm2_selected(p: NewPalm2, active: Seq<Seq<u8>>) -> bool {
    active.len() == 0 || exists|k: int|
        0 <= k < active.len() && active[k] == p.ilk@.subrange(0, stripped_len(p.ilk@) as int)
}

/// Decide the class filter for one per-vault event.
pub fn palm2_is_selected(p: &NewPalm2, active: &Vec<Vec<u8>>) -> (r: bool)
    ensures
        r <==> palm2_selected(*p, active@.map_values(|v: Vec<u8>| v@)),
{
    let ghost names: Seq<Seq<u8>> = active@.map_values(|v: Vec<u8>| v@);
    if active.len() == 0 {
        return true;
    }
    let name: Vec<u8> = crate::keys::bytes32_to_string(&p.ilk);
    let mut k: usize = 0;
    while k < active.len()
        invariant
            k <= active@.len(),
            names == active@.map_values(|v: Vec<u8>| v@),
            names.len() == active@.len(),
            name@ == p.ilk@.subrange(0, stripped_len(p.ilk@) as int),
            forall|j: int| 0 <= j < k ==> names[j] != name@,
        decreases active@.len() - k,
    {
        if bytes_eq(&active[k], &name) {
            proof {
                assert(names[k as int] == active@[k as int]@);
            }
            return true;
        }
        k = k + 1;
    }
    false
}

/// Sort events newest-first by block height. The order among events of
/// one block is not specified.
pub fn sort_events_desc(events: Vec<Palms>) -> (r: Vec<Palms>)
    ensures
        r@.to_multiset() == events@.to_multiset(),
        sorted_newest_first(r@),
{
    broadcast use vstd::seq_lib::group_to_multiset_ensures;

    let mut rest: Vec<Palms> = events;
    let mut out: Vec<Palms> = Vec::new();
    while rest.len() > 0
        invariant
            out@.to_multiset().add(rest@.to_multiset()) =~= events@.to_multiset(),
            sorted_newest_first(out@),
            forall|i: int, j: int|
                0 <= i < out@.len() && 0 <= j < rest@.len() ==> palm_block(out@[i]) >= palm_block(
                    rest@[j],
                ),
        decreases rest@.len(),
    {
        // find the highest remaining block
        let mut best: usize = 0;
        let mut k: usize = 1;
        while k < rest.len()
            invariant
                best < k <= rest@.len(),
                rest@.len() > 0,
                forall|j: int| 0 <= j < k ==> palm_block(rest@[best as int]) >= palm_block(rest@[j]),
            decreases rest@.len() - k,
        {
            let bk: u64 = match &rest[k] {
                Palms::NewPalm0(q) => q.block_number,
                Palms::NewPalm2(q) => q.block_number,
            };
            let bb: u64 = match &rest[best] {
                Palms::NewPalm0(q) => q.block_number,
                Palms::NewPalm2(q) => q.block_number,
            };
            if bk > bb {
                best = k;
            }
            k = k + 1;
        }
        let ghost picked: Palms = rest@[best as int];
        let ghost rest_before: Seq<Palms> = rest@;
        let x: Palms = rest.remove(best);
        let ghost out_before: Seq<Palms> = out@;
        out.push(x);
        proof {
            broadcast use vstd::seq_lib::group_to_multiset_ensures;
            broadcast use vstd::multiset::group_multiset_axioms;

            assert(out@ =~= out_before.push(picked));
            assert(out_before.push(picked).to_multiset() =~= out_before.to_multiset().insert(
                picked,
            ));
            assert(rest@ == rest_before.remove(best as int));
            assert(rest_before.remove(best as int).to_multiset() =~= rest_before.to_multiset()
                .remove(picked));
            assert(rest_before.contains(picked));
            assert(rest_before.to_multiset().count(picked) > 0);
            assert(out@.to_multiset().add(rest@.to_multiset()) =~= events@.to_multiset());
            assert forall|i: int, j: int|
                0 <= i < out@.len() && 0 <= j < rest@.len() implies palm_block(out@[i])
                >= palm_block(rest@[j]) by {
                if i < out@.len() - 1 {
                } else {
                }
            }
        }
    }
    out
}

/// Keep only the newest `max` events of an already-sorted list: the
/// bounded window a snapshot carries.
pub fn limit_events(events: &mut Vec<Palms>, max: usize)
    ensures
        final(events)@ == if old(events)@.len() <= max {
            old(events)@
        } else {
            old(events)@.subrange(0, max as int)
        },
{
    events.truncate(max);
    proof {
        if old(events)@.len() <= max {
            assert(final(events)@ =~= old(events)@);
        }
    }
}

} // verus!
