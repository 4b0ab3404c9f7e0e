//! The ingestion path: the authorization-checked batch write, and the
//! decision logic of one fetch–parse–submit cycle.
//!
//! The host schedules the cycle and performs the network fetch and the
//! signed submission; it hands the oracle the outcome of the fetch and the
//! identity of the signer, and the oracle decides — exactly as stated in
//! the contracts — what is rejected and what reaches the store.

use vstd::prelude::*;

use crate::parse::parse_batch;
use crate::parse::spec_parse_batch;
use crate::registry::AuthorityRegistry;
use crate::store::spec_apply_batch;
use crate::store::SensorStore;
use crate::types::AccountId;
use crate::types::CycleResult;
use crate::types::Error;
use crate::types::Event;
use crate::types::Origin;
use crate::types::SensorData;

verus! {

/// The notifications that storing a batch emits, one per record, in order.
pub open spec fn batch_events(batch: Seq<SensorData>) -> Seq<Event> {
    Seq::new(
        batch.len(),
        |k: int| Event::SensorDataAdded { id: batch[k].id, type_: batch[k].type_ },
    )
}

/// What the fetch step handed back: a response, or a transport failure.
pub enum FetchOutcome {
    /// The endpoint answered with this status code and body.
    Response { status: u16, body: Vec<u8> },
    /// The request failed before a response arrived.
    IoError,
    /// The deadline expired while waiting.
    DeadlineReached,
}

/// Commits a batch of sensor records, gated by the authority registry.
///
/// Only a signed submission by a registered authority mutates the store:
/// every record of the batch is then upserted in order (last write wins)
/// and one `SensorDataAdded` notification per record is returned. Any
/// other origin is rejected in full — `NotAuthorized` for an unsigned or
/// root origin, `NotAuthority` for a signer outside the registry — and the
/// store is left byte-for-byte unchanged.
pub fn update_sensors_data(
    registry: &AuthorityRegistry,
    store: &mut SensorStore,
    origin: Origin,
    updated_data: &Vec<SensorData>,
) -> (r: Result<Vec<Event>, Error>)
    ensures
        (match origin {
            Origin::Signed(who) => {
                &&& registry@.contains(who) ==> (match r {
                    Ok(evs) => final(store)@ == spec_apply_batch(old(store)@, updated_data@)
                        && evs@ == batch_events(updated_data@),
                    Err(_) => false,
                })
                &&& !registry@.contains(who) ==> (match r {
                    Err(e) => e == Error::NotAuthority,
                    Ok(_) => false,
                }) && final(store)@ == old(store)@
            },
            _ => (match r {
                Err(e) => e == Error::NotAuthorized,
                Ok(_) => false,
            }) && final(store)@ == old(store)@,
        }),
{
    let who = match origin {
        Origin::Signed(w) => w,
        _ => {
            return Err(Error::NotAuthorized);
        },
    };
    if !registry.is_authority(&who) {
        return Err(Error::NotAuthority);
    }
    let mut events: Vec<Event> = Vec::new();
    let mut i: usize = 0;
    proof {
        assert(updated_data@.take(0) =~= Seq::<SensorData>::empty());
    }
    while i < updated_data.len()
        invariant
            i <= updated_data@.len(),
            store@ == spec_apply_batch(old(store)@, updated_data@.take(i as int)),
            events@.len() == i,
            forall|k: int|
                0 <= k < i ==> events@[k] == (Event::SensorDataAdded {
                    id: updated_data@[k].id,
                    type_: updated_data@[k].type_,
                }),
        decreases updated_data@.len() - i,
    {
        let rec = updated_data[i];
        proof {
            assert(updated_data@.take(i + 1).drop_last() =~= updated_data@.take(i as int));
            assert(updated_data@.take(i + 1).last() == updated_data@[i as int]);
        }
        let ev = store.add_sensor_data(rec);
        events.push(ev);
        i += 1;
    }
    proof {
        assert(updated_data@.take(updated_data@.len() as int) =~= updated_data@);
        assert(events@ =~= batch_events(updated_data@));
    }
    Ok(events)
}

/// Runs the decision logic of one ingestion cycle over the outcome of the
/// fetch step.
///
/// A transport failure, a status other than 200, a body that fails to
/// parse, a missing signer, or a signer outside the registry each end the
/// cycle with the matching result and leave the store untouched; only a
/// parsed batch submitted under a registered signer is applied, upserting
/// every record in order. No failure is fatal: the next trigger simply
/// starts a fresh cycle, and reapplying the same batch is idempotent.
pub fn run_cycle(
    registry: &AuthorityRegistry,
    store: &mut SensorStore,
    signer: Option<AccountId>,
    fetch: &FetchOutcome,
) -> (r: (CycleResult, Vec<Event>))
    ensures
        (match fetch {
            FetchOutcome::IoError => r.0 == CycleResult::IoError && final(store)@ == old(store)@
                && r.1@.len() == 0,
            FetchOutcome::DeadlineReached => r.0 == CycleResult::DeadlineReached && final(store)@
                == old(store)@ && r.1@.len() == 0,
            FetchOutcome::Response { status, body } => {
                if status != 200 {
                    r.0 == CycleResult::UnexpectedStatus && final(store)@ == old(store)@
                        && r.1@.len() == 0
                } else {
                    match spec_parse_batch(body@) {
                        Err(e) => r.0 == CycleResult::DeserializeError(e)
                            && final(store)@ == old(store)@ && r.1@.len() == 0,
                        Ok(ds) => (match signer {
                            Some(who) => {
                                if registry@.contains(who) {
                                    r.0 == CycleResult::Applied && final(store)@
                                        == spec_apply_batch(old(store)@, ds) && r.1@
                                        == batch_events(ds)
                                } else {
                                    r.0 == CycleResult::NotAuthority
                                        && final(store)@ == old(store)@ && r.1@.len() == 0
                                }
                            },
                            Option::<AccountId>::None => r.0 == CycleResult::NoSigner
                                && final(store)@ == old(store)@ && r.1@.len() == 0,
                        }),
                    }
                }
            },
        }),
{
    let (status, body) = match fetch {
        FetchOutcome::IoError => {
            return (CycleResult::IoError, Vec::new());
        },
        FetchOutcome::DeadlineReached => {
            return (CycleResult::DeadlineReached, Vec::new());
        },
        FetchOutcome::Response { status, body } => (*status, body),
    };
    if status != 200 {
        return (CycleResult::UnexpectedStatus, Vec::new());
    }
    let batch = match parse_batch(body.as_slice()) {
        Ok(v) => v,
        Err(e) => {
            return (CycleResult::DeserializeError(e), Vec::new());
        },
    };
    let who = match signer {
        Some(w) => w,
        None => {
            return (CycleResult::NoSigner, Vec::new());
        },
    };
    match update_sensors_data(registry, store, Origin::Signed(who), &batch) {
        Ok(evs) => (CycleResult::Applied, evs),
        Err(_) => (CycleResult::NotAuthority, Vec::new()),
    }
}

} // verus!
