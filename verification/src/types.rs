//! Value types of the oracle: sensor records, principals, origins, errors,
//! and the notifications that mutations emit.

use vstd::prelude::*;

verus! {

/// Identifier of a principal (an account) as the host hands it to the oracle.
pub type AccountId = u64;

/// The kind of quantity a sensor reports.
///
/// Closed enumeration; it round-trips exactly through its string form
/// (see `crate::codec`), and an unrecognized string is a parse error,
/// never a default.
#[derive(Clone, Copy, Debug, PartialEq, Eq, Structural)]
pub enum SensorType {
    Humidity,
    Temperature,
    Pressure,
    Digital,
}

/// An opaque coordinate pair; no range validation beyond the type.
#[derive(Clone, Copy, Debug, PartialEq, Eq, Structural)]
pub struct Geolocation {
    pub lat: u32,
    pub lon: u32,
}

/// A sensor reading: either a number or a boolean.
#[derive(Clone, Copy, Debug, PartialEq, Eq, Structural)]
pub enum SensorValue {
    Number(u32),
    Bool(bool),
}

/// One validated sensor reading. Immutable once constructed.
#[derive(Clone, Copy, Debug, PartialEq, Eq, Structural)]
pub struct SensorData {
    pub id: u32,
    pub type_: SensorType,
    pub geolocation: Geolocation,
    pub value: SensorValue,
    pub timestamp: u64,
}

/// The key under which the store files a record: its (id, kind) pair.
pub open spec fn record_key(s: SensorData) -> (u32, SensorType) {
    (s.id, s.type_)
}

/// Errors surfaced synchronously to callers of the registry, the parser and
/// the submission path. None is fatal: every failure means "this call
/// produced no effect".
#[derive(Clone, Copy, Debug, PartialEq, Eq, Structural)]
pub enum Error {
    /// The caller does not hold root privilege.
    NotAuthorized,
    /// The principal is not an authority (removal, or batch submission).
    NotAuthority,
    /// The principal is already an authority.
    AlreadyAuthority,
    /// The registry is full; the add was refused.
    CapacityExceeded,
    /// The byte buffer is not a well-formed batch of sensor objects.
    MalformedJson,
    /// A `type` field matched none of the four kind names.
    UnknownSensorKind,
    /// A `value` field was neither a boolean nor an unsigned integer in range.
    InvalidSensorValue,
}

/// Notifications emitted on successful mutations, consumed by the host's
/// event sink.
#[derive(Clone, Copy, Debug, PartialEq, Eq, Structural)]
pub enum Event {
    /// A new authority was added.
    AuthorityAdded { authority: AccountId },
    /// An authority was removed.
    AuthorityRemoved { authority: AccountId },
    /// New sensor data was stored for (id, type_).
    SensorDataAdded { id: u32, type_: SensorType },
}

/// The provenance of a call, as the host dispatcher establishes it.
#[derive(Clone, Copy, Debug, PartialEq, Eq, Structural)]
pub enum Origin {
    /// Root privilege: may administer the authority registry.
    Root,
    /// A transaction signed by the given principal.
    Signed(AccountId),
    /// No established provenance.
    Unsigned,
}

/// How one ingestion cycle ended. Exactly one of these is reached per
/// external trigger; every non-`Applied` result leaves the store untouched.
#[derive(Clone, Copy, Debug, PartialEq, Eq, Structural)]
pub enum CycleResult {
    /// The batch was parsed, authorized and written to the store.
    Applied,
    /// The fetch failed before a response arrived.
    IoError,
    /// The fetch deadline expired.
    DeadlineReached,
    /// The endpoint answered with a status other than 200.
    UnexpectedStatus,
    /// The response body failed to parse; the cause is carried along.
    DeserializeError(Error),
    /// No signing identity was available for submission.
    NoSigner,
    /// The submitting principal is not a registered authority.
    NotAuthority,
}

} // verus!
