//! The sensor store: the latest reading per (sensor id, sensor kind) pair.
//!
//! A write for an existing pair overwrites — last write wins, no history.
//! The store's model is the map from keys to records that results from
//! applying the writes in order (`spec_apply_batch`).

use vstd::prelude::*;
use vstd::pervasive::VecAdditionalExecFns;

use crate::types::record_key;
use crate::types::Event;
use crate::types::SensorData;
use crate::types::SensorType;

verus! {

/// The map that results from upserting every record of `batch`, in order,
/// into `m`: a later record for the same (id, kind) pair wins.
pub open spec fn spec_apply_batch(
    m: Map<(u32, SensorType), SensorData>,
    batch: Seq<SensorData>,
) -> Map<(u32, SensorType), SensorData>
    decreases batch.len(),
{
    if batch.len() == 0 {
        m
    } else {
        spec_apply_batch(m, batch.drop_last()).insert(record_key(batch.last()), batch.last())
    }
}

/// Does some record of `batch` carry the key `k`?
pub open spec fn batch_has_key(batch: Seq<SensorData>, k: (u32, SensorType)) -> bool {
    exists|i: int| 0 <= i < batch.len() && record_key(batch[i]) == k
}

/// The last record of `batch` that carries the key `k` — the one that an
/// in-order application leaves in the store.
pub open spec fn batch_last_for(batch: Seq<SensorData>, k: (u32, SensorType)) -> SensorData
    recommends
        batch_has_key(batch, k),
    decreases batch.len(),
{
    if batch.len() == 0 {
        batch[0]  // arbitrary: outside the recommendation
    } else if record_key(batch.last()) == k {
        batch.last()
    } else {
        batch_last_for(batch.drop_last(), k)
    }
}

/// What applying a batch leaves at each key: a key written by the batch holds
/// the last record written for it; every other key is untouched.
pub proof fn lemma_apply_batch_at(
    m: Map<(u32, SensorType), SensorData>,
    batch: Seq<SensorData>,
    k: (u32, SensorType),
)
    ensures
        spec_apply_batch(m, batch).contains_key(k) <==> (m.contains_key(k) || batch_has_key(
            batch,
            k,
        )),
        batch_has_key(batch, k) ==> spec_apply_batch(m, batch)[k] == batch_last_for(batch, k),
        !batch_has_key(batch, k) && m.contains_key(k) ==> spec_apply_batch(m, batch)[k] == m[k],
    decreases batch.len(),
{
    if batch.len() > 0 {
        let b0 = batch.drop_last();
        lemma_apply_batch_at(m, b0, k);
        if record_key(batch.last()) == k {
            assert(batch_has_key(batch, k)) by {
                assert(record_key(batch[batch.len() - 1]) == k);
            }
        } else {
            assert(batch_has_key(batch, k) ==> batch_has_key(b0, k)) by {
                if batch_has_key(batch, k) {
                    let i = choose|i: int|
                        0 <= i < batch.len() && record_key(batch[i]) == k;
                    assert(i < batch.len() - 1);
                    assert(record_key(b0[i]) == k);
                }
            }
            assert(batch_has_key(b0, k) ==> batch_has_key(batch, k)) by {
                if batch_has_key(b0, k) {
                    let i = choose|i: int| 0 <= i < b0.len() && record_key(b0[i]) == k;
                    assert(record_key(batch[i]) == k);
                }
            }
        }
    }
}

/// Two inserts at distinct keys commute.
proof fn lemma_insert_commute(
    m: Map<(u32, SensorType), SensorData>,
    k1: (u32, SensorType),
    v1: SensorData,
    k2: (u32, SensorType),
    v2: SensorData,
)
    requires
        k1 != k2,
    ensures
        m.insert(k1, v1).insert(k2, v2) == m.insert(k2, v2).insert(k1, v1),
{
    assert(m.insert(k1, v1).insert(k2, v2) =~= m.insert(k2, v2).insert(k1, v1));
}

/// A second insert at the same key overwrites the first.
proof fn lemma_insert_overwrite(
    m: Map<(u32, SensorType), SensorData>,
    k: (u32, SensorType),
    v1: SensorData,
    v2: SensorData,
)
    ensures
        m.insert(k, v1).insert(k, v2) == m.insert(k, v2),
{
    assert(m.insert(k, v1).insert(k, v2) =~= m.insert(k, v2));
}

/// Law: idempotence. Applying the same batch twice leaves the store exactly
/// as applying it once does — the second pass overwrites each of its own
/// writes with the same record (last write wins).
pub proof fn lemma_apply_batch_idempotent(
    m: Map<(u32, SensorType), SensorData>,
    batch: Seq<SensorData>,
)
    ensures
        spec_apply_batch(spec_apply_batch(m, batch), batch) == spec_apply_batch(m, batch),
{
    let once = spec_apply_batch(m, batch);
    let twice = spec_apply_batch(once, batch);
    assert forall|k: (u32, SensorType)|
        twice.contains_key(k) <==> once.contains_key(k) by {
        lemma_apply_batch_at(m, batch, k);
        lemma_apply_batch_at(once, batch, k);
    }
    assert forall|k: (u32, SensorType)| #[trigger]
        twice.contains_key(k) implies twice[k] == once[k] by {
        lemma_apply_batch_at(m, batch, k);
        lemma_apply_batch_at(once, batch, k);
    }
    assert(twice =~= once);
}

/// No two records of `s` carry the same (id, kind) key.
pub open spec fn unique_keys(s: Seq<SensorData>) -> bool {
    forall|i: int, j: int|
        0 <= i < j < s.len() ==> record_key(s[i]) != record_key(s[j])
}

/// Under unique keys, the record at the one index carrying `k` is also the
/// last record for `k`.
proof fn lemma_last_for_unique(s: Seq<SensorData>, i: int, k: (u32, SensorType))
    requires
        unique_keys(s),
        0 <= i < s.len(),
        record_key(s[i]) == k,
    ensures
        batch_has_key(s, k),
        batch_last_for(s, k) == s[i],
    decreases s.len(),
{
    if i == s.len() - 1 {
        assert(record_key(s.last()) == k);
    } else {
        assert(record_key(s.last()) != k);
        let s0 = s.drop_last();
        assert(record_key(s0[i]) == k);
        lemma_last_for_unique(s0, i, k);
    }
}

/// The keyed, deduplicated store of the most recent reading per
/// (sensor id, sensor kind) pair.
///
/// Its model is a `Map<(u32, SensorType), SensorData>`; `add_sensor_data`
/// inserts into that map unconditionally, so a new write for an existing pair
/// overwrites. No deletion is exposed: records are only ever superseded.
pub struct SensorStore {
    records: Vec<SensorData>,
}

impl View for SensorStore {
    type V = Map<(u32, SensorType), SensorData>;

    closed spec fn view(&self) -> Map<(u32, SensorType), SensorData> {
        spec_apply_batch(Map::empty(), self.records@)
    }
}

impl SensorStore {
    #[verifier::type_invariant]
    spec fn wf(&self) -> bool {
        unique_keys(self.records@)
    }

    /// An empty store.
    pub fn new() -> (r: SensorStore)
        ensures
            r@ == Map::<(u32, SensorType), SensorData>::empty(),
    {
        SensorStore { records: Vec::new() }
    }

    /// Is the store empty?
    pub fn is_empty(&self) -> (r: bool)
        ensures
            r <==> self@ =~= Map::<(u32, SensorType), SensorData>::empty(),
    {
        proof {
            if self.records@.len() > 0 {
                assert(self@.contains_key(record_key(self.records@.last())));
            }
        }
        self.records.len() == 0
    }

    /// The most recent reading stored for (`id`, `type_`); absence is not an
    /// error.
    pub fn get(&self, id: u32, type_: SensorType) -> (r: Option<SensorData>)
        ensures
            r == (if self@.contains_key((id, type_)) {
                Some(self@[(id, type_)])
            } else {
                Option::<SensorData>::None
            }),
    {
        proof {
            use_type_invariant(self);
        }
        let ghost k = (id, type_);
        let mut i: usize = 0;
        while i < self.records.len()
            invariant
                i <= self.records@.len(),
                k == (id, type_),
                unique_keys(self.records@),
                forall|j: int| 0 <= j < i ==> record_key(self.records@[j]) != (id, type_),
            decreases self.records@.len() - i,
        {
            let rec = self.records[i];
            if rec.id == id && rec.type_ == type_ {
                proof {
                    lemma_last_for_unique(self.records@, i as int, k);
                    lemma_apply_batch_at(Map::empty(), self.records@, k);
                }
                return Some(rec);
            }
            i += 1;
        }
        proof {
            lemma_apply_batch_at(Map::empty(), self.records@, k);
        }
        None
    }

    /// Stores `sensor` as the latest reading for its (id, kind) pair,
    /// overwriting any earlier reading for that pair, and reports the
    /// stored-data notification. Always succeeds.
    pub fn add_sensor_data(&mut self, sensor: SensorData) -> (ev: Event)
        ensures
            final(self)@ == old(self)@.insert(record_key(sensor), sensor),
            ev == (Event::SensorDataAdded { id: sensor.id, type_: sensor.type_ }),
    {
        proof {
            use_type_invariant(&*self);
        }
        let ghost s0 = self.records@;
        let ghost k = record_key(sensor);
        let id = sensor.id;
        let type_ = sensor.type_;
        let mut taken: Vec<SensorData> = Vec::new();
        core::mem::swap(&mut taken, &mut self.records);
        let mut i: usize = 0;
        while i < taken.len()
            invariant
                i <= taken@.len(),
                k == record_key(sensor),
                id == sensor.id,
                type_ == sensor.type_,
                taken@ == s0,
                s0 == old(self).records@,
                unique_keys(s0),
                forall|j: int| 0 <= j < i ==> record_key(s0[j]) != k,
            decreases taken@.len() - i,
        {
            let rec = taken[i];
            if rec.id == id && rec.type_ == type_ {
                assert(record_key(s0[i as int]) == k);
                taken.set(i, sensor);
                proof {
                    lemma_store_update(s0, i as int, sensor);
                }
                core::mem::swap(&mut taken, &mut self.records);
                return Event::SensorDataAdded { id, type_ };
            }
            i += 1;
        }
        taken.push(sensor);
        proof {
            assert(taken@.drop_last() =~= s0);
            assert forall|a: int, b: int|
                0 <= a < b < taken@.len() implies record_key(taken@[a]) != record_key(
                taken@[b],
            ) by {
                if b == taken@.len() - 1 {
                    assert(record_key(s0[a]) != k);
                }
            }
        }
        core::mem::swap(&mut taken, &mut self.records);
        Event::SensorDataAdded { id, type_ }
    }
}

/// Replacing the one record that carries `key(v)` with `v` is, at the map
/// level, an insert at that key.
proof fn lemma_store_update(s: Seq<SensorData>, i: int, v: SensorData)
    requires
        unique_keys(s),
        0 <= i < s.len(),
        record_key(s[i]) == record_key(v),
    ensures
        spec_apply_batch(Map::empty(), s.update(i, v)) == spec_apply_batch(
            Map::empty(),
            s,
        ).insert(record_key(v), v),
        unique_keys(s.update(i, v)),
    decreases s.len(),
{
    let k = record_key(v);
    let t = s.update(i, v);
    assert forall|a: int, b: int|
        0 <= a < b < t.len() implies record_key(t[a]) != record_key(t[b]) by {
        if a != i && b != i {
            assert(t[a] == s[a] && t[b] == s[b]);
        }
    }
    if i == s.len() - 1 {
        assert(t.drop_last() =~= s.drop_last());
        assert(t.last() == v);
        lemma_insert_overwrite(
            spec_apply_batch(Map::empty(), s.drop_last()),
            k,
            s.last(),
            v,
        );
    } else {
        let s0 = s.drop_last();
        assert(t.drop_last() =~= s0.update(i, v));
        assert(t.last() == s.last());
        assert(record_key(s0[i]) == record_key(v));
        lemma_store_update(s0, i, v);
        lemma_insert_commute(
            spec_apply_batch(Map::empty(), s0),
            k,
            v,
            record_key(s.last()),
            s.last(),
        );
    }
}

} // verus!
