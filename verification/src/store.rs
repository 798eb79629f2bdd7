//! The verified record store: the durable mapping, the id allocator, and the
//! CRUD operations layered on top of them.

use crate::codec::{enc_record, lemma_enc_record_len, rec_size};
use crate::record::{
    auth_msg, contains_str, contains_subseq, empty_store_msg, no_match_location_msg, notfound_msg,
    valid_payload, validation_msg, CrisisUpdate, CrisisUpdatePayload, Error, PayloadSpec,
    RecordSpec, _check_if_author, _check_input,
};
use crate::stable::{counter_value, stored_bytes, StableStore};
use vstd::prelude::*;

verus! {

/// Abstract state of the store: the live records keyed by id, and the next
/// id the allocator will hand out.
pub struct StoreView {
    pub records: Map<u64, RecordSpec>,
    pub counter: u64,
}

/// The records of a store that holds none.
pub open spec fn no_records() -> Map<u64, RecordSpec> {
    Map::empty()
}

/// Every stored id was issued by the allocator, so it lies strictly below
/// the counter, and every record is keyed by its own id.
pub open spec fn store_inv(v: StoreView) -> bool {
    forall|k: u64| #[trigger]
        v.records.contains_key(k) ==> v.records[k].id == k && k < v.counter
}

/// The record created from a payload by the given caller at the given time.
pub open spec fn created_record(id: u64, p: PayloadSpec, caller: Seq<char>, now: u64) -> RecordSpec {
    RecordSpec {
        id,
        title: p.title,
        author: caller,
        description: p.description,
        location: p.location,
        timestamp: None,
        created_at: now,
    }
}

/// The record after its author applied a payload at the given time: textual
/// fields replaced, last-modified set; id, author and creation time kept.
pub open spec fn updated_record(r: RecordSpec, p: PayloadSpec, now: u64) -> RecordSpec {
    RecordSpec {
        id: r.id,
        title: p.title,
        author: r.author,
        description: p.description,
        location: p.location,
        timestamp: Some(now),
        created_at: r.created_at,
    }
}

/// What a read of the given id observes in the given state.
pub open spec fn read_result(v: StoreView, id: u64) -> Option<RecordSpec> {
    if v.records.contains_key(id) {
        Some(v.records[id])
    } else {
        None
    }
}

/// The views of a sequence of records.
pub open spec fn seq_views(s: Seq<CrisisUpdate>) -> Seq<RecordSpec> {
    s.map_values(|u: CrisisUpdate| u@)
}

/// `v` holds exactly the records of `m`, in ascending id order.
pub open spec fn is_listing(v: Seq<RecordSpec>, m: Map<u64, RecordSpec>) -> bool {
    &&& (forall|i: int| #![trigger v[i]]
        0 <= i < v.len() ==> m.contains_key(v[i].id) && v[i] == m[v[i].id])
    &&& (forall|i: int, j: int| #![trigger v[i], v[j]] 0 <= i < j < v.len() ==> v[i].id < v[j].id)
    &&& (forall|k: u64| #[trigger]
        m.contains_key(k) ==> exists|i: int| 0 <= i < v.len() && v[i] == m[k])
}

/// `v` holds exactly the records of `m` that satisfy `f`, in ascending id
/// order.
pub open spec fn is_filtered_listing(
    v: Seq<RecordSpec>,
    m: Map<u64, RecordSpec>,
    f: spec_fn(RecordSpec) -> bool,
) -> bool {
    &&& (forall|i: int| #![trigger v[i]]
        0 <= i < v.len() ==> m.contains_key(v[i].id) && v[i] == m[v[i].id] && f(v[i]))
    &&& (forall|i: int, j: int| #![trigger v[i], v[j]] 0 <= i < j < v.len() ==> v[i].id < v[j].id)
    &&& (forall|k: u64| #[trigger]
        m.contains_key(k) && f(m[k]) ==> exists|i: int| 0 <= i < v.len() && v[i] == m[k])
}

/// Matches the records at exactly the searched location.
pub open spec fn loc_pred(location: Seq<char>) -> spec_fn(RecordSpec) -> bool {
    |rec: RecordSpec| rec.location == location
}

/// Matches the records last modified inside the inclusive timestamp range;
/// a record never updated (no last-modified timestamp) matches no range.
pub open spec fn range_pred(lo: u64, hi: u64) -> spec_fn(RecordSpec) -> bool {
    |rec: RecordSpec| rec.timestamp matches Some(t) && lo <= t && t <= hi
}

/// Matches the records last modified strictly before the timestamp.
pub open spec fn before_pred(hi: u64) -> spec_fn(RecordSpec) -> bool {
    |rec: RecordSpec| rec.timestamp matches Some(t) && t < hi
}

/// Matches the records last modified strictly after the timestamp.
pub open spec fn after_pred(lo: u64) -> spec_fn(RecordSpec) -> bool {
    |rec: RecordSpec| rec.timestamp matches Some(t) && t > lo
}

/// Matches the records whose id lies in the inclusive range.
pub open spec fn id_range_pred(lo: u64, hi: u64) -> spec_fn(RecordSpec) -> bool {
    |rec: RecordSpec| lo <= rec.id && rec.id <= hi
}

/// Matches the records whose title contains the needle.
pub open spec fn title_pred(needle: Seq<char>) -> spec_fn(RecordSpec) -> bool {
    |rec: RecordSpec| contains_subseq(rec.title, needle)
}

/// Matches the records whose description contains the needle.
pub open spec fn description_pred(needle: Seq<char>) -> spec_fn(RecordSpec) -> bool {
    |rec: RecordSpec| contains_subseq(rec.description, needle)
}

/// Invariant of the loops that filter a full listing `all_v` of `m` down to
/// the records satisfying `f`, having looked at the first `i` entries.
pub open spec fn filter_step_inv(
    out_v: Seq<RecordSpec>,
    all_v: Seq<RecordSpec>,
    m: Map<u64, RecordSpec>,
    f: spec_fn(RecordSpec) -> bool,
    i: int,
) -> bool {
    &&& (forall|p: int| #![trigger out_v[p]]
        0 <= p < out_v.len() ==> m.contains_key(out_v[p].id) && out_v[p] == m[out_v[p].id] && f(
            out_v[p],
        ))
    &&& (forall|p: int, q: int| #![trigger out_v[p], out_v[q]]
        0 <= p < q < out_v.len() ==> out_v[p].id < out_v[q].id)
    &&& (forall|p: int| #![trigger out_v[p]]
        0 <= p < out_v.len() ==> exists|q: int| 0 <= q < i && out_v[p] == all_v[q])
    &&& (forall|q: int| #![trigger all_v[q]]
        0 <= q < i && f(all_v[q]) ==> exists|p: int| 0 <= p < out_v.len() && out_v[p] == all_v[q])
}

pub proof fn lemma_filter_step_push(
    out_v: Seq<RecordSpec>,
    all_v: Seq<RecordSpec>,
    m: Map<u64, RecordSpec>,
    f: spec_fn(RecordSpec) -> bool,
    i: int,
)
    requires
        is_listing(all_v, m),
        filter_step_inv(out_v, all_v, m, f, i),
        0 <= i < all_v.len(),
        f(all_v[i]),
    ensures
        filter_step_inv(out_v.push(all_v[i]), all_v, m, f, i + 1),
{
    let out2 = out_v.push(all_v[i]);
    let n = out_v.len() as int;
    assert(out2[n] == all_v[i]);
    assert forall|p: int, q: int| 0 <= p < q < out2.len() implies out2[p].id < out2[q].id by {
        if q == n {
            let q0 = choose|q0: int| 0 <= q0 < i && out_v[p] == all_v[q0];
            assert(all_v[q0].id < all_v[i].id);
        } else {
            assert(out_v[p].id < out_v[q].id);
        }
    }
    assert forall|p: int| #![trigger out2[p]] 0 <= p < out2.len() implies exists|q: int|
        0 <= q < i + 1 && out2[p] == #[trigger] all_v[q] by {
        if p < n {
            let q0 = choose|q0: int| 0 <= q0 < i && out_v[p] == all_v[q0];
            assert(0 <= q0 < i + 1 && out2[p] == all_v[q0]);
        } else {
            assert(0 <= i < i + 1 && out2[p] == all_v[i]);
        }
    }
    assert forall|q: int| 0 <= q < i + 1 && f(all_v[q]) implies exists|p: int|
        0 <= p < out2.len() && #[trigger] out2[p] == all_v[q] by {
        if q < i {
            let p0 = choose|p0: int| 0 <= p0 < out_v.len() && out_v[p0] == all_v[q];
            assert(out2[p0] == all_v[q]);
        } else {
            assert(out2[n] == all_v[q]);
        }
    }
}

pub proof fn lemma_filter_step_skip(
    out_v: Seq<RecordSpec>,
    all_v: Seq<RecordSpec>,
    m: Map<u64, RecordSpec>,
    f: spec_fn(RecordSpec) -> bool,
    i: int,
)
    requires
        filter_step_inv(out_v, all_v, m, f, i),
        0 <= i < all_v.len(),
        !f(all_v[i]),
    ensures
        filter_step_inv(out_v, all_v, m, f, i + 1),
{
    assert forall|p: int| #![trigger out_v[p]] 0 <= p < out_v.len() implies exists|q: int|
        0 <= q < i + 1 && out_v[p] == #[trigger] all_v[q] by {
        let q0 = choose|q0: int| 0 <= q0 < i && out_v[p] == all_v[q0];
        assert(0 <= q0 < i + 1 && out_v[p] == all_v[q0]);
    }
    assert forall|q: int| 0 <= q < i + 1 && f(all_v[q]) implies exists|p: int|
        0 <= p < out_v.len() && #[trigger] out_v[p] == all_v[q] by {
        assert(q != i);
        let p0 = choose|p0: int| 0 <= p0 < out_v.len() && out_v[p0] == all_v[q];
        assert(out_v[p0] == all_v[q]);
    }
}

pub proof fn lemma_filter_done(
    out_v: Seq<RecordSpec>,
    all_v: Seq<RecordSpec>,
    m: Map<u64, RecordSpec>,
    f: spec_fn(RecordSpec) -> bool,
)
    requires
        is_listing(all_v, m),
        filter_step_inv(out_v, all_v, m, f, all_v.len() as int),
    ensures
        is_filtered_listing(out_v, m, f),
{
    assert forall|k: u64| #[trigger] m.contains_key(k) && f(m[k]) implies exists|i: int|
        0 <= i < out_v.len() && #[trigger] out_v[i] == m[k] by {
        let q = choose|q: int| 0 <= q < all_v.len() && all_v[q] == m[k];
        assert(f(all_v[q]));
        let p = choose|p: int| 0 <= p < out_v.len() && out_v[p] == all_v[q];
        assert(out_v[p] == m[k]);
    }
}

/// The durable crisis update store.
pub struct Store {
    inner: StableStore,
    model: Ghost<Map<u64, RecordSpec>>,
}

impl Store {
    /// The abstract state of this store.
    pub closed spec fn view(&self) -> StoreView {
        StoreView { records: self.model@, counter: counter_value(&self.inner) }
    }

    /// Well-formedness: the durable bytes are exactly the encodings of the
    /// abstract records, and the allocator invariant holds.
    pub closed spec fn wf(&self) -> bool {
        &&& self.model@.dom() == stored_bytes(&self.inner).dom()
        &&& (forall|k: u64| #[trigger]
            self.model@.contains_key(k) ==> stored_bytes(&self.inner)[k] == enc_record(
                self.model@[k],
            ))
        &&& store_inv(self@)
    }

    /// A well-formed store satisfies the allocator invariant on its state.
    pub proof fn lemma_wf_implies_inv(&self)
        requires
            self.wf(),
        ensures
            store_inv(self@),
    {
    }

    /// Opens a store on a fresh storage substrate: no records, counter at 0.
    pub fn new() -> (r: Store)
        ensures
            r.wf(),
            r@.records == no_records(),
            r@.counter == 0,
    {
        let inner = StableStore::new();
        let r = Store { inner, model: Ghost(Map::empty()) };
        proof {
            assert(r.model@.dom() =~= stored_bytes(&r.inner).dom());
        }
        r
    }

    /// Reopens the store, as after a process restart: no record and no
    /// allocator state is lost.
    pub fn restart(self) -> (r: Store)
        requires
            self.wf(),
        ensures
            r.wf(),
            r@ == self@,
    {
        let Store { inner, model } = self;
        let reopened = inner.restart();
        Store { inner: reopened, model }
    }

    /// Allocates the next record id: returns the counter and durably
    /// increments it, so no id is ever handed out twice.
    pub fn next_id(&mut self) -> (id: u64)
        requires
            old(self).wf(),
            old(self)@.counter < u64::MAX,
        ensures
            final(self).wf(),
            id == old(self)@.counter,
            final(self)@.counter == old(self)@.counter + 1,
            final(self)@.records == old(self)@.records,
            !old(self)@.records.contains_key(id),
    {
        let c = self.inner.counter_get();
        self.inner.counter_set(c + 1);
        c
    }

    /// Encodes the record and durably stores it at its id, inserting or
    /// overwriting.
    pub fn do_insert_crisis_update(&mut self, update: &CrisisUpdate)
        requires
            old(self).wf(),
            update@.id < old(self)@.counter,
            rec_size(update@) <= 1024,
        ensures
            final(self).wf(),
            final(self)@.records == old(self)@.records.insert(update@.id, update@),
            final(self)@.counter == old(self)@.counter,
    {
        let bytes = update.to_bytes();
        proof {
            lemma_enc_record_len(update@);
        }
        self.inner.map_insert(update.id, bytes);
        self.model = Ghost(self.model@.insert(update.id, update@));
        proof {
            assert(self.model@.dom() =~= stored_bytes(&self.inner).dom());
            assert forall|k: u64| #[trigger] self.model@.contains_key(k) implies stored_bytes(
                &self.inner,
            )[k] == enc_record(self.model@[k]) by {
                if k != update@.id {
                    assert(old(self).model@.contains_key(k));
                }
            }
        }
    }

    /// Looks the record up by id.
    pub fn _get_crisis_update(&self, id: u64) -> (r: Option<CrisisUpdate>)
        requires
            self.wf(),
        ensures
            match r {
                Some(u) => self@.records.contains_key(id) && u@ == self@.records[id],
                None => !self@.records.contains_key(id),
            },
    {
        match self.inner.map_get(id) {
            Some(bytes) => {
                proof {
                    assert(self.model@.contains_key(id));
                }
                let u = CrisisUpdate::from_bytes(&bytes, Ghost(self.model@[id]));
                Some(u)
            },
            None => {
                proof {
                    assert(!self.model@.contains_key(id));
                }
                None
            },
        }
    }

    /// Reads a record by id; reports `NotFound` when no record has the id.
    pub fn get_crisis_update(&self, id: u64) -> (r: Result<CrisisUpdate, Error>)
        requires
            self.wf(),
        ensures
            match read_result(self@, id) {
                Some(rs) => r matches Ok(u) && u@ == rs,
                None => r matches Err(e) && (e matches Error::NotFound { msg } && msg@
                    == notfound_msg()),
            },
    {
        match self._get_crisis_update(id) {
            Some(u) => Ok(u),
            None => Err(
                Error::NotFound { msg: "a crisis update with the given id was not found".to_owned() },
            ),
        }
    }

    /// Creates a record: validates the payload, allocates a fresh id, fixes
    /// author and creation time, and durably stores the record.
    pub fn add_crisis_update(&mut self, payload: CrisisUpdatePayload, caller: String, now: u64) -> (r:
        Result<CrisisUpdate, Error>)
        requires
            old(self).wf(),
            old(self)@.counter < u64::MAX,
            49 + 4 * (payload@.title.len() + payload@.description.len() + payload@.location.len()
                + caller@.len()) <= 1024,
        ensures
            final(self).wf(),
            final(self)@.counter >= old(self)@.counter,
            valid_payload(payload@) ==> (r matches Ok(u) && u@ == created_record(
                old(self)@.counter,
                payload@,
                caller@,
                now,
            ) && !old(self)@.records.contains_key(u@.id) && final(self)@.records == old(
                self,
            )@.records.insert(u@.id, u@) && final(self)@.counter == old(self)@.counter + 1),
            !valid_payload(payload@) ==> (r matches Err(e) && (e
                matches Error::InputValidationFailed { msg } && msg@ == validation_msg(payload@))
                && final(self)@ == old(self)@),
    {
        match _check_input(&payload) {
            Err(e) => Err(e),
            Ok(()) => {
                let id = self.next_id();
                let record = CrisisUpdate {
                    id,
                    title: payload.title,
                    author: caller,
                    description: payload.description,
                    location: payload.location,
                    timestamp: None,
                    created_at: now,
                };
                self.do_insert_crisis_update(&record);
                Ok(record)
            },
        }
    }

    /// Updates a record: the id must exist, the caller must be its author,
    /// and the payload must pass validation; then the textual fields are
    /// replaced and the last-modified timestamp is set to the given time.
    /// Authorization is checked before validation.
    pub fn update_crisis_update(
        &mut self,
        id: u64,
        payload: CrisisUpdatePayload,
        caller: String,
        now: u64,
    ) -> (r: Result<CrisisUpdate, Error>)
        requires
            old(self).wf(),
            old(self)@.records.contains_key(id) ==> 57 + 4 * (payload@.title.len()
                + payload@.description.len() + payload@.location.len()
                + old(self)@.records[id].author.len()) <= 1024,
        ensures
            final(self).wf(),
            final(self)@.counter == old(self)@.counter,
            !old(self)@.records.contains_key(id) ==> (r matches Err(e) && (e
                matches Error::NotFound { msg } && msg@ == notfound_msg()) && final(self)@ == old(
                self,
            )@),
            old(self)@.records.contains_key(id) && old(self)@.records[id].author != caller@ ==> (r
                matches Err(e) && (e matches Error::AuthenticationFailed { msg } && msg@
                == auth_msg()) && final(self)@ == old(self)@),
            old(self)@.records.contains_key(id) && old(self)@.records[id].author == caller@
                && !valid_payload(payload@) ==> (r matches Err(e) && (e
                matches Error::InputValidationFailed { msg } && msg@ == validation_msg(payload@))
                && final(self)@ == old(self)@),
            old(self)@.records.contains_key(id) && old(self)@.records[id].author == caller@
                && valid_payload(payload@) ==> (r matches Ok(u) && u@ == updated_record(
                old(self)@.records[id],
                payload@,
                now,
            ) && final(self)@.records == old(self)@.records.insert(id, u@)),
    {
        match self._get_crisis_update(id) {
            None => Err(
                Error::NotFound {
                    msg: "a crisis update with the given id was not found".to_owned(),
                },
            ),
            Some(existing) => {
                match _check_if_author(&existing, &caller) {
                    Err(e) => Err(e),
                    Ok(()) => match _check_input(&payload) {
                        Err(e) => Err(e),
                        Ok(()) => {
                            let updated = CrisisUpdate {
                                id: existing.id,
                                title: payload.title,
                                author: existing.author,
                                description: payload.description,
                                location: payload.location,
                                timestamp: Some(now),
                                created_at: existing.created_at,
                            };
                            self.do_insert_crisis_update(&updated);
                            Ok(updated)
                        },
                    },
                }
            },
        }
    }

    /// Deletes a record: the id must exist and the caller must be its
    /// author; the record is durably removed and returned. Its id is never
    /// reassigned, since the allocator state is untouched.
    pub fn delete_crisis_update(&mut self, id: u64, caller: String) -> (r: Result<
        CrisisUpdate,
        Error,
    >)
        requires
            old(self).wf(),
        ensures
            final(self).wf(),
            final(self)@.counter == old(self)@.counter,
            !old(self)@.records.contains_key(id) ==> (r matches Err(e) && (e
                matches Error::NotFound { msg } && msg@ == notfound_msg()) && final(self)@ == old(
                self,
            )@),
            old(self)@.records.contains_key(id) && old(self)@.records[id].author != caller@ ==> (r
                matches Err(e) && (e matches Error::AuthenticationFailed { msg } && msg@
                == auth_msg()) && final(self)@ == old(self)@),
            old(self)@.records.contains_key(id) && old(self)@.records[id].author == caller@ ==> (r
                matches Ok(u) && u@ == old(self)@.records[id] && final(self)@.records == old(
                self,
            )@.records.remove(id)),
    {
        match self._get_crisis_update(id) {
            None => Err(
                Error::NotFound {
                    msg: "a crisis update with the given id was not found".to_owned(),
                },
            ),
            Some(existing) => {
                match _check_if_author(&existing, &caller) {
                    Err(e) => Err(e),
                    Ok(()) => {
                        let _prior = self.inner.map_remove(id);
                        self.model = Ghost(self.model@.remove(id));
                        proof {
                            assert(self.model@.dom() =~= stored_bytes(&self.inner).dom());
                            assert forall|k: u64| #[trigger]
                                self.model@.contains_key(k) implies stored_bytes(&self.inner)[k]
                                == enc_record(self.model@[k]) by {
                                assert(old(self).model@.contains_key(k));
                            }
                        }
                        Ok(existing)
                    },
                }
            },
        }
    }

    /// Decodes every stored record, in ascending id order.
    fn scan_all(&self) -> (v: Vec<CrisisUpdate>)
        requires
            self.wf(),
        ensures
            is_listing(seq_views(v@), self@.records),
    {
        let entries = self.inner.map_entries();
        let ghost sb = stored_bytes(&self.inner);
        let ghost m = self@.records;
        let mut out: Vec<CrisisUpdate> = Vec::new();
        let mut i: usize = 0;
        while i < entries.len()
            invariant
                self.wf(),
                m == self@.records,
                sb == stored_bytes(&self.inner),
                i <= entries@.len(),
                out@.len() == i,
                forall|p: int| #![trigger entries@[p]]
                    0 <= p < entries@.len() ==> sb.contains_key(entries@[p].0) && entries@[p].1@
                        == sb[entries@[p].0],
                forall|p: int, q: int| #![trigger entries@[p], entries@[q]]
                    0 <= p < q < entries@.len() ==> entries@[p].0 < entries@[q].0,
                forall|k: u64| #[trigger]
                    sb.contains_key(k) ==> exists|p: int|
                        0 <= p < entries@.len() && #[trigger] entries@[p].0 == k,
                forall|p: int| #![trigger out@[p]]
                    0 <= p < i ==> m.contains_key(entries@[p].0) && out@[p]@ == m[entries@[p].0],
            decreases entries@.len() - i,
        {
            let e = &entries[i];
            let k: u64 = e.0;
            proof {
                assert(sb.contains_key(k));
                assert(self.model@.contains_key(k));
            }
            let u = CrisisUpdate::from_bytes(&e.1, Ghost(self.model@[k]));
            out.push(u);
            i += 1;
        }
        proof {
            let all_v = seq_views(out@);
            assert forall|p: int| #![trigger all_v[p]]
                0 <= p < all_v.len() implies m.contains_key(all_v[p].id) && all_v[p]
                == m[all_v[p].id] by {
                assert(all_v[p] == out@[p]@);
                assert(out@[p]@ == m[entries@[p].0]);
                assert(m[entries@[p].0].id == entries@[p].0);
            }
            assert forall|p: int, q: int| #![trigger all_v[p], all_v[q]]
                0 <= p < q < all_v.len() implies all_v[p].id < all_v[q].id by {
                assert(all_v[p] == m[entries@[p].0] && all_v[q] == m[entries@[q].0]);
                assert(entries@[p].0 < entries@[q].0);
            }
            assert forall|k: u64| #[trigger] m.contains_key(k) implies exists|p: int|
                0 <= p < all_v.len() && #[trigger] all_v[p] == m[k] by {
                assert(sb.contains_key(k));
                let p = choose|p: int| 0 <= p < entries@.len() && #[trigger] entries@[p].0 == k;
                assert(all_v[p] == out@[p]@);
            }
        }
        out
    }

    /// Lists every record, ascending by id; reports `NotFound` when the
    /// store is empty.
    pub fn list_all_crisis_updates(&self) -> (r: Result<Vec<CrisisUpdate>, Error>)
        requires
            self.wf(),
        ensures
            self@.records.dom() == Set::<u64>::empty() ==> (r matches Err(e) && (e
                matches Error::NotFound { msg } && msg@ == empty_store_msg())),
            self@.records.dom() != Set::<u64>::empty() ==> (r matches Ok(v) && is_listing(
                seq_views(v@),
                self@.records,
            )),
    {
        if self.inner.map_is_empty() {
            return Err(
                Error::NotFound { msg: "there are currently no crisis updates stored".to_owned() },
            );
        }
        proof {
            assert(self@.records.dom() != Set::<u64>::empty());
        }
        Ok(self.scan_all())
    }

    /// Returns the record with the highest id; reports `NotFound` when the
    /// store is empty.
    pub fn get_latest_crisis_update(&self) -> (r: Result<CrisisUpdate, Error>)
        requires
            self.wf(),
        ensures
            self@.records.dom() == Set::<u64>::empty() ==> (r matches Err(e) && (e
                matches Error::NotFound { msg } && msg@ == empty_store_msg())),
            self@.records.dom() != Set::<u64>::empty() ==> (r matches Ok(u)
                && self@.records.contains_key(u@.id) && u@ == self@.records[u@.id] && (forall|
                k: u64,
            | #[trigger]
                self@.records.contains_key(k) ==> k <= u@.id)),
    {
        match self.inner.map_last() {
            None => Err(
                Error::NotFound { msg: "there are currently no crisis updates stored".to_owned() },
            ),
            Some(p) => {
                let k: u64 = p.0;
                proof {
                    assert(self.model@.contains_key(k));
                }
                let u = CrisisUpdate::from_bytes(&p.1, Ghost(self.model@[k]));
                proof {
                    assert(self@.records.dom() != Set::<u64>::empty()) by {
                        assert(self@.records.dom().contains(k));
                    }
                }
                Ok(u)
            },
        }
    }

    /// Records whose last-modified timestamp lies in the inclusive range;
    /// records never updated match no range.
    pub fn get_crisis_updates_in_range(&self, start_timestamp: u64, end_timestamp: u64) -> (r: Vec<CrisisUpdate>)
        requires
            self.wf(),
        ensures
            is_filtered_listing(seq_views(r@), self@.records, range_pred(start_timestamp, end_timestamp)),
    {
        let all = self.scan_all();
        let ghost m = self@.records;
        let ghost all_v = seq_views(all@);
        let ghost f = range_pred(start_timestamp, end_timestamp);
        let mut out: Vec<CrisisUpdate> = Vec::new();
        let mut i: usize = 0;
        while i < all.len()
            invariant
                i <= all@.len(),
                all_v == seq_views(all@),
                f == range_pred(start_timestamp, end_timestamp),
                is_listing(all_v, m),
                filter_step_inv(seq_views(out@), all_v, m, f, i as int),
            decreases all@.len() - i,
        {
            let u = &all[i];
            let keep: bool = match u.timestamp { Some(t) => start_timestamp <= t && t <= end_timestamp, None => false };
            proof {
                assert(all_v[i as int] == u@);
                assert(keep == f(all_v[i as int]));
            }
            if keep {
                let ghost prev = seq_views(out@);
                let ghost n = out@.len();
                out.push(u.clone());
                proof {
                    assert(out@[n as int]@ == u@);
                    assert(seq_views(out@) =~= prev.push(all_v[i as int]));
                    lemma_filter_step_push(prev, all_v, m, f, i as int);
                }
            } else {
                proof {
                    lemma_filter_step_skip(seq_views(out@), all_v, m, f, i as int);
                }
            }
            i += 1;
        }
        proof {
            lemma_filter_done(seq_views(out@), all_v, m, f);
        }
        out
    }

    /// Records last modified strictly before the timestamp; records never
    /// updated match no bound.
    pub fn get_crisis_updates_before(&self, end_timestamp: u64) -> (r: Vec<CrisisUpdate>)
        requires
            self.wf(),
        ensures
            is_filtered_listing(seq_views(r@), self@.records, before_pred(end_timestamp)),
    {
        let all = self.scan_all();
        let ghost m = self@.records;
        let ghost all_v = seq_views(all@);
        let ghost f = before_pred(end_timestamp);
        let mut out: Vec<CrisisUpdate> = Vec::new();
        let mut i: usize = 0;
        while i < all.len()
            invariant
                i <= all@.len(),
                all_v == seq_views(all@),
                f == before_pred(end_timestamp),
                is_listing(all_v, m),
                filter_step_inv(seq_views(out@), all_v, m, f, i as int),
            decreases all@.len() - i,
        {
            let u = &all[i];
            let keep: bool = match u.timestamp { Some(t) => t < end_timestamp, None => false };
            proof {
                assert(all_v[i as int] == u@);
                assert(keep == f(all_v[i as int]));
            }
            if keep {
                let ghost prev = seq_views(out@);
                let ghost n = out@.len();
                out.push(u.clone());
                proof {
                    assert(out@[n as int]@ == u@);
                    assert(seq_views(out@) =~= prev.push(all_v[i as int]));
                    lemma_filter_step_push(prev, all_v, m, f, i as int);
                }
            } else {
                proof {
                    lemma_filter_step_skip(seq_views(out@), all_v, m, f, i as int);
                }
            }
            i += 1;
        }
        proof {
            lemma_filter_done(seq_views(out@), all_v, m, f);
        }
        out
    }

    /// Records last modified strictly after the timestamp; records never
    /// updated match no bound.
    pub fn get_crisis_updates_after(&self, start_timestamp: u64) -> (r: Vec<CrisisUpdate>)
        requires
            self.wf(),
        ensures
            is_filtered_listing(seq_views(r@), self@.records, after_pred(start_timestamp)),
    {
        let all = self.scan_all();
        let ghost m = self@.records;
        let ghost all_v = seq_views(all@);
        let ghost f = after_pred(start_timestamp);
        let mut out: Vec<CrisisUpdate> = Vec::new();
        let mut i: usize = 0;
        while i < all.len()
            invariant
                i <= all@.len(),
                all_v == seq_views(all@),
                f == after_pred(start_timestamp),
                is_listing(all_v, m),
                filter_step_inv(seq_views(out@), all_v, m, f, i as int),
            decreases all@.len() - i,
        {
            let u = &all[i];
            let keep: bool = match u.timestamp { Some(t) => t > start_timestamp, None => false };
            proof {
                assert(all_v[i as int] == u@);
                assert(keep == f(all_v[i as int]));
            }
            if keep {
                let ghost prev = seq_views(out@);
                let ghost n = out@.len();
                out.push(u.clone());
                proof {
                    assert(out@[n as int]@ == u@);
                    assert(seq_views(out@) =~= prev.push(all_v[i as int]));
                    lemma_filter_step_push(prev, all_v, m, f, i as int);
                }
            } else {
                proof {
                    lemma_filter_step_skip(seq_views(out@), all_v, m, f, i as int);
                }
            }
            i += 1;
        }
        proof {
            lemma_filter_done(seq_views(out@), all_v, m, f);
        }
        out
    }

    /// Records whose id lies in the inclusive range.
    pub fn get_crisis_updates_by_id_range(&self, start_id: u64, end_id: u64) -> (r: Vec<CrisisUpdate>)
        requires
            self.wf(),
        ensures
            is_filtered_listing(seq_views(r@), self@.records, id_range_pred(start_id, end_id)),
    {
        let all = self.scan_all();
        let ghost m = self@.records;
        let ghost all_v = seq_views(all@);
        let ghost f = id_range_pred(start_id, end_id);
        let mut out: Vec<CrisisUpdate> = Vec::new();
        let mut i: usize = 0;
        while i < all.len()
            invariant
                i <= all@.len(),
                all_v == seq_views(all@),
                f == id_range_pred(start_id, end_id),
                is_listing(all_v, m),
                filter_step_inv(seq_views(out@), all_v, m, f, i as int),
            decreases all@.len() - i,
        {
            let u = &all[i];
            let keep: bool = start_id <= u.id && u.id <= end_id;
            proof {
                assert(all_v[i as int] == u@);
                assert(keep == f(all_v[i as int]));
            }
            if keep {
                let ghost prev = seq_views(out@);
                let ghost n = out@.len();
                out.push(u.clone());
                proof {
                    assert(out@[n as int]@ == u@);
                    assert(seq_views(out@) =~= prev.push(all_v[i as int]));
                    lemma_filter_step_push(prev, all_v, m, f, i as int);
                }
            } else {
                proof {
                    lemma_filter_step_skip(seq_views(out@), all_v, m, f, i as int);
                }
            }
            i += 1;
        }
        proof {
            lemma_filter_done(seq_views(out@), all_v, m, f);
        }
        out
    }

    /// Records whose title contains the given text.
    pub fn get_crisis_updates_by_title(&self, title: String) -> (r: Vec<CrisisUpdate>)
        requires
            self.wf(),
        ensures
            is_filtered_listing(seq_views(r@), self@.records, title_pred(title@)),
    {
        let all = self.scan_all();
        let ghost m = self@.records;
        let ghost all_v = seq_views(all@);
        let ghost f = title_pred(title@);
        let mut out: Vec<CrisisUpdate> = Vec::new();
        let mut i: usize = 0;
        while i < all.len()
            invariant
                i <= all@.len(),
                all_v == seq_views(all@),
                f == title_pred(title@),
                is_listing(all_v, m),
                filter_step_inv(seq_views(out@), all_v, m, f, i as int),
            decreases all@.len() - i,
        {
            let u = &all[i];
            let keep: bool = contains_str(u.title.as_str(), title.as_str());
            proof {
                assert(all_v[i as int] == u@);
                assert(keep == f(all_v[i as int]));
            }
            if keep {
                let ghost prev = seq_views(out@);
                let ghost n = out@.len();
                out.push(u.clone());
                proof {
                    assert(out@[n as int]@ == u@);
                    assert(seq_views(out@) =~= prev.push(all_v[i as int]));
                    lemma_filter_step_push(prev, all_v, m, f, i as int);
                }
            } else {
                proof {
                    lemma_filter_step_skip(seq_views(out@), all_v, m, f, i as int);
                }
            }
            i += 1;
        }
        proof {
            lemma_filter_done(seq_views(out@), all_v, m, f);
        }
        out
    }

    /// Records whose description contains the given text.
    pub fn get_crisis_updates_by_description(&self, description: String) -> (r: Vec<CrisisUpdate>)
        requires
            self.wf(),
        ensures
            is_filtered_listing(seq_views(r@), self@.records, description_pred(description@)),
    {
        let all = self.scan_all();
        let ghost m = self@.records;
        let ghost all_v = seq_views(all@);
        let ghost f = description_pred(description@);
        let mut out: Vec<CrisisUpdate> = Vec::new();
        let mut i: usize = 0;
        while i < all.len()
            invariant
                i <= all@.len(),
                all_v == seq_views(all@),
                f == description_pred(description@),
                is_listing(all_v, m),
                filter_step_inv(seq_views(out@), all_v, m, f, i as int),
            decreases all@.len() - i,
        {
            let u = &all[i];
            let keep: bool = contains_str(u.description.as_str(), description.as_str());
            proof {
                assert(all_v[i as int] == u@);
                assert(keep == f(all_v[i as int]));
            }
            if keep {
                let ghost prev = seq_views(out@);
                let ghost n = out@.len();
                out.push(u.clone());
                proof {
                    assert(out@[n as int]@ == u@);
                    assert(seq_views(out@) =~= prev.push(all_v[i as int]));
                    lemma_filter_step_push(prev, all_v, m, f, i as int);
                }
            } else {
                proof {
                    lemma_filter_step_skip(seq_views(out@), all_v, m, f, i as int);
                }
            }
            i += 1;
        }
        proof {
            lemma_filter_done(seq_views(out@), all_v, m, f);
        }
        out
    }

    /// Records at exactly the given location, ascending by id; reports
    /// `NotFound` with one message when the store is empty and with another
    /// when it is not empty but nothing matches.
    pub fn search_crisis_updates_by_location(&self, location: String) -> (r: Result<
        Vec<CrisisUpdate>,
        Error,
    >)
        requires
            self.wf(),
        ensures
            self@.records.dom() == Set::<u64>::empty() ==> (r matches Err(e) && (e
                matches Error::NotFound { msg } && msg@ == empty_store_msg())),
            self@.records.dom() != Set::<u64>::empty() && (forall|k: u64| #[trigger]
                self@.records.contains_key(k) ==> self@.records[k].location != location@) ==> (r
                matches Err(e) && (e matches Error::NotFound { msg } && msg@
                == no_match_location_msg())),
            self@.records.dom() != Set::<u64>::empty() && (exists|k: u64| #[trigger]
                self@.records.contains_key(k) && self@.records[k].location == location@) ==> (r
                matches Ok(v) && is_filtered_listing(
                seq_views(v@),
                self@.records,
                loc_pred(location@),
            )),
    {
        if self.inner.map_is_empty() {
            return Err(
                Error::NotFound { msg: "there are currently no crisis updates stored".to_owned() },
            );
        }
        let all = self.scan_all();
        let ghost m = self@.records;
        let ghost all_v = seq_views(all@);
        let ghost f = loc_pred(location@);
        let mut out: Vec<CrisisUpdate> = Vec::new();
        let mut i: usize = 0;
        while i < all.len()
            invariant
                i <= all@.len(),
                all_v == seq_views(all@),
                f == loc_pred(location@),
                is_listing(all_v, m),
                filter_step_inv(seq_views(out@), all_v, m, f, i as int),
            decreases all@.len() - i,
        {
            let u = &all[i];
            let keep: bool = u.location.eq(&location);
            proof {
                assert(all_v[i as int] == u@);
                assert(keep == f(all_v[i as int]));
            }
            if keep {
                let ghost prev = seq_views(out@);
                let ghost n = out@.len();
                out.push(u.clone());
                proof {
                    assert(out@[n as int]@ == u@);
                    assert(seq_views(out@) =~= prev.push(all_v[i as int]));
                    lemma_filter_step_push(prev, all_v, m, f, i as int);
                }
            } else {
                proof {
                    lemma_filter_step_skip(seq_views(out@), all_v, m, f, i as int);
                }
            }
            i += 1;
        }
        proof {
            lemma_filter_done(seq_views(out@), all_v, m, f);
        }
        if out.is_empty() {
            proof {
                assert forall|k: u64| #[trigger]
                    m.contains_key(k) implies m[k].location != location@ by {
                    if m[k].location == location@ {
                        assert(f(m[k]));
                        let q = choose|q: int|
                            0 <= q < seq_views(out@).len() && seq_views(out@)[q] == m[k];
                        assert(false);
                    }
                }
            }
            return Err(
                Error::NotFound {
                    msg: "there are currently no crisis updates stored for the given location".to_owned(),
                },
            );
        }
        proof {
            let ov = seq_views(out@);
            assert(ov[0] == out@[0]@);
            assert(m.contains_key(ov[0].id) && m[ov[0].id].location == location@);
        }
        Ok(out)
    }

    /// The id the allocator would hand out next.
    pub fn peek_next_id(&self) -> (r: u64)
        requires
            self.wf(),
        ensures
            r == self@.counter,
    {
        self.inner.counter_get()
    }
}

/// True when a record created from the payload by the given caller stays
/// within the maximum encoded size the durable store accepts.
pub fn create_fits(payload: &CrisisUpdatePayload, caller: &String) -> (r: bool)
    ensures
        r == (49 + 4 * (payload@.title.len() + payload@.description.len()
            + payload@.location.len() + caller@.len()) <= 1024),
{
    let tl: usize = payload.title.as_str().unicode_len();
    let dl: usize = payload.description.as_str().unicode_len();
    let ll: usize = payload.location.as_str().unicode_len();
    let al: usize = caller.as_str().unicode_len();
    if tl > 1024 || dl > 1024 || ll > 1024 || al > 1024 {
        return false;
    }
    49 + 4 * (tl + dl + ll + al) <= 1024
}

/// True when a record updated from the payload stays within the maximum
/// encoded size the durable store accepts; the author is kept by an update.
pub fn update_fits(payload: &CrisisUpdatePayload, author: &String) -> (r: bool)
    ensures
        r == (57 + 4 * (payload@.title.len() + payload@.description.len()
            + payload@.location.len() + author@.len()) <= 1024),
{
    let tl: usize = payload.title.as_str().unicode_len();
    let dl: usize = payload.description.as_str().unicode_len();
    let ll: usize = payload.location.as_str().unicode_len();
    let al: usize = author.as_str().unicode_len();
    if tl > 1024 || dl > 1024 || ll > 1024 || al > 1024 {
        return false;
    }
    57 + 4 * (tl + dl + ll + al) <= 1024
}

} // verus!
